//! Trusted interface to the structural selector engine, the regular
//! expression engine and the document tree this crate's rules run against.
//!
//! Every item here either declares an outside type or wraps one call into an
//! outside crate; the contracts state what the crates' sources show.

use vstd::prelude::*;

verus! {

#[verifier::external_type_specification]
#[verifier::external_body]
pub struct ExSelector(scraper::Selector);

#[verifier::external_type_specification]
#[verifier::external_body]
pub struct ExRegex(regex_lite::Regex);

#[verifier::external_type_specification]
#[verifier::external_body]
pub struct ExHtml(scraper::Html);

#[verifier::external_type_specification]
#[verifier::external_body]
pub struct ExElementRef<'a>(scraper::ElementRef<'a>);

#[verifier::external_type_specification]
#[verifier::external_body]
pub struct ExNodeId(ego_tree::NodeId);

/// The source text the selector was compiled from.
pub uninterp spec fn selector_source(s: scraper::Selector) -> Seq<char>;

/// Whether the selector engine accepts this source text.
pub uninterp spec fn sel_valid(src: Seq<char>) -> bool;

/// Whether the selector with source `src` matches the element itself.
pub uninterp spec fn css_match(src: Seq<char>, el: scraper::ElementRef) -> bool;

/// The text node contents under an element, in document order.
pub uninterp spec fn el_texts(el: scraper::ElementRef) -> Seq<Seq<char>>;

/// The elements under an element (itself excluded) that the selector
/// compiled from `src` matches, in document order.
pub uninterp spec fn selected_under(src: Seq<char>, el: scraper::ElementRef) -> Seq<
    scraper::ElementRef,
>;

/// The ancestor elements of an element, nearest first, the element itself
/// excluded.
pub uninterp spec fn ancestors_of(el: scraper::ElementRef) -> Seq<scraper::ElementRef>;

/// The source text the regular expression was compiled from.
pub uninterp spec fn regex_source(re: regex_lite::Regex) -> Seq<char>;

/// Whether the regular expression engine accepts this source text.
pub uninterp spec fn re_valid(src: Seq<char>) -> bool;

/// Whether the pattern with source `src` matches anywhere in `text`.
pub uninterp spec fn re_match(src: Seq<char>, text: Seq<char>) -> bool;

/// What replacing every non-overlapping match of `src` in `text` with the
/// literal `rep` yields, when there is at least one match.
pub uninterp spec fn re_replace_matched(src: Seq<char>, text: Seq<char>, rep: Seq<char>) -> Seq<
    char,
>;

/// What replacing every non-overlapping match of `src` in `text` with the
/// literal `rep` yields: text without a match comes back unchanged.
pub open spec fn re_replace(src: Seq<char>, text: Seq<char>, rep: Seq<char>) -> Seq<char> {
    if re_match(src, text) {
        re_replace_matched(src, text, rep)
    } else {
        text
    }
}

/// Relies on `scraper::Selector::parse`: compiles exactly the source texts
/// the selector engine accepts.
#[verifier::external_body]
pub(crate) fn selector_new(src: &str) -> (r: Option<scraper::Selector>)
    ensures
        r is Some <==> sel_valid(src@),
        r is Some ==> selector_source(r->0) == src@,
{
    scraper::Selector::parse(src).ok()
}

/// Relies on `scraper::Selector::matches`: the verdict on this element.
#[verifier::external_body]
pub(crate) fn selector_matches(sel: &scraper::Selector, el: &scraper::ElementRef) -> (r: bool)
    ensures
        r == css_match(selector_source(*sel), *el),
{
    sel.matches(el)
}

/// Relies on `scraper::ElementRef::text`: hands out the text node contents
/// under the element, in document order.
#[verifier::external_body]
pub(crate) fn element_texts(el: &scraper::ElementRef) -> (r: Vec<String>)
    ensures
        r@.map_values(|s: String| s@) == el_texts(*el),
{
    el.text().map(|t| t.to_owned()).collect()
}

/// Relies on `scraper::ElementRef::select`: hands out the elements under
/// `el` that the selector matches, in document order.
#[verifier::external_body]
pub(crate) fn select_within<'a>(el: &scraper::ElementRef<'a>, sel: &scraper::Selector) -> (r: Vec<
    scraper::ElementRef<'a>,
>)
    ensures
        r@ == selected_under(selector_source(*sel), *el),
{
    el.select(sel).collect()
}

/// Relies on `scraper::ElementRef::ancestors` and `ElementRef::wrap`: hands
/// out the ancestor elements, nearest first.
#[verifier::external_body]
pub(crate) fn ancestor_elements<'a>(el: &scraper::ElementRef<'a>) -> (r: Vec<scraper::ElementRef<'a>>)
    ensures
        r@ == ancestors_of(*el),
{
    el.ancestors().filter_map(scraper::ElementRef::wrap).collect()
}

/// The node ids of the elements a selector matches in a whole document, in
/// the order the tree stores them.
pub uninterp spec fn doc_selected(h: scraper::Html, src: Seq<char>) -> Seq<ego_tree::NodeId>;

/// The text nodes of a whole document with their contents, in the order
/// the tree stores them.
pub uninterp spec fn doc_texts(h: scraper::Html) -> Seq<(ego_tree::NodeId, Seq<char>)>;

/// The ancestor node ids of a node, nearest first, the node itself
/// excluded.
pub uninterp spec fn doc_ancestors(h: scraper::Html, id: ego_tree::NodeId) -> Seq<ego_tree::NodeId>;

/// The text nodes under a node with their contents, in document order.
pub uninterp spec fn doc_subtree_texts(h: scraper::Html, id: ego_tree::NodeId) -> Seq<
    (ego_tree::NodeId, Seq<char>),
>;

/// The serialization of a whole document.
pub uninterp spec fn serialize_of(h: scraper::Html) -> Seq<char>;

/// The document that parsing a source text yields.
pub uninterp spec fn parse_of(s: Seq<char>) -> scraper::Html;

/// The document after the subtree at `id` is detached from its parent.
pub uninterp spec fn detached(h: scraper::Html, id: ego_tree::NodeId) -> scraper::Html;

/// The whole-match substrings of every non-overlapping match of the pattern
/// with source `src` in `text`, in order.
pub uninterp spec fn matches_in(src: Seq<char>, text: Seq<char>) -> Seq<Seq<char>>;

/// Ancestor chains agree wherever they meet: a node determines the chain
/// above it, so two chains sharing a node share everything after it.
pub open spec fn chains_coherent(cs: Seq<Seq<ego_tree::NodeId>>) -> bool {
    forall|k1: int, k2: int, j1: int, j2: int|
        0 <= k1 < cs.len() && 0 <= k2 < cs.len() && 0 <= j1 < cs[k1].len() && 0 <= j2
            < cs[k2].len() && #[trigger] cs[k1][j1] == #[trigger] cs[k2][j2] ==> cs[k1].skip(j1)
            == cs[k2].skip(j2)
}

/// Relies on `scraper::Html::select`: hands out the ids of the elements the
/// selector matches, in the order the tree stores them.
#[verifier::external_body]
pub(crate) fn html_select_ids(h: &scraper::Html, sel: &scraper::Selector) -> (r: Vec<ego_tree::NodeId>)
    ensures
        r@ == doc_selected(*h, selector_source(*sel)),
{
    h.select(sel).map(|e| e.id()).collect()
}

/// Relies on `ego_tree::Tree::nodes`: hands out every text node of the
/// document with its content, in the order the tree stores them. Each node
/// is handed out once, and ids are unique per node, so the ids are distinct.
#[verifier::external_body]
pub(crate) fn html_text_nodes(h: &scraper::Html) -> (r: Vec<(ego_tree::NodeId, String)>)
    ensures
        r@.map_values(|p: (ego_tree::NodeId, String)| (p.0, p.1@)) == doc_texts(*h),
        forall|k1: int, k2: int|
            0 <= k1 < k2 < r@.len() ==> (#[trigger] r@[k1]).0 != (#[trigger] r@[k2]).0,
{
    h.tree.nodes().filter_map(
        |n| if let scraper::Node::Text(t) = n.value() {
            Some((n.id(), t.to_string()))
        } else {
            None
        },
    ).collect()
}

/// Relies on `ego_tree::NodeRef::ancestors`: hands out the ancestor ids of
/// a node, nearest first.
#[verifier::external_body]
pub(crate) fn ancestor_ids(h: &scraper::Html, id: ego_tree::NodeId) -> (r: Vec<ego_tree::NodeId>)
    ensures
        r@ == doc_ancestors(*h, id),
{
    h.tree.get(id).map_or(Vec::new(), |n| n.ancestors().map(|a| a.id()).collect())
}

/// Relies on `ego_tree::NodeRef::ancestors`, mapped over the given ids: each
/// chain follows parent links upward, so chains that share a node share the
/// whole remainder, which makes the chains coherent.
#[verifier::external_body]
pub(crate) fn ancestor_chains(h: &scraper::Html, ids: &Vec<ego_tree::NodeId>) -> (r: Vec<
    Vec<ego_tree::NodeId>,
>)
    ensures
        r@.len() == ids@.len(),
        forall|k: int| 0 <= k < ids@.len() ==> #[trigger] r@[k]@ == doc_ancestors(*h, ids@[k]),
        chains_coherent(r@.map_values(|v: Vec<ego_tree::NodeId>| v@)),
{
    ids.iter().map(
        |id| h.tree.get(*id).map_or(Vec::new(), |n| n.ancestors().map(|a| a.id()).collect()),
    ).collect()
}

/// Relies on `ego_tree::NodeRef::descendants`: hands out the text nodes
/// under a node with their contents, in document order. A text node of a
/// subtree is a text node of the whole document, and ids are unique per
/// node, so a document text entry with the same id carries the same content.
#[verifier::external_body]
pub(crate) fn descendant_texts(h: &scraper::Html, id: ego_tree::NodeId) -> (r: Vec<
    (ego_tree::NodeId, String),
>)
    ensures
        r@.map_values(|p: (ego_tree::NodeId, String)| (p.0, p.1@)) == doc_subtree_texts(*h, id),
        forall|k: int, k2: int|
            0 <= k < r@.len() && 0 <= k2 < doc_texts(*h).len() && (#[trigger] doc_texts(
                *h,
            )[k2]).0 == (#[trigger] r@[k]).0 ==> doc_texts(*h)[k2].1 == r@[k].1@,
{
    let Some(n) = h.tree.get(id) else { return Vec::new() };
    n.descendants().filter_map(
        |d| if let scraper::Node::Text(t) = d.value() {
            Some((d.id(), t.to_string()))
        } else {
            None
        },
    ).collect()
}

/// Relies on `ego_tree::NodeMut::detach`: removes the subtree at `id` from
/// its parent, a pure function of the tree and the id.
#[verifier::external_body]
pub(crate) fn detach_node(h: &mut scraper::Html, id: ego_tree::NodeId)
    ensures
        *final(h) == detached(*old(h), id),
{
    if let Some(mut n) = h.tree.get_mut(id) {
        n.detach();
    }
}

/// Relies on `ego_tree::NodeMut::value`: writes the content of the text node
/// at `id` in place. No node is created, moved or removed, so the document
/// keeps the same text nodes in the same stored order; only the entry at
/// `id` (when a text node with that id exists) takes the given content.
/// Selector matching reads elements and attributes, never text content, so
/// which elements any selector picks is untouched, as are all parent links.
/// The content is stored as a tendril, whose length field is 32 bits wide
/// and which stops the process on a longer text: such a text is excluded.
#[verifier::external_body]
pub(crate) fn set_text_node(h: &mut scraper::Html, id: ego_tree::NodeId, text: &str)
    requires
        crate::strutil::spec_byte_len(text@) < 4294967296,
    ensures
        doc_texts(*final(h)).len() == doc_texts(*old(h)).len(),
        forall|k: int|
            0 <= k < doc_texts(*old(h)).len() ==> (#[trigger] doc_texts(*final(h))[k]).0
                == doc_texts(*old(h))[k].0,
        forall|k: int|
            0 <= k < doc_texts(*old(h)).len() && doc_texts(*old(h))[k].0 == id ==> (
            #[trigger] doc_texts(*final(h))[k]).1 == text@,
        forall|k: int|
            0 <= k < doc_texts(*old(h)).len() && doc_texts(*old(h))[k].0 != id ==> (
            #[trigger] doc_texts(*final(h))[k]) == doc_texts(*old(h))[k],
        forall|src: Seq<char>| #[trigger]
            doc_selected(*final(h), src) == doc_selected(*old(h), src),
        forall|id2: ego_tree::NodeId| #[trigger]
            doc_ancestors(*final(h), id2) == doc_ancestors(*old(h), id2),
{
    if let Some(mut n) = h.tree.get_mut(id) {
        if matches!(n.value(), scraper::Node::Text(_)) {
            let t: scraper::StrTendril = text.into();
            *n.value() = scraper::Node::Text(scraper::node::Text { text: t });
        }
    }
}

/// Relies on `scraper::Html::html`: serializes the whole document to markup
/// in memory, a pure function of the tree.
#[verifier::external_body]
pub(crate) fn html_serialize(h: &scraper::Html) -> (r: String)
    ensures
        r@ == serialize_of(*h),
{
    h.html()
}

/// Relies on `scraper::Html::parse_document`: parses a fresh document, with
/// error recovery, a pure function of the source text. The parser stores
/// text in tendrils, whose length field is 32 bits wide and which stop the
/// process on a longer run; character reference expansion can lengthen text
/// against its source, but never to twice the length, so inputs under half
/// that cap are safe and longer ones are excluded.
#[verifier::external_body]
pub(crate) fn html_parse_document(s: &str) -> (r: scraper::Html)
    requires
        crate::strutil::spec_byte_len(s@) < 2147483648,
    ensures
        r == parse_of(s@),
{
    scraper::Html::parse_document(s)
}

/// Relies on `ego_tree::NodeId`'s derived `PartialEq`: ids compare equal
/// exactly when they are the same id.
#[verifier::external_body]
pub(crate) fn node_id_eq(a: &ego_tree::NodeId, b: &ego_tree::NodeId) -> (r: bool)
    ensures
        r == (a == b),
{
    a == b
}

/// Relies on `ego_tree::NodeId` being `Copy`.
#[verifier::external_body]
pub(crate) fn copy_id(id: &ego_tree::NodeId) -> (r: ego_tree::NodeId)
    ensures
        r == *id,
{
    *id
}

/// Relies on `scraper::ElementRef` being `Copy`.
#[verifier::external_body]
pub(crate) fn copy_el<'a>(el: &scraper::ElementRef<'a>) -> (r: scraper::ElementRef<'a>)
    ensures
        r == *el,
{
    *el
}

/// Relies on `regex_lite::Regex::new`: compiles exactly the patterns the
/// regular expression engine accepts.
#[verifier::external_body]
pub(crate) fn regex_new(src: &str) -> (r: Option<regex_lite::Regex>)
    ensures
        r is Some <==> re_valid(src@),
        r is Some ==> regex_source(r->0) == src@,
{
    regex_lite::Regex::new(src).ok()
}

/// Relies on `regex_lite::Regex::is_match`: the engine's verdict on `text`.
#[verifier::external_body]
pub(crate) fn regex_is_match(re: &regex_lite::Regex, text: &str) -> (r: bool)
    ensures
        r == re_match(regex_source(*re), text@),
{
    re.is_match(text)
}

/// Relies on `regex_lite::Regex::find_iter`: hands out the whole-match
/// substring of every non-overlapping match, in order, a pure function of
/// the pattern's source and the haystack.
#[verifier::external_body]
pub(crate) fn regex_find_all(re: &regex_lite::Regex, text: &str) -> (r: Vec<String>)
    ensures
        r@.map_values(|s: String| s@) == matches_in(regex_source(*re), text@),
{
    re.find_iter(text).map(|m| m.as_str().to_owned()).collect()
}

/// Relies on `regex_lite::Regex::replace_all` with `NoExpand`: replaces every
/// non-overlapping match with the literal replacement, and returns the
/// haystack unchanged when nothing matches.
#[verifier::external_body]
pub(crate) fn regex_replace_all(re: &regex_lite::Regex, text: &str, rep: &str) -> (r: String)
    ensures
        r@ == re_replace(regex_source(*re), text@, rep@),
        re_match(regex_source(*re), text@) ==> r@ == re_replace_matched(
            regex_source(*re),
            text@,
            rep@,
        ),
{
    re.replace_all(text, regex_lite::NoExpand(rep)).into_owned()
}

} // verus!
