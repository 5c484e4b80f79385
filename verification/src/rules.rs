//! Small textual rules used while converting pages: recognizing horizontal
//! separators and scene separators in paragraph text.

use vstd::prelude::*;

use crate::sed::spec_is_ws;
use crate::walk::DomNode;

verus! {

/// The text without its leading whitespace.
pub open spec fn spec_drop_leading_ws(s: Seq<char>) -> Seq<char>
    decreases s.len(),
{
    if s.len() > 0 && spec_is_ws(s[0]) {
        spec_drop_leading_ws(s.drop_first())
    } else {
        s
    }
}

/// The text without its trailing whitespace.
pub open spec fn spec_drop_trailing_ws(s: Seq<char>) -> Seq<char>
    decreases s.len(),
{
    if s.len() > 0 && spec_is_ws(s.last()) {
        spec_drop_trailing_ws(s.drop_last())
    } else {
        s
    }
}

/// The text without leading and trailing whitespace.
pub open spec fn spec_trim(s: Seq<char>) -> Seq<char> {
    spec_drop_trailing_ws(spec_drop_leading_ws(s))
}

/// The characters of `v` between the first and last non-whitespace ones.
pub fn trim_chars(v: &Vec<char>) -> (r: Vec<char>)
    ensures
        r@ == spec_trim(v@),
{
    proof {
        assert(v@.skip(0) =~= v@);
    }
    let mut a: usize = 0;
    while a < v.len() && crate::sed::is_ws(v[a])
        invariant
            a <= v@.len(),
            spec_drop_leading_ws(v@.skip(a as int)) == spec_drop_leading_ws(v@),
        decreases v@.len() - a,
    {
        proof {
            assert(v@.skip(a as int)[0] == v@[a as int]);
            assert(v@.skip(a as int).drop_first() =~= v@.skip(a as int + 1));
        }
        a = a + 1;
    }
    proof {
        if a < v@.len() {
            assert(spec_drop_leading_ws(v@.skip(a as int)) == v@.skip(a as int));
        } else {
            assert(v@.skip(a as int) =~= Seq::<char>::empty());
        }
    }
    let lead = crate::sed::subvec(v, a, v.len());
    proof {
        assert(lead@ == v@.skip(a as int));
        assert(lead@ == spec_drop_leading_ws(v@));
    }
    proof {
        assert(lead@.take(lead@.len() as int) =~= lead@);
    }
    let mut b: usize = lead.len();
    while b > 0 && crate::sed::is_ws(lead[b - 1])
        invariant
            b <= lead@.len(),
            spec_drop_trailing_ws(lead@.take(b as int)) == spec_drop_trailing_ws(lead@),
        decreases b,
    {
        proof {
            assert(lead@.take(b as int).last() == lead@[b as int - 1]);
            assert(lead@.take(b as int).drop_last() =~= lead@.take(b as int - 1));
        }
        b = b - 1;
    }
    proof {
        if b > 0 {
            assert(spec_drop_trailing_ws(lead@.take(b as int)) == lead@.take(b as int));
        } else {
            assert(lead@.take(0) =~= Seq::<char>::empty());
        }
    }
    let r = crate::sed::subvec(&lead, 0, b);
    proof {
        assert(r@ == lead@.take(b as int));
        assert(r@ == spec_trim(v@));
    }
    r
}

/// Whether a character draws a horizontal line: an em dash, an en dash, an
/// equals sign or a hyphen.
pub open spec fn spec_is_rule_char(c: char) -> bool {
    c == '\u{2014}' || c == '\u{2013}' || c == '=' || c == '-'
}

/// Whether a text is a drawn horizontal separator: after trimming, it is
/// non-empty and made only of dash-like characters.
pub open spec fn spec_is_hr_text(s: Seq<char>) -> bool {
    let t = spec_trim(s);
    t.len() > 0 && forall|i: int| 0 <= i < t.len() ==> spec_is_rule_char(#[trigger] t[i])
}

/// Whether a text is a drawn horizontal separator.
pub fn is_hr_text(s: &str) -> (r: bool)
    ensures
        r == spec_is_hr_text(s@),
{
    let v = crate::strutil::chars_of(s);
    let t = trim_chars(&v);
    if t.len() == 0 {
        return false;
    }
    let mut i: usize = 0;
    while i < t.len()
        invariant
            t@ == spec_trim(s@),
            i <= t@.len(),
            forall|j: int| 0 <= j < i ==> spec_is_rule_char(#[trigger] t@[j]),
        decreases t@.len() - i,
    {
        let c = t[i];
        if !(c == '\u{2014}' || c == '\u{2013}' || c == '=' || c == '-') {
            assert(!spec_is_rule_char(t@[i as int]));
            return false;
        }
        i = i + 1;
    }
    true
}

/// The first text in a subtree, in document order.
pub open spec fn spec_first_text(n: DomNode) -> Option<Seq<char>>
    decreases n, 0int,
{
    match n {
        DomNode::Text(t) => Some(t@),
        DomNode::Element { children, .. } => spec_first_text_of(children@, 0),
    }
}

/// The first text among a run of nodes, in document order.
pub open spec fn spec_first_text_of(kids: Seq<DomNode>, i: int) -> Option<Seq<char>>
    decreases kids, kids.len() - i,
{
    if i < 0 || i >= kids.len() {
        None
    } else {
        match spec_first_text(kids[i]) {
            Some(t) => Some(t),
            None => spec_first_text_of(kids, i + 1),
        }
    }
}

/// The first text in a subtree, in document order.
pub fn first_text(n: &DomNode) -> (r: Option<&String>)
    ensures
        match spec_first_text(*n) {
            Some(t) => r matches Some(got) && got@ == t,
            None => r is None,
        },
    decreases *n, 0int,
{
    match n {
        DomNode::Text(t) => Some(t),
        DomNode::Element { children, .. } => {
            let mut i: usize = 0;
            while i < children.len()
                invariant
                    n matches DomNode::Element { children: c2, .. } && c2@ == children@,
                    i <= children@.len(),
                    spec_first_text_of(children@, i as int) == spec_first_text_of(children@, 0),
                decreases children@.len() - i,
            {
                match first_text(&children[i]) {
                    Some(t) => {
                        proof {
                            assert(spec_first_text_of(children@, i as int) == spec_first_text(
                                children@[i as int],
                            ));
                        }
                        return Some(t);
                    },
                    None => {},
                }
                i = i + 1;
            }
            None
        },
    }
}

/// Whether an element stands for a horizontal separator: it is an `hr`
/// element, or its first text is a drawn separator.
pub fn is_hr(n: &DomNode) -> (r: bool)
    ensures
        r == (n matches DomNode::Element { name, .. } && name@ == "hr"@ || (
        spec_first_text(*n) matches Some(t) && spec_is_hr_text(t))),
{
    if let DomNode::Element { name, .. } = n {
        if crate::strutil::streq(name.as_str(), "hr") {
            return true;
        }
    }
    match first_text(n) {
        Some(t) => is_hr_text(t.as_str()),
        None => false,
    }
}

/// What a scene-separator line captures: for text of the form of a lozenge,
/// a heading without lozenges, an optional closing lozenge and trailing
/// whitespace, the trimmed heading; nothing otherwise.
pub open spec fn spec_scene_sep(s: Seq<char>) -> Option<Seq<char>> {
    if s.len() == 0 || s[0] != '\u{25c7}' {
        None
    } else {
        let rest = s.drop_first();
        match spec_first_lozenge(rest, 0) {
            Some(j) => {
                if forall|k: int| j < k < rest.len() ==> spec_is_ws(#[trigger] rest[k]) {
                    Some(spec_trim(rest.take(j)))
                } else {
                    None
                }
            },
            None => Some(spec_trim(rest)),
        }
    }
}

/// The position of the first lozenge at or after `i`.
pub open spec fn spec_first_lozenge(s: Seq<char>, i: int) -> Option<int>
    decreases s.len() - i when 0 <= i <= s.len()
{
    if i >= s.len() {
        None
    } else if s[i] == '\u{25c7}' {
        Some(i)
    } else {
        spec_first_lozenge(s, i + 1)
    }
}

/// What a scene-separator line captures: the trimmed heading between an
/// opening lozenge and an optional closing one, provided only whitespace
/// follows.
pub fn scene_sep_of(s: &str) -> (r: Option<String>)
    ensures
        match spec_scene_sep(s@) {
            Some(t) => r matches Some(got) && got@ == t,
            None => r is None,
        },
{
    let v = crate::strutil::chars_of(s);
    if v.len() == 0 {
        return None;
    }
    if v[0] != '\u{25c7}' {
        return None;
    }
    let rest = crate::sed::subvec(&v, 1, v.len());
    proof {
        assert(rest@ == v@.drop_first());
    }
    let mut j: usize = 0;
    while j < rest.len() && rest[j] != '\u{25c7}'
        invariant
            v@ == s@,
            v@.len() >= 1,
            rest@ == v@.drop_first(),
            j <= rest@.len(),
            spec_first_lozenge(rest@, j as int) == spec_first_lozenge(rest@, 0),
            forall|k: int| 0 <= k < j ==> rest@[k] != '\u{25c7}',
        decreases rest@.len() - j,
    {
        j = j + 1;
    }
    if j >= rest.len() {
        // no closing lozenge: the whole remainder is the heading
        let t = trim_chars(&rest);
        proof {
            assert(spec_first_lozenge(rest@, j as int) is None);
        }
        return Some(crate::strutil::string_from_chars(&t));
    }
    proof {
        assert(rest@[j as int] == '\u{25c7}');
        assert(spec_first_lozenge(rest@, j as int) == Some(j as int));
    }
    let ghost fl = spec_first_lozenge(rest@, 0);
    proof {
        assert(fl == Some(j as int));
    }
    let mut k: usize = j + 1;
    while k < rest.len()
        invariant
            v@ == s@,
            v@.len() >= 1,
            rest@ == v@.drop_first(),
            fl == spec_first_lozenge(rest@, 0),
            fl == Some(j as int),
            j < k <= rest@.len(),
            forall|k0: int| j < k0 < k ==> spec_is_ws(#[trigger] rest@[k0]),
        decreases rest@.len() - k,
    {
        if !crate::sed::is_ws(rest[k]) {
            proof {
                assert(!spec_is_ws(rest@[k as int]));
                assert(j < k < rest@.len());
                let srest = s@.drop_first();
                assert(srest[k as int] == rest@[k as int]);
                assert(!(forall|k0: int|
                    (j as int) < k0 && k0 < srest.len() ==> spec_is_ws(#[trigger] srest[k0])));
            }
            return None;
        }
        k = k + 1;
    }
    let head = crate::sed::subvec(&rest, 0, j);
    let t = trim_chars(&head);
    proof {
        assert(head@ == rest@.take(j as int));
    }
    Some(crate::strutil::string_from_chars(&t))
}

/// Whether a text is a bare scene separator: after trimming, one or more
/// lozenges and nothing else.
pub open spec fn spec_is_lozenge_line(s: Seq<char>) -> bool {
    let t = spec_trim(s);
    t.len() > 0 && forall|i: int| 0 <= i < t.len() ==> #[trigger] t[i] == '\u{25c7}'
}

/// Whether a text is a bare scene separator.
pub fn is_lozenge_line(s: &str) -> (r: bool)
    ensures
        r == spec_is_lozenge_line(s@),
{
    let v = crate::strutil::chars_of(s);
    let t = trim_chars(&v);
    if t.len() == 0 {
        return false;
    }
    let mut i: usize = 0;
    while i < t.len()
        invariant
            t@ == spec_trim(s@),
            i <= t@.len(),
            forall|j: int| 0 <= j < i ==> #[trigger] t@[j] == '\u{25c7}',
        decreases t@.len() - i,
    {
        if t[i] != '\u{25c7}' {
            return false;
        }
        i = i + 1;
    }
    true
}


/// What a conversion pass knows about one candidate paragraph before
/// deciding whether to strip it as part of a leading note.
#[derive(Clone, Copy, PartialEq, Eq, Structural, Debug)]
pub struct ParaFlags {
    /// The paragraph is excluded from the chapter anyway.
    pub excluded: bool,
    /// The paragraph is a horizontal separator.
    pub hr: bool,
}

/// Where the chapter's body starts when a leading note is stripped: the
/// position after the separator that closes the note. A separator found
/// only after more than ten paragraphs, or a note running past twenty-five
/// paragraphs, is distrusted and nothing is stripped.
pub open spec fn spec_strip_from(items: Seq<ParaFlags>, i: int, removed: int) -> int
    decreases items.len() - i when 0 <= i <= items.len()
{
    if i >= items.len() {
        i
    } else if items[i].excluded {
        spec_strip_from(items, i + 1, removed + 1)
    } else if items[i].hr {
        if removed + 1 > 10 {
            0
        } else {
            i + 1
        }
    } else if removed + 1 > 25 {
        0
    } else {
        spec_strip_from(items, i + 1, removed + 1)
    }
}

/// Where the chapter's body starts when the first paragraph announces a
/// leading note: everything up to and including the first separator is
/// skipped, unless the note runs suspiciously long, in which case nothing
/// is skipped.
pub fn strip_leading_note(items: &Vec<ParaFlags>) -> (r: usize)
    ensures
        r as int == spec_strip_from(items@, 0, 0),
        r <= items@.len(),
{
    let ghost target = spec_strip_from(items@, 0, 0);
    proof {
        lemma_strip_bounds(items@, 0, 0);
    }
    let mut i: usize = 0;
    let mut removed: usize = 0;
    while i < items.len()
        invariant
            i <= items@.len(),
            removed <= i,
            target == spec_strip_from(items@, 0, 0),
            spec_strip_from(items@, i as int, removed as int) == target,
            target <= items@.len(),
        decreases items@.len() - i,
    {
        let flags = items[i];
        if flags.excluded {
            removed = removed + 1;
            i = i + 1;
        } else if flags.hr {
            if removed + 1 > 10 {
                return 0;
            }
            return i + 1;
        } else {
            if removed + 1 > 25 {
                return 0;
            }
            removed = removed + 1;
            i = i + 1;
        }
    }
    i
}

/// The strip decision never points past the end of the paragraph list.
proof fn lemma_strip_bounds(items: Seq<ParaFlags>, i: int, removed: int)
    requires
        0 <= i <= items.len(),
    ensures
        0 <= spec_strip_from(items, i, removed) <= items.len(),
    decreases items.len() - i,
{
    if i < items.len() {
        lemma_strip_bounds(items, i + 1, removed + 1);
    }
}

/// Site-specific conversion switches.
#[derive(Clone, Copy, PartialEq, Eq, Structural, Debug)]
pub struct IlConfig {
    /// Whether a leading translator's note is stripped.
    pub strip_fwd_tln: bool,
}

impl Default for IlConfig {
    /// Leading notes are stripped by default.
    fn default() -> (r: Self)
        ensures
            r.strip_fwd_tln,
    {
        IlConfig { strip_fwd_tln: true }
    }
}

/// Site-specific conversion switches.
#[derive(Clone, Copy, PartialEq, Eq, Structural, Debug)]
pub struct ShikkaConfig {}

impl Default for ShikkaConfig {
    fn default() -> (r: Self)
        ensures
            r == (ShikkaConfig {  }),
    {
        ShikkaConfig {  }
    }
}

} // verus!
