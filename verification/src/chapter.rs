//! Chapters: built from text, styling and images, and rendered to document
//! markup or Markdown.

use vstd::prelude::*;

use crate::escape::{push_escaped, push_str_chars, spec_escape, EscapeKind};
use crate::image::{spec_image_md, spec_image_xml, Image, ImageId, ResolvedImage};
use crate::overrides::opt_str_view;
use crate::strutil::string_from_chars;
use crate::style::{spec_close, spec_open, ParagraphMode, ParagraphStyle, SpanStyle, SpanStyleEl};

verus! {

/// A piece of inline chapter content.
#[derive(Debug)]
pub enum InlineElement {
    /// Turns the given styles on.
    EnableStyles(SpanStyle),
    /// Turns the given styles off.
    DisableStyles(SpanStyle),
    /// Plain text.
    Text(String),
    /// A forced line break.
    LineFeed,
}

/// Capped addition on sizes.
pub open spec fn sat_add(a: int, b: int) -> int {
    if a + b > usize::MAX {
        usize::MAX as int
    } else {
        a + b
    }
}

/// Capped addition on sizes.
pub fn sat_add_usize(a: usize, b: usize) -> (r: usize)
    ensures
        r == sat_add(a as int, b as int),
{
    if a > usize::MAX - b {
        usize::MAX
    } else {
        a + b
    }
}

impl InlineElement {
    /// The approximate rendered size of this element in bytes; text counts
    /// its UTF-8 encoded length.
    pub open spec fn spec_size(&self) -> int {
        match self {
            InlineElement::EnableStyles(_) => 8,
            InlineElement::DisableStyles(_) => 8,
            InlineElement::Text(t) => crate::strutil::spec_byte_len(t@),
            InlineElement::LineFeed => 6,
        }
    }

    /// The approximate rendered size of this element in bytes.
    pub fn size(&self) -> (r: usize)
        ensures
            r == self.spec_size(),
    {
        match self {
            InlineElement::EnableStyles(_) => 8,
            InlineElement::DisableStyles(_) => 8,
            InlineElement::Text(t) => crate::strutil::str_byte_len(t.as_str()),
            InlineElement::LineFeed => 6,
        }
    }

    /// A style transition must carry at least one style.
    pub open spec fn wf(&self) -> bool {
        match self {
            InlineElement::EnableStyles(s) => *s != SpanStyle::spec_none(),
            InlineElement::DisableStyles(s) => *s != SpanStyle::spec_none(),
            _ => true,
        }
    }
}

/// A block-level piece of chapter content.
#[derive(Debug)]
pub enum MajorElement {
    /// A paragraph of inline content.
    Paragraph { style: ParagraphStyle, elms: Vec<InlineElement> },
    /// An image, referenced by id and resolved against the chapter's
    /// resources.
    Image(ImageId),
    /// A scene separator with an optional heading.
    SceneSep(String),
    /// A horizontal rule.
    HorizLine,
}

/// The opening tags of the styles in a set, in order.
pub open spec fn spec_opens(els: Seq<SpanStyleEl>) -> Seq<char>
    decreases els.len(),
{
    if els.len() == 0 {
        Seq::empty()
    } else {
        spec_open(els[0]) + spec_opens(els.drop_first())
    }
}

/// The closing tags of the styles in a set, in reverse order.
pub open spec fn spec_closes_rev(els: Seq<SpanStyleEl>) -> Seq<char>
    decreases els.len(),
{
    if els.len() == 0 {
        Seq::empty()
    } else {
        spec_close(els.last()) + spec_closes_rev(els.drop_last())
    }
}

/// The Markdown marker of a style transition: emphasis by bold and italic.
pub open spec fn spec_md_marker(s: SpanStyle) -> Seq<char> {
    if s.bold && s.italic {
        "***"@
    } else if s.bold {
        "**"@
    } else if s.italic {
        "*"@
    } else {
        ""@
    }
}

/// What an inline element renders as in document markup.
pub open spec fn spec_inline_xml(el: InlineElement) -> Seq<char> {
    match el {
        InlineElement::EnableStyles(s) => spec_opens(s.spec_els()),
        InlineElement::DisableStyles(s) => spec_closes_rev(s.spec_els()),
        InlineElement::Text(t) => spec_escape(EscapeKind::Body, t@),
        InlineElement::LineFeed => "<br />\n"@,
    }
}

/// What an inline element renders as in Markdown.
pub open spec fn spec_inline_md(el: InlineElement) -> Seq<char> {
    match el {
        InlineElement::EnableStyles(s) => spec_md_marker(s),
        InlineElement::DisableStyles(s) => spec_md_marker(s),
        InlineElement::Text(t) => spec_escape(EscapeKind::Md, t@),
        InlineElement::LineFeed => " "@,
    }
}

/// What a run of inline elements renders as in document markup.
pub open spec fn spec_inlines_xml(elms: Seq<InlineElement>) -> Seq<char>
    decreases elms.len(),
{
    if elms.len() == 0 {
        Seq::empty()
    } else {
        spec_inline_xml(elms[0]) + spec_inlines_xml(elms.drop_first())
    }
}

/// What a run of inline elements renders as in Markdown.
pub open spec fn spec_inlines_md(elms: Seq<InlineElement>) -> Seq<char>
    decreases elms.len(),
{
    if elms.len() == 0 {
        Seq::empty()
    } else {
        spec_inline_md(elms[0]) + spec_inlines_md(elms.drop_first())
    }
}

/// The view of a chapter's resources: what an image id resolves to — the
/// first resource carrying it.
pub open spec fn spec_find_rsc(rsc: Seq<ResolvedImage>, id: ImageId) -> Option<ResolvedImage>
    decreases rsc.len(),
{
    if rsc.len() == 0 {
        None
    } else if rsc[0].id == id {
        Some(rsc[0])
    } else {
        spec_find_rsc(rsc.drop_first(), id)
    }
}

/// What a block element renders as in document markup, resolving images
/// against the given resources.
pub open spec fn spec_major_xml(el: MajorElement, rsc: Seq<ResolvedImage>) -> Seq<char> {
    match el {
        MajorElement::Paragraph { style, elms } => {
            let tag = if style.mode is BlockQuote {
                "blockquote"@
            } else {
                "p"@
            };
            "<"@ + tag + ">"@ + spec_inlines_xml(elms@) + "</"@ + tag + ">"@
        },
        MajorElement::Image(id) => {
            match spec_find_rsc(rsc, id) {
                Some(img) => spec_image_xml(img.id.id, img.media_type, opt_str_view(img.alt)),
                None => Seq::empty(),
            }
        },
        MajorElement::SceneSep(s) => {
            "<h3 class=\"scene-sep\">\u{25c7} "@ + spec_escape(EscapeKind::Body, s@)
                + " \u{25c7}</h3>"@
        },
        MajorElement::HorizLine => "<hr />"@,
    }
}

/// What a block element renders as in Markdown.
pub open spec fn spec_major_md(el: MajorElement, rsc: Seq<ResolvedImage>) -> Seq<char> {
    match el {
        MajorElement::Paragraph { style, elms } => {
            let prefix = if style.mode is BlockQuote {
                "> "@
            } else {
                ""@
            };
            prefix + spec_inlines_md(elms@)
        },
        MajorElement::Image(id) => {
            match spec_find_rsc(rsc, id) {
                Some(img) => spec_image_md(img.id.id, img.media_type, opt_str_view(img.alt)),
                None => Seq::empty(),
            }
        },
        MajorElement::SceneSep(s) => {
            if s@.len() == 0 {
                "### \u{25c7}\u{25c7}\n"@
            } else {
                "### \u{25c7} "@ + spec_escape(EscapeKind::Md, s@) + " \u{25c7}\n"@
            }
        },
        MajorElement::HorizLine => "---"@,
    }
}

/// What a run of block elements renders as, joined by a separator.
pub open spec fn spec_majors(
    els: Seq<MajorElement>,
    rsc: Seq<ResolvedImage>,
    sep: Seq<char>,
    md: bool,
) -> Seq<char>
    decreases els.len(),
{
    if els.len() == 0 {
        Seq::empty()
    } else {
        let head = if md {
            spec_major_md(els[0], rsc)
        } else {
            spec_major_xml(els[0], rsc)
        };
        if els.len() == 1 {
            head
        } else {
            head + sep + spec_majors(els.drop_first(), rsc, sep, md)
        }
    }
}

/// Whether every style transition in a run carries a style.
pub open spec fn inlines_wf(elms: Seq<InlineElement>) -> bool {
    forall|i: int| 0 <= i < elms.len() ==> (#[trigger] elms[i]).wf()
}

/// Whether every paragraph of a run of block elements is well-formed.
pub open spec fn majors_wf(els: Seq<MajorElement>) -> bool {
    forall|i: int|
        0 <= i < els.len() ==> match #[trigger] els[i] {
            MajorElement::Paragraph { elms, .. } => inlines_wf(elms@),
            _ => true,
        }
}

/// Appends the opening tags of a style set.
fn push_opens(s: SpanStyle, out: &mut Vec<char>)
    ensures
        final(out)@ == old(out)@ + spec_opens(s.spec_els()),
{
    let els = s.el_iter();
    let ghost ev = s.spec_els();
    proof {
        assert(ev.skip(0) =~= ev);
    }
    let mut i: usize = 0;
    while i < els.len()
        invariant
            els@ == ev,
            i <= ev.len(),
            out@ + spec_opens(ev.skip(i as int)) == old(out)@ + spec_opens(ev),
        decreases ev.len() - i,
    {
        proof {
            assert(ev.skip(i as int)[0] == ev[i as int]);
            assert(ev.skip(i as int).drop_first() =~= ev.skip(i as int + 1));
        }
        push_str_chars(els[i].open(), out);
        i = i + 1;
    }
    proof {
        assert(ev.skip(ev.len() as int) =~= Seq::<SpanStyleEl>::empty());
        assert(out@ =~= old(out)@ + spec_opens(ev));
    }
}

/// Appends the closing tags of a style set, innermost first.
fn push_closes(s: SpanStyle, out: &mut Vec<char>)
    ensures
        final(out)@ == old(out)@ + spec_closes_rev(s.spec_els()),
{
    let els = s.el_iter();
    let ghost ev = s.spec_els();
    proof {
        assert(ev.take(ev.len() as int) =~= ev);
    }
    let mut i: usize = els.len();
    while i > 0
        invariant
            els@ == ev,
            i <= ev.len(),
            out@ + spec_closes_rev(ev.take(i as int)) == old(out)@ + spec_closes_rev(ev),
        decreases i,
    {
        i = i - 1;
        proof {
            assert(ev.take(i as int + 1).last() == ev[i as int]);
            assert(ev.take(i as int + 1).drop_last() =~= ev.take(i as int));
        }
        push_str_chars(els[i].close(), out);
    }
    proof {
        assert(ev.take(0) =~= Seq::<SpanStyleEl>::empty());
        assert(out@ =~= old(out)@ + spec_closes_rev(ev));
    }
}

/// Appends what one inline element renders as.
fn push_inline(el: &InlineElement, md: bool, out: &mut Vec<char>)
    ensures
        final(out)@ == old(out)@ + if md {
            spec_inline_md(*el)
        } else {
            spec_inline_xml(*el)
        },
{
    match el {
        InlineElement::EnableStyles(s) => {
            if md {
                push_md_marker(*s, out);
            } else {
                push_opens(*s, out);
            }
        },
        InlineElement::DisableStyles(s) => {
            if md {
                push_md_marker(*s, out);
            } else {
                push_closes(*s, out);
            }
        },
        InlineElement::Text(t) => {
            if md {
                push_escaped(EscapeKind::Md, t.as_str(), out);
            } else {
                push_escaped(EscapeKind::Body, t.as_str(), out);
            }
        },
        InlineElement::LineFeed => {
            if md {
                push_str_chars(" ", out);
            } else {
                push_str_chars("<br />\n", out);
            }
        },
    }
}

/// Appends the Markdown marker of a style transition.
fn push_md_marker(s: SpanStyle, out: &mut Vec<char>)
    ensures
        final(out)@ == old(out)@ + spec_md_marker(s),
{
    if s.bold && s.italic {
        push_str_chars("***", out);
    } else if s.bold {
        push_str_chars("**", out);
    } else if s.italic {
        push_str_chars("*", out);
    } else {
        push_str_chars("", out);
    }
}

/// Appends what a run of inline elements renders as.
fn push_inlines(elms: &Vec<InlineElement>, md: bool, out: &mut Vec<char>)
    ensures
        final(out)@ == old(out)@ + if md {
            spec_inlines_md(elms@)
        } else {
            spec_inlines_xml(elms@)
        },
{
    proof {
        assert(elms@.skip(0) =~= elms@);
    }
    let mut i: usize = 0;
    while i < elms.len()
        invariant
            i <= elms@.len(),
            md ==> out@ + spec_inlines_md(elms@.skip(i as int)) == old(out)@ + spec_inlines_md(
                elms@,
            ),
            !md ==> out@ + spec_inlines_xml(elms@.skip(i as int)) == old(out)@ + spec_inlines_xml(
                elms@,
            ),
        decreases elms@.len() - i,
    {
        proof {
            assert(elms@.skip(i as int)[0] == elms@[i as int]);
            assert(elms@.skip(i as int).drop_first() =~= elms@.skip(i as int + 1));
        }
        push_inline(&elms[i], md, out);
        i = i + 1;
    }
    proof {
        assert(elms@.skip(elms@.len() as int) =~= Seq::<InlineElement>::empty());
        if md {
            assert(out@ =~= old(out)@ + spec_inlines_md(elms@));
        } else {
            assert(out@ =~= old(out)@ + spec_inlines_xml(elms@));
        }
    }
}

/// The resolved image with the given id, if the chapter carries one.
fn find_rsc<'a>(rsc: &'a Vec<ResolvedImage>, id: &ImageId) -> (r: Option<&'a ResolvedImage>)
    ensures
        match spec_find_rsc(rsc@, *id) {
            Some(img) => r matches Some(got) && *got == img,
            None => r is None,
        },
{
    proof {
        assert(rsc@.skip(0) =~= rsc@);
    }
    let mut i: usize = 0;
    while i < rsc.len()
        invariant
            i <= rsc@.len(),
            spec_find_rsc(rsc@.skip(i as int), *id) == spec_find_rsc(rsc@, *id),
        decreases rsc@.len() - i,
    {
        proof {
            assert(rsc@.skip(i as int)[0] == rsc@[i as int]);
            assert(rsc@.skip(i as int).drop_first() =~= rsc@.skip(i as int + 1));
        }
        if rsc[i].id.id == id.id {
            proof {
                assert(rsc@[i as int].id == *id);
            }
            return Some(&rsc[i]);
        }
        i = i + 1;
    }
    proof {
        assert(rsc@.skip(rsc@.len() as int) =~= Seq::<ResolvedImage>::empty());
    }
    None
}

/// Appends what one block element renders as.
fn push_major(el: &MajorElement, rsc: &Vec<ResolvedImage>, md: bool, out: &mut Vec<char>)
    ensures
        final(out)@ == old(out)@ + if md {
            spec_major_md(*el, rsc@)
        } else {
            spec_major_xml(*el, rsc@)
        },
{
    match el {
        MajorElement::Paragraph { style, elms } => {
            if md {
                let prefix = if style.mode == ParagraphMode::BlockQuote {
                    "> "
                } else {
                    ""
                };
                push_str_chars(prefix, out);
                push_inlines(elms, true, out);
            } else {
                let tag = if style.mode == ParagraphMode::BlockQuote {
                    "blockquote"
                } else {
                    "p"
                };
                push_str_chars("<", out);
                push_str_chars(tag, out);
                push_str_chars(">", out);
                push_inlines(elms, false, out);
                push_str_chars("</", out);
                push_str_chars(tag, out);
                push_str_chars(">", out);
            }
            proof {
                if md {
                    assert(out@ =~= old(out)@ + spec_major_md(*el, rsc@));
                } else {
                    assert(out@ =~= old(out)@ + spec_major_xml(*el, rsc@));
                }
            }
        },
        MajorElement::Image(id) => {
            match find_rsc(rsc, id) {
                Some(img) => {
                    let rendered = if md {
                        img.render_md()
                    } else {
                        img.render_xml()
                    };
                    push_str_chars(rendered.as_str(), out);
                },
                None => {},
            }
        },
        MajorElement::SceneSep(s) => {
            if md {
                if s.as_str().is_empty() {
                    push_str_chars("### \u{25c7}\u{25c7}\n", out);
                    proof {
                        assert(s@.len() == 0);
                        assert(out@ =~= old(out)@ + spec_major_md(*el, rsc@));
                    }
                } else {
                    push_str_chars("### \u{25c7} ", out);
                    push_escaped(EscapeKind::Md, s.as_str(), out);
                    push_str_chars(" \u{25c7}\n", out);
                    proof {
                        assert(out@ =~= old(out)@ + spec_major_md(*el, rsc@));
                    }
                }
            } else {
                push_str_chars("<h3 class=\"scene-sep\">\u{25c7} ", out);
                push_escaped(EscapeKind::Body, s.as_str(), out);
                push_str_chars(" \u{25c7}</h3>", out);
            }
            proof {
                if md {
                    assert(out@ =~= old(out)@ + spec_major_md(*el, rsc@));
                } else {
                    assert(out@ =~= old(out)@ + spec_major_xml(*el, rsc@));
                }
            }
        },
        MajorElement::HorizLine => {
            if md {
                push_str_chars("---", out);
            } else {
                push_str_chars("<hr />", out);
            }
        },
    }
}

/// Appends what a run of block elements renders as, joined by a separator.
fn push_majors(
    els: &Vec<MajorElement>,
    rsc: &Vec<ResolvedImage>,
    sep: &str,
    md: bool,
    out: &mut Vec<char>,
)
    ensures
        final(out)@ == old(out)@ + spec_majors(els@, rsc@, sep@, md),
{
    proof {
        assert(els@.skip(0) =~= els@);
    }
    let mut i: usize = 0;
    while i < els.len()
        invariant
            i <= els@.len(),
            out@ + spec_majors(els@.skip(i as int), rsc@, sep@, md) == old(out)@ + spec_majors(
                els@,
                rsc@,
                sep@,
                md,
            ),
        decreases els@.len() - i,
    {
        proof {
            assert(els@.skip(i as int)[0] == els@[i as int]);
            assert(els@.skip(i as int).drop_first() =~= els@.skip(i as int + 1));
        }
        push_major(&els[i], rsc, md, out);
        if i + 1 < els.len() {
            push_str_chars(sep, out);
        }
        i = i + 1;
    }
    proof {
        assert(els@.skip(els@.len() as int) =~= Seq::<MajorElement>::empty());
        assert(out@ =~= old(out)@ + spec_majors(els@, rsc@, sep@, md));
    }
}

/// A finished chapter.
#[derive(Debug)]
pub struct Chapter {
    pub id: u32,
    pub title: String,
    pub rsc: Vec<ResolvedImage>,
    pub p: Vec<MajorElement>,
}

/// The decimal digit for a value below ten.
pub open spec fn spec_dec_digit(d: int) -> char {
    if d == 0 {
        '0'
    } else if d == 1 {
        '1'
    } else if d == 2 {
        '2'
    } else if d == 3 {
        '3'
    } else if d == 4 {
        '4'
    } else if d == 5 {
        '5'
    } else if d == 6 {
        '6'
    } else if d == 7 {
        '7'
    } else if d == 8 {
        '8'
    } else {
        '9'
    }
}

/// The decimal writing of a non-negative value.
pub open spec fn spec_dec(v: int) -> Seq<char>
    decreases v,
{
    if v < 0 {
        Seq::empty()
    } else if v < 10 {
        seq![spec_dec_digit(v)]
    } else {
        spec_dec(v / 10).push(spec_dec_digit(v % 10))
    }
}

/// The decimal writing of a value.
pub fn dec_chars(v: u32) -> (r: Vec<char>)
    ensures
        r@ == spec_dec(v as int),
    decreases v,
{
    if v < 10 {
        let d = if v == 0 {
            '0'
        } else if v == 1 {
            '1'
        } else if v == 2 {
            '2'
        } else if v == 3 {
            '3'
        } else if v == 4 {
            '4'
        } else if v == 5 {
            '5'
        } else if v == 6 {
            '6'
        } else if v == 7 {
            '7'
        } else if v == 8 {
            '8'
        } else {
            '9'
        };
        let mut r: Vec<char> = Vec::new();
        r.push(d);
        proof {
            assert(r@ =~= seq![spec_dec_digit(v as int)]);
        }
        r
    } else {
        let mut r = dec_chars(v / 10);
        let d = v % 10;
        let c = if d == 0 {
            '0'
        } else if d == 1 {
            '1'
        } else if d == 2 {
            '2'
        } else if d == 3 {
            '3'
        } else if d == 4 {
            '4'
        } else if d == 5 {
            '5'
        } else if d == 6 {
            '6'
        } else if d == 7 {
            '7'
        } else if d == 8 {
            '8'
        } else {
            '9'
        };
        r.push(c);
        r
    }
}

/// The capped total size of a run of inline elements, from an initial
/// count.
pub open spec fn spec_elms_size(elms: Seq<InlineElement>, i: int, acc: int) -> int
    decreases elms.len() - i when 0 <= i <= elms.len()
{
    if i >= elms.len() {
        acc
    } else {
        spec_elms_size(elms, i + 1, sat_add(acc, elms[i].spec_size()))
    }
}

/// The capped total size of a chapter's paragraphs, from an initial count:
/// each paragraph adds its elements and a fixed overhead.
pub open spec fn spec_chapter_size(p: Seq<MajorElement>, i: int, acc: int) -> int
    decreases p.len() - i when 0 <= i <= p.len()
{
    if i >= p.len() {
        acc
    } else {
        match p[i] {
            MajorElement::Paragraph { elms, .. } => spec_chapter_size(
                p,
                i + 1,
                sat_add(acc, spec_elms_size(elms@, 0, 8)),
            ),
            _ => spec_chapter_size(p, i + 1, acc),
        }
    }
}

/// What a chapter's anchor id renders as.
pub open spec fn spec_chapter_id(id: u32) -> Seq<char> {
    "chapter-"@ + spec_dec(id as int)
}

/// What a chapter renders as in document markup.
pub open spec fn spec_chapter_xml(c: Chapter) -> Seq<char> {
    "<h2>"@ + spec_escape(EscapeKind::Body, c.title@) + "</h2>\n"@ + spec_majors(
        c.p@,
        c.rsc@,
        "\n"@,
        false,
    )
}

/// What a chapter renders as in Markdown.
pub open spec fn spec_chapter_md(c: Chapter) -> Seq<char> {
    "# "@ + spec_escape(EscapeKind::Md, c.title@) + "\n\n"@ + spec_majors(
        c.p@,
        c.rsc@,
        "\n\n"@,
        true,
    )
}

impl Chapter {
    /// Whether every element of the chapter can be rendered.
    pub open spec fn wf(&self) -> bool {
        majors_wf(self.p@)
    }

    /// The chapter's title.
    pub fn title(&self) -> (r: &str)
        ensures
            r@ == self.title@,
    {
        self.title.as_str()
    }

    /// The chapter's anchor id: `chapter-` and its number.
    pub fn id(&self) -> (r: String)
        ensures
            r@ == spec_chapter_id(self.id),
    {
        let mut out: Vec<char> = Vec::new();
        push_str_chars("chapter-", &mut out);
        let mut d = dec_chars(self.id);
        let mut i: usize = 0;
        while i < d.len()
            invariant
                i <= d@.len(),
                d@ == spec_dec(self.id as int),
                out@ == "chapter-"@ + d@.subrange(0, i as int),
            decreases d@.len() - i,
        {
            out.push(d[i]);
            i = i + 1;
            proof {
                assert(out@ =~= "chapter-"@ + d@.subrange(0, i as int));
            }
        }
        proof {
            assert(out@ =~= spec_chapter_id(self.id));
        }
        string_from_chars(&out)
    }

    /// The approximate size of the chapter's paragraphs, in bytes plus
    /// fixed overheads, with capped arithmetic.
    pub fn size(&self) -> (r: usize)
        ensures
            r as int == spec_chapter_size(self.p@, 0, 64),
    {
        let ghost target = spec_chapter_size(self.p@, 0, 64);
        let mut total: usize = 64;
        let mut i: usize = 0;
        while i < self.p.len()
            invariant
                i <= self.p@.len(),
                target == spec_chapter_size(self.p@, 0, 64),
                spec_chapter_size(self.p@, i as int, total as int) == target,
            decreases self.p@.len() - i,
        {
            if let MajorElement::Paragraph { elms, .. } = &self.p[i] {
                let ghost subtarget = spec_elms_size(elms@, 0, 8);
                let mut sub: usize = 8;
                let mut j: usize = 0;
                while j < elms.len()
                    invariant
                        j <= elms@.len(),
                        subtarget == spec_elms_size(elms@, 0, 8),
                        spec_elms_size(elms@, j as int, sub as int) == subtarget,
                    decreases elms@.len() - j,
                {
                    sub = sat_add_usize(sub, elms[j].size());
                    j = j + 1;
                }
                total = sat_add_usize(total, sub);
            }
            i = i + 1;
        }
        total
    }

    /// What the chapter renders as in document markup: its title in an
    /// `h2`, then its block elements joined by newlines.
    pub fn render_xml(&self) -> (r: String)
        ensures
            r@ == spec_chapter_xml(*self),
    {
        let mut out: Vec<char> = Vec::new();
        push_str_chars("<h2>", &mut out);
        push_escaped(EscapeKind::Body, self.title.as_str(), &mut out);
        push_str_chars("</h2>\n", &mut out);
        push_majors(&self.p, &self.rsc, "\n", false, &mut out);
        proof {
            assert(out@ =~= "<h2>"@ + spec_escape(EscapeKind::Body, self.title@) + "</h2>\n"@
                + spec_majors(self.p@, self.rsc@, "\n"@, false));
        }
        string_from_chars(&out)
    }

    /// What the chapter renders as in Markdown: its title as a heading,
    /// then its block elements joined by blank lines.
    pub fn render_md(&self) -> (r: String)
        ensures
            r@ == spec_chapter_md(*self),
    {
        let mut out: Vec<char> = Vec::new();
        push_str_chars("# ", &mut out);
        push_escaped(EscapeKind::Md, self.title.as_str(), &mut out);
        push_str_chars("\n\n", &mut out);
        push_majors(&self.p, &self.rsc, "\n\n", true, &mut out);
        proof {
            assert(out@ =~= "# "@ + spec_escape(EscapeKind::Md, self.title@) + "\n\n"@
                + spec_majors(self.p@, self.rsc@, "\n\n"@, true));
        }
        string_from_chars(&out)
    }
}

/// Why a chapter could not be finished.
#[derive(Debug)]
pub struct ChapterBuilderError {
    pub empty: bool,
    pub missing_title: bool,
    pub unresolved_resources: bool,
}

impl ChapterBuilderError {
    /// Whether any error condition holds.
    pub fn any(&self) -> (r: bool)
        ensures
            r == (self.missing_title || self.empty || self.unresolved_resources),
    {
        self.missing_title || self.empty || self.unresolved_resources
    }

    /// A human-readable description of the error.
    pub fn message(&self) -> String {
        let mut out: Vec<char> = Vec::new();
        if !(self.missing_title || self.empty || self.unresolved_resources) {
            push_str_chars("Unknown chapter error (this is a bug)\n", &mut out);
            return string_from_chars(&out);
        }
        push_str_chars("Chapter invalid:\n", &mut out);
        if self.empty {
            push_str_chars("\tNo content\n", &mut out);
        }
        if self.missing_title {
            push_str_chars("\tMissing title\n", &mut out);
        }
        if self.unresolved_resources {
            push_str_chars("\tUnresolved resources\n", &mut out);
        }
        string_from_chars(&out)
    }
}

/// Builds one chapter from a stream of text, styling and images.
pub struct ChapterBuilder {
    pub id: u32,
    pub title: Option<String>,
    pub paragraph_style: ParagraphStyle,
    pub span_style: SpanStyle,
    pub span_style_actual: SpanStyle,
    pub preserve_line_feeds: bool,
    pub resources_unresolved: Vec<Image>,
    pub resources_resolved: Vec<ResolvedImage>,
    pub current_p: Vec<InlineElement>,
    pub complete_p: Vec<MajorElement>,
}

impl ChapterBuilder {
    /// Whether everything built so far can be rendered.
    pub open spec fn wf(&self) -> bool {
        &&& inlines_wf(self.current_p@)
        &&& majors_wf(self.complete_p@)
    }

    /// An empty builder.
    pub fn new() -> (r: Self)
        ensures
            r.wf(),
            r.title is None,
            r.current_p@.len() == 0,
            r.complete_p@.len() == 0,
            r.resources_unresolved@.len() == 0,
            r.resources_resolved@.len() == 0,
            r.span_style == SpanStyle::spec_none(),
            r.span_style_actual == SpanStyle::spec_none(),
    {
        ChapterBuilder {
            id: 0,
            title: None,
            paragraph_style: ParagraphStyle::default(),
            span_style: SpanStyle::none(),
            span_style_actual: SpanStyle::none(),
            preserve_line_feeds: false,
            resources_unresolved: Vec::new(),
            resources_resolved: Vec::new(),
            current_p: Vec::new(),
            complete_p: Vec::new(),
        }
    }

    /// Sets the chapter title.
    pub fn title_set(&mut self, s: String)
        ensures
            *final(self) == (ChapterBuilder { title: Some(s), ..*old(self) }),
    {
        self.title = Some(s);
    }

    /// Sets whether line feeds in text are preserved.
    pub fn preserve_line_feeds(&mut self, enable: bool)
        ensures
            *final(self) == (ChapterBuilder { preserve_line_feeds: enable, ..*old(self) }),
    {
        self.preserve_line_feeds = enable;
    }

    /// Emits the style transitions that bring the actual style to the
    /// requested one: first the removals, then the additions.
    fn span_style_actualize(&mut self)
        requires
            old(self).wf(),
        ensures
            final(self).wf(),
            final(self).span_style_actual == old(self).span_style,
            final(self).span_style == old(self).span_style,
            final(self).complete_p == old(self).complete_p,
            final(self).title == old(self).title,
            final(self).id == old(self).id,
            final(self).preserve_line_feeds == old(self).preserve_line_feeds,
            final(self).resources_unresolved == old(self).resources_unresolved,
            final(self).resources_resolved == old(self).resources_resolved,
            final(self).paragraph_style == old(self).paragraph_style,
            final(self).current_p@.len() >= old(self).current_p@.len(),
            old(self).span_style_actual == old(self).span_style ==> final(self).current_p
                == old(self).current_p,
    {
        let current = self.span_style_actual;
        let new = self.span_style;
        let removals = current.removals_needed(new);
        if !removals.is_none() {
            self.current_p.push(InlineElement::DisableStyles(removals));
        }
        let additions = current.additional_needed(new);
        if !additions.is_none() {
            self.current_p.push(InlineElement::EnableStyles(additions));
        }
        self.span_style_actual = new;
        proof {
            assert forall|i: int| 0 <= i < self.current_p@.len() implies (
            #[trigger] self.current_p@[i]).wf() by {
                if i < old(self).current_p@.len() {
                    assert(self.current_p@[i] == old(self).current_p@[i]);
                }
            }
        }
    }

    /// Sets the requested span style.
    pub fn span_style_set(&mut self, style: SpanStyle)
        ensures
            *final(self) == (ChapterBuilder { span_style: style, ..*old(self) }),
    {
        self.span_style = style;
    }

    /// Resets the requested span style to none.
    pub fn span_style_reset(&mut self)
        ensures
            *final(self) == (ChapterBuilder { span_style: SpanStyle::spec_none(), ..*old(self) }),
    {
        self.span_style = SpanStyle::none();
    }

    /// Sets the paragraph style of the paragraph being built.
    pub fn paragraph_style_set(&mut self, style: ParagraphStyle)
        ensures
            *final(self) == (ChapterBuilder { paragraph_style: style, ..*old(self) }),
    {
        self.paragraph_style = style;
    }

    /// Completes the paragraph being built, implicitly resetting the style;
    /// a no-op when no spans have been added.
    pub fn paragraph_finish(&mut self)
        requires
            old(self).wf(),
        ensures
            final(self).wf(),
            final(self).current_p@.len() == 0 || final(self).current_p == old(self).current_p,
            final(self).title == old(self).title,
            final(self).id == old(self).id,
            final(self).preserve_line_feeds == old(self).preserve_line_feeds,
            final(self).resources_unresolved == old(self).resources_unresolved,
            final(self).resources_resolved == old(self).resources_resolved,
            final(self).complete_p@.len() >= old(self).complete_p@.len(),
            final(self).span_style == SpanStyle::spec_none(),
            final(self).current_p@.len() == 0,
    {
        self.span_style_reset();
        self.span_style_actualize();
        if self.current_p.len() == 0 {
            return ;
        }
        let mut spans: Vec<InlineElement> = Vec::new();
        core::mem::swap(&mut spans, &mut self.current_p);
        let style = self.paragraph_style;
        self.paragraph_style = ParagraphStyle::default();
        self.complete_p.push(MajorElement::Paragraph { elms: spans, style });
        proof {
            assert forall|i: int| 0 <= i < self.complete_p@.len() implies (match #[trigger] self
                .complete_p@[i] {
                MajorElement::Paragraph { elms, .. } => inlines_wf(elms@),
                _ => true,
            }) by {
                if i < old(self).complete_p@.len() {
                    assert(self.complete_p@[i] == old(self).complete_p@[i]);
                }
            }
        }
    }

    /// Adds a horizontal separator, implicitly completing the paragraph.
    pub fn add_separator(&mut self)
        requires
            old(self).wf(),
        ensures
            final(self).wf(),
            final(self).complete_p@.len() >= old(self).complete_p@.len() + 1,
            final(self).complete_p@.last() == MajorElement::HorizLine,
            final(self).title == old(self).title,
    {
        self.paragraph_finish();
        self.complete_p.push(MajorElement::HorizLine);
        proof {
            assert forall|i: int| 0 <= i < self.complete_p@.len() implies (match #[trigger] self
                .complete_p@[i] {
                MajorElement::Paragraph { elms, .. } => inlines_wf(elms@),
                _ => true,
            }) by {
                if i < self.complete_p@.len() - 1 {
                }
            }
        }
    }

    /// Adds a scene separator with an optional heading, implicitly
    /// completing the paragraph.
    pub fn add_scene_sep(&mut self, scene: String)
        requires
            old(self).wf(),
        ensures
            final(self).wf(),
            final(self).complete_p@.len() >= old(self).complete_p@.len() + 1,
            final(self).complete_p@.last() == MajorElement::SceneSep(scene),
            final(self).title == old(self).title,
    {
        self.paragraph_finish();
        self.complete_p.push(MajorElement::SceneSep(scene));
        proof {
            assert forall|i: int| 0 <= i < self.complete_p@.len() implies (match #[trigger] self
                .complete_p@[i] {
                MajorElement::Paragraph { elms, .. } => inlines_wf(elms@),
                _ => true,
            }) by {
                if i < self.complete_p@.len() - 1 {
                }
            }
        }
    }

    /// Adds an image in page flow, implicitly completing the paragraph; the
    /// image's content is attached later.
    pub fn add_image(&mut self, img: Image)
        requires
            old(self).wf(),
        ensures
            final(self).wf(),
            final(self).complete_p@.len() >= old(self).complete_p@.len() + 1,
            final(self).complete_p@.last() == MajorElement::Image(
                ImageId { id: crate::image::url_hash(img.url@) },
            ),
            final(self).resources_unresolved@.len() >= 1,
            final(self).title == old(self).title,
    {
        self.paragraph_finish();
        let id = img.id();
        self.complete_p.push(MajorElement::Image(id));
        self.resources_unresolved.push(img);
        proof {
            assert forall|i: int| 0 <= i < self.complete_p@.len() implies (match #[trigger] self
                .complete_p@[i] {
                MajorElement::Paragraph { elms, .. } => inlines_wf(elms@),
                _ => true,
            }) by {
                if i < self.complete_p@.len() - 1 {
                }
            }
        }
    }

    /// Whether the chapter still has image resources waiting for content.
    pub fn requires_resolution(&self) -> (r: bool)
        ensures
            r == (self.resources_unresolved@.len() > 0),
    {
        self.resources_unresolved.len() > 0
    }

    /// The URLs of the images still waiting for content.
    pub fn unresolved_urls(&self) -> (r: Vec<String>)
        ensures
            r@.len() == self.resources_unresolved@.len(),
            forall|i: int|
                0 <= i < r@.len() ==> (#[trigger] r@[i])@ == self.resources_unresolved@[i].url@,
    {
        let mut r: Vec<String> = Vec::new();
        let mut i: usize = 0;
        while i < self.resources_unresolved.len()
            invariant
                i <= self.resources_unresolved@.len(),
                r@.len() == i,
                forall|j: int|
                    0 <= j < i ==> (#[trigger] r@[j])@ == self.resources_unresolved@[j].url@,
            decreases self.resources_unresolved@.len() - i,
        {
            r.push(self.resources_unresolved[i].url.clone());
            i = i + 1;
        }
        r
    }

    /// Attaches fetched content to every waiting image with the given URL:
    /// the content must be an image format; the waiting entries leave the
    /// queue and a resolved resource is filed, unless one with the same id
    /// already is.
    pub fn attach_resource(&mut self, url: &str, ty: crate::media::MediaType, data: Vec<u8>) -> (r:
        Result<(), ChapterBuilderError>)
        requires
            old(self).wf(),
        ensures
            final(self).wf(),
            r is Ok <==> ty.spec_is_image(),
            r is Err ==> *final(self) == *old(self),
            final(self).complete_p == old(self).complete_p,
            final(self).title == old(self).title,
    {
        if !ty.is_image() {
            return Err(
                ChapterBuilderError {
                    empty: false,
                    missing_title: false,
                    unresolved_resources: true,
                },
            );
        }
        // drop every waiting entry with this URL, remembering one of them
        let mut found: Option<Image> = None;
        let mut kept: Vec<Image> = Vec::new();
        let mut i: usize = 0;
        let n = self.resources_unresolved.len();
        while i < n
            invariant
                i <= n,
                n == old(self).resources_unresolved@.len(),
                self.resources_unresolved@ == old(self).resources_unresolved@,
                self.complete_p == old(self).complete_p,
                self.current_p == old(self).current_p,
                self.title == old(self).title,
            decreases n - i,
        {
            let entry_url_matches = crate::strutil::streq(
                self.resources_unresolved[i].url.as_str(),
                url,
            );
            let img = Image {
                url: self.resources_unresolved[i].url.clone(),
                alt: match &self.resources_unresolved[i].alt {
                    Some(a) => Some(a.clone()),
                    None => None,
                },
            };
            if entry_url_matches {
                found = Some(img);
            } else {
                kept.push(img);
            }
            i = i + 1;
        }
        self.resources_unresolved = kept;
        if let Some(img) = found {
            let id = img.id();
            let mut already = false;
            let mut j: usize = 0;
            while j < self.resources_resolved.len()
                invariant
                    j <= self.resources_resolved@.len(),
                    self.complete_p == old(self).complete_p,
                    self.current_p == old(self).current_p,
                    self.title == old(self).title,
                decreases self.resources_resolved@.len() - j,
            {
                if self.resources_resolved[j].id.id == id.id {
                    already = true;
                }
                j = j + 1;
            }
            if !already {
                let resolved = img.resolve_with(ty, data);
                self.resources_resolved.push(resolved);
            }
        }
        Ok(())
    }

    /// Adds text to the paragraph being built, first emitting any needed
    /// style transitions. The content is not trimmed.
    pub fn add_text(&mut self, content: String)
        requires
            old(self).wf(),
        ensures
            final(self).wf(),
            final(self).current_p@.len() >= old(self).current_p@.len() + 1,
            final(self).current_p@.last() == InlineElement::Text(content),
            final(self).complete_p == old(self).complete_p,
            final(self).title == old(self).title,
            final(self).id == old(self).id,
            final(self).preserve_line_feeds == old(self).preserve_line_feeds,
            final(self).resources_unresolved == old(self).resources_unresolved,
            final(self).resources_resolved == old(self).resources_resolved,
            final(self).span_style == old(self).span_style,
            final(self).span_style_actual == old(self).span_style,
            old(self).span_style_actual == old(self).span_style ==> final(self).current_p@
                == old(self).current_p@.push(InlineElement::Text(content)),
    {
        self.span_style_actualize();
        self.current_p.push(InlineElement::Text(content));
        proof {
            assert forall|i: int| 0 <= i < self.current_p@.len() implies (
            #[trigger] self.current_p@[i]).wf() by {
                if i < self.current_p@.len() - 1 {
                }
            }
        }
    }

    /// Adds text under a one-off style, restoring the requested style
    /// afterwards.
    pub fn add_text_styled(&mut self, content: String, style: SpanStyle)
        requires
            old(self).wf(),
        ensures
            final(self).wf(),
            final(self).current_p@.len() >= old(self).current_p@.len() + 1,
            final(self).current_p@.last() == InlineElement::Text(content),
            final(self).complete_p == old(self).complete_p,
            final(self).title == old(self).title,
            final(self).span_style == old(self).span_style,
    {
        let prev_style = self.span_style;
        self.span_style = style;
        self.add_text(content);
        self.span_style = prev_style;
    }

    /// Adds a forced line break.
    pub fn add_line_feed(&mut self)
        requires
            old(self).wf(),
        ensures
            final(self).wf(),
            final(self).current_p@.len() >= old(self).current_p@.len() + 1,
            final(self).current_p@.last() == InlineElement::LineFeed,
            final(self).complete_p == old(self).complete_p,
            final(self).title == old(self).title,
    {
        self.span_style_actualize();
        self.current_p.push(InlineElement::LineFeed);
        proof {
            assert forall|i: int| 0 <= i < self.current_p@.len() implies (
            #[trigger] self.current_p@[i]).wf() by {
                if i < self.current_p@.len() - 1 {
                }
            }
        }
    }

    /// Finishes the chapter: the last paragraph is completed, and the
    /// result is an error exactly when the chapter is empty, has no title,
    /// or still has unresolved resources.
    pub fn finish(self) -> (r: Result<Chapter, ChapterBuilderError>)
        requires
            self.wf(),
        ensures
            match r {
                Ok(ch) => {
                    &&& ch.wf()
                    &&& self.title matches Some(t) && ch.title == t
                    &&& ch.id == self.id
                },
                Err(e) => {
                    &&& (e.missing_title || e.empty || e.unresolved_resources)
                    &&& e.missing_title == (self.title is None)
                    &&& e.unresolved_resources == (self.resources_unresolved@.len() > 0)
                },
            },
    {
        let mut me = self;
        me.paragraph_finish();
        let error = ChapterBuilderError {
            missing_title: me.title.is_none(),
            empty: me.complete_p.len() == 0,
            unresolved_resources: me.resources_unresolved.len() > 0,
        };
        if error.any() {
            return Err(error);
        }
        let title = me.title.unwrap();
        Ok(Chapter { id: me.id, p: me.complete_p, title, rsc: me.resources_resolved })
    }
}

impl Default for ChapterBuilder {
    /// The default builder is empty.
    fn default() -> (r: Self)
        ensures
            r.wf(),
            r.title is None,
    {
        ChapterBuilder::new()
    }
}


/// Renders chapters as Markdown.
#[derive(Clone, Copy, Debug)]
pub struct Md;

impl Md {
    /// What the chapter renders as in Markdown.
    pub fn render(&self, ch: &Chapter) -> (r: String)
        ensures
            r@ == spec_chapter_md(*ch),
    {
        ch.render_md()
    }
}

/// Renders chapters as document markup.
#[derive(Clone, Copy, Debug)]
pub struct Xml;

impl Xml {
    /// What the chapter renders as in document markup.
    pub fn render(&self, ch: &Chapter) -> (r: String)
        ensures
            r@ == spec_chapter_xml(*ch),
    {
        ch.render_xml()
    }
}

} // verus!
