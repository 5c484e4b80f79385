//! Escaping and small combinators for building HTML, XML and Markdown text.

use vstd::prelude::*;

use crate::strutil::string_from_chars;

verus! {

/// Which escaping discipline applies.
#[derive(Clone, Copy, PartialEq, Eq, Structural, Debug)]
pub enum EscapeKind {
    /// Element body text: `<`, `>` and `&` are escaped.
    Body,
    /// Attribute values: additionally `"` is escaped.
    Attr,
    /// Markdown text: backslash, backtick, `*`, `[` and `]` are escaped.
    Md,
}

/// What a single character escapes to.
pub open spec fn spec_esc_char(kind: EscapeKind, c: char) -> Seq<char> {
    match kind {
        EscapeKind::Body => {
            if c == '>' {
                "&gt;"@
            } else if c == '<' {
                "&lt;"@
            } else if c == '&' {
                "&amp;"@
            } else {
                seq![c]
            }
        },
        EscapeKind::Attr => {
            if c == '>' {
                "&gt;"@
            } else if c == '<' {
                "&lt;"@
            } else if c == '&' {
                "&amp;"@
            } else if c == '"' {
                "\\\""@
            } else {
                seq![c]
            }
        },
        EscapeKind::Md => {
            if c == '`' {
                "\\`"@
            } else if c == '\\' {
                "\\\\"@
            } else if c == '*' {
                "\\*"@
            } else if c == '[' {
                "\\["@
            } else if c == ']' {
                "\\]"@
            } else {
                seq![c]
            }
        },
    }
}

/// The escaped form of a string under the given discipline.
pub open spec fn spec_escape(kind: EscapeKind, s: Seq<char>) -> Seq<char>
    decreases s.len(),
{
    if s.len() == 0 {
        Seq::empty()
    } else {
        spec_esc_char(kind, s[0]) + spec_escape(kind, s.drop_first())
    }
}

/// Appends what a single character escapes to.
fn push_esc_char(kind: EscapeKind, c: char, out: &mut Vec<char>)
    ensures
        final(out)@ == old(out)@ + spec_esc_char(kind, c),
{
    let special: Option<&'static str> = match kind {
        EscapeKind::Body => {
            if c == '>' {
                Some("&gt;")
            } else if c == '<' {
                Some("&lt;")
            } else if c == '&' {
                Some("&amp;")
            } else {
                None
            }
        },
        EscapeKind::Attr => {
            if c == '>' {
                Some("&gt;")
            } else if c == '<' {
                Some("&lt;")
            } else if c == '&' {
                Some("&amp;")
            } else if c == '"' {
                Some("\\\"")
            } else {
                None
            }
        },
        EscapeKind::Md => {
            if c == '`' {
                Some("\\`")
            } else if c == '\\' {
                Some("\\\\")
            } else if c == '*' {
                Some("\\*")
            } else if c == '[' {
                Some("\\[")
            } else if c == ']' {
                Some("\\]")
            } else {
                None
            }
        },
    };
    match special {
        Some(rep) => {
            push_str_chars(rep, out);
            proof {
                assert(final(out)@ =~= old(out)@ + spec_esc_char(kind, c));
            }
        },
        None => {
            out.push(c);
            proof {
                assert(final(out)@ =~= old(out)@ + spec_esc_char(kind, c));
            }
        },
    }
}

/// Appends the characters of a string slice to a character vector.
pub fn push_str_chars(s: &str, out: &mut Vec<char>)
    ensures
        final(out)@ == old(out)@ + s@,
{
    let n = s.unicode_len();
    let mut i: usize = 0;
    while i < n
        invariant
            n == s@.len(),
            i <= n,
            out@ == old(out)@ + s@.subrange(0, i as int),
        decreases n - i,
    {
        out.push(s.get_char(i));
        i = i + 1;
        proof {
            assert(out@ =~= old(out)@ + s@.subrange(0, i as int));
        }
    }
    proof {
        assert(out@ =~= old(out)@ + s@);
    }
}

/// Appends the escaped form of a string under the given discipline.
pub fn push_escaped(kind: EscapeKind, s: &str, out: &mut Vec<char>)
    ensures
        final(out)@ == old(out)@ + spec_escape(kind, s@),
{
    let n = s.unicode_len();
    proof {
        assert(s@.subrange(0, n as int) =~= s@);
    }
    let mut i: usize = 0;
    while i < n
        invariant
            n == s@.len(),
            i <= n,
            out@ + spec_escape(kind, s@.subrange(i as int, n as int)) == old(out)@ + spec_escape(
                kind,
                s@,
            ),
        decreases n - i,
    {
        let c = s.get_char(i);
        proof {
            let rest = s@.subrange(i as int, n as int);
            assert(rest[0] == c);
            assert(rest.drop_first() =~= s@.subrange(i as int + 1, n as int));
        }
        push_esc_char(kind, c, out);
        i = i + 1;
    }
    proof {
        assert(s@.subrange(n as int, n as int) =~= Seq::<char>::empty());
        assert(out@ =~= old(out)@ + spec_escape(kind, s@));
    }
}

/// The escaped form of a string under the given discipline.
pub fn escape(kind: EscapeKind, s: &str) -> (r: String)
    ensures
        r@ == spec_escape(kind, s@),
{
    let mut out: Vec<char> = Vec::new();
    push_escaped(kind, s, &mut out);
    string_from_chars(&out)
}

/// Body text to be escaped for element content.
pub struct EscapeBody<'a>(pub &'a str);

impl<'a> EscapeBody<'a> {
    /// The escaped text.
    pub fn render(&self) -> (r: String)
        ensures
            r@ == spec_escape(EscapeKind::Body, self.0@),
    {
        escape(EscapeKind::Body, self.0)
    }
}

/// Text to be escaped for use in an attribute value.
pub struct EscapeAttr<'a>(pub &'a str);

impl<'a> EscapeAttr<'a> {
    /// The escaped text.
    pub fn render(&self) -> (r: String)
        ensures
            r@ == spec_escape(EscapeKind::Attr, self.0@),
    {
        escape(EscapeKind::Attr, self.0)
    }
}

/// Text to be escaped for use in Markdown.
pub struct EscapeMd<'a>(pub &'a str);

impl<'a> EscapeMd<'a> {
    /// The escaped text.
    pub fn render(&self) -> (r: String)
        ensures
            r@ == spec_escape(EscapeKind::Md, self.0@),
    {
        escape(EscapeKind::Md, self.0)
    }
}

/// A renderer that produces no text.
pub struct NopDisplay;

impl NopDisplay {
    /// The empty string.
    pub fn render(&self) -> (r: String)
        ensures
            r@ == Seq::<char>::empty(),
    {
        let r = String::new();
        r
    }
}

/// Items joined by a separator.
pub open spec fn spec_join(items: Seq<Seq<char>>, sep: Seq<char>) -> Seq<char>
    decreases items.len(),
{
    if items.len() == 0 {
        Seq::empty()
    } else if items.len() == 1 {
        items[0]
    } else {
        items[0] + sep + spec_join(items.drop_first(), sep)
    }
}

/// A list of already-rendered items joined by a separator.
pub struct Join {
    pub sep: String,
    pub items: Vec<String>,
}

/// The views of a vector of strings.
pub open spec fn views_of(items: Seq<String>) -> Seq<Seq<char>> {
    items.map_values(|s: String| s@)
}

/// Appends items joined by a separator, starting at `idx`.
fn push_join_from(items: &Vec<String>, sep: &str, idx: usize, out: &mut Vec<char>)
    requires
        idx <= items@.len(),
    ensures
        final(out)@ == old(out)@ + spec_join(views_of(items@).skip(idx as int), sep@),
    decreases items@.len() - idx,
{
    if idx == items.len() {
        proof {
            assert(views_of(items@).skip(idx as int) =~= Seq::<Seq<char>>::empty());
        }
        return ;
    }
    push_str_chars(items[idx].as_str(), out);
    if idx + 1 < items.len() {
        push_str_chars(sep, out);
    }
    push_join_from(items, sep, idx + 1, out);
    proof {
        let rest = views_of(items@).skip(idx as int);
        assert(rest[0] == items@[idx as int]@);
        assert(rest.drop_first() =~= views_of(items@).skip(idx as int + 1));
        if idx + 1 == items@.len() {
            assert(rest.len() == 1);
        }
        assert(final(out)@ =~= old(out)@ + spec_join(rest, sep@));
    }
}

impl Join {
    /// The items joined by the separator.
    pub fn render(&self) -> (r: String)
        ensures
            r@ == spec_join(views_of(self.items@), self.sep@),
    {
        let mut out: Vec<char> = Vec::new();
        push_join_from(&self.items, self.sep.as_str(), 0, &mut out);
        proof {
            assert(views_of(self.items@).skip(0) =~= views_of(self.items@));
        }
        string_from_chars(&out)
    }
}

/// Content surrounded by a fixed opening and closing string.
pub struct Surround {
    pub open_text: String,
    pub close_text: String,
    pub content: String,
}

impl Surround {
    /// The opening text, the content, and the closing text.
    pub fn render(&self) -> (r: String)
        ensures
            r@ == self.open_text@ + self.content@ + self.close_text@,
    {
        let mut out: Vec<char> = Vec::new();
        push_str_chars(self.open_text.as_str(), &mut out);
        push_str_chars(self.content.as_str(), &mut out);
        push_str_chars(self.close_text.as_str(), &mut out);
        string_from_chars(&out)
    }
}

/// Content surrounded by tags: opened in order, closed in reverse.
pub open spec fn spec_tag_surround(tags: Seq<Seq<char>>, content: Seq<char>) -> Seq<char>
    decreases tags.len(),
{
    if tags.len() == 0 {
        content
    } else {
        "<"@ + tags[0] + ">"@ + spec_tag_surround(tags.drop_first(), content) + "</"@ + tags[0]
            + ">"@
    }
}

/// Content wrapped in a list of tags.
pub struct TagSurround {
    pub tags: Vec<String>,
    pub content: String,
}

/// Appends the tag-surrounded content, starting at tag `idx`.
fn push_tag_surround_from(tags: &Vec<String>, content: &str, idx: usize, out: &mut Vec<char>)
    requires
        idx <= tags@.len(),
    ensures
        final(out)@ == old(out)@ + spec_tag_surround(views_of(tags@).skip(idx as int), content@),
    decreases tags@.len() - idx,
{
    if idx == tags.len() {
        proof {
            assert(views_of(tags@).skip(idx as int) =~= Seq::<Seq<char>>::empty());
        }
        push_str_chars(content, out);
        return ;
    }
    push_str_chars("<", out);
    push_str_chars(tags[idx].as_str(), out);
    push_str_chars(">", out);
    push_tag_surround_from(tags, content, idx + 1, out);
    push_str_chars("</", out);
    push_str_chars(tags[idx].as_str(), out);
    push_str_chars(">", out);
    proof {
        let rest = views_of(tags@).skip(idx as int);
        assert(rest[0] == tags@[idx as int]@);
        assert(rest.drop_first() =~= views_of(tags@).skip(idx as int + 1));
        assert(final(out)@ =~= old(out)@ + spec_tag_surround(rest, content@));
    }
}

impl TagSurround {
    /// Wraps content in the given tags.
    pub fn new(tags: Vec<String>, content: String) -> (r: Self)
        ensures
            r.tags == tags,
            r.content == content,
    {
        TagSurround { tags, content }
    }

    /// The tags opened in order, the content, and the tags closed in reverse.
    pub fn render(&self) -> (r: String)
        ensures
            r@ == spec_tag_surround(views_of(self.tags@), self.content@),
    {
        let mut out: Vec<char> = Vec::new();
        push_tag_surround_from(&self.tags, self.content.as_str(), 0, &mut out);
        proof {
            assert(views_of(self.tags@).skip(0) =~= views_of(self.tags@));
        }
        string_from_chars(&out)
    }
}

/// Content wrapped in a single tag.
pub fn surround_tag(tag: &str, content: &str) -> (r: String)
    ensures
        r@ == "<"@ + tag@ + ">"@ + content@ + "</"@ + tag@ + ">"@,
{
    let mut out: Vec<char> = Vec::new();
    push_str_chars("<", &mut out);
    push_str_chars(tag, &mut out);
    push_str_chars(">", &mut out);
    push_str_chars(content, &mut out);
    push_str_chars("</", &mut out);
    push_str_chars(tag, &mut out);
    push_str_chars(">", &mut out);
    string_from_chars(&out)
}

} // verus!
