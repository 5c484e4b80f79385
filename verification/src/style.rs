//! Inline span styling and paragraph styling for built chapters.

use vstd::prelude::*;

verus! {

/// A set of inline styles that can be active over a span of text.
#[derive(Clone, Copy, PartialEq, Eq, Structural, Debug)]
pub struct SpanStyle {
    pub bold: bool,
    pub italic: bool,
    pub footnote: bool,
    pub ruby: bool,
    pub ruby_rt: bool,
    pub ruby_rp: bool,
}

/// A single style element, in the fixed order styles are opened.
#[derive(Clone, Copy, PartialEq, Eq, Structural, Debug)]
pub enum SpanStyleEl {
    Bold,
    Italic,
    Ruby,
    RubyRt,
    RubyRp,
    Footnote,
}

impl SpanStyleEl {
    /// The opening tag of this style element.
    pub fn open(self) -> (r: &'static str)
        ensures
            r@ == spec_open(self),
    {
        proof {
            reveal_strlit("<b>");
            reveal_strlit("<i>");
            reveal_strlit("<aside role=\"doc-footnote\">");
            reveal_strlit("<ruby>");
            reveal_strlit("<rt>");
            reveal_strlit("<rp>");
        }
        match self {
            SpanStyleEl::Bold => "<b>",
            SpanStyleEl::Italic => "<i>",
            SpanStyleEl::Footnote => "<aside role=\"doc-footnote\">",
            SpanStyleEl::Ruby => "<ruby>",
            SpanStyleEl::RubyRt => "<rt>",
            SpanStyleEl::RubyRp => "<rp>",
        }
    }

    /// The closing tag of this style element.
    pub fn close(self) -> (r: &'static str)
        ensures
            r@ == spec_close(self),
    {
        proof {
            reveal_strlit("</b>");
            reveal_strlit("</i>");
            reveal_strlit("</aside>");
            reveal_strlit("</ruby>");
            reveal_strlit("</rt>");
            reveal_strlit("</rp>");
        }
        match self {
            SpanStyleEl::Bold => "</b>",
            SpanStyleEl::Italic => "</i>",
            SpanStyleEl::Footnote => "</aside>",
            SpanStyleEl::Ruby => "</ruby>",
            SpanStyleEl::RubyRt => "</rt>",
            SpanStyleEl::RubyRp => "</rp>",
        }
    }
}

/// The opening tag text of a style element.
pub open spec fn spec_open(el: SpanStyleEl) -> Seq<char> {
    match el {
        SpanStyleEl::Bold => "<b>"@,
        SpanStyleEl::Italic => "<i>"@,
        SpanStyleEl::Footnote => "<aside role=\"doc-footnote\">"@,
        SpanStyleEl::Ruby => "<ruby>"@,
        SpanStyleEl::RubyRt => "<rt>"@,
        SpanStyleEl::RubyRp => "<rp>"@,
    }
}

/// The closing tag text of a style element.
pub open spec fn spec_close(el: SpanStyleEl) -> Seq<char> {
    match el {
        SpanStyleEl::Bold => "</b>"@,
        SpanStyleEl::Italic => "</i>"@,
        SpanStyleEl::Footnote => "</aside>"@,
        SpanStyleEl::Ruby => "</ruby>"@,
        SpanStyleEl::RubyRt => "</rt>"@,
        SpanStyleEl::RubyRp => "</rp>"@,
    }
}

impl SpanStyle {
    /// Whether a style element is a member of this style set.
    pub open spec fn spec_has(self, el: SpanStyleEl) -> bool {
        match el {
            SpanStyleEl::Bold => self.bold,
            SpanStyleEl::Italic => self.italic,
            SpanStyleEl::Footnote => self.footnote,
            SpanStyleEl::Ruby => self.ruby,
            SpanStyleEl::RubyRt => self.ruby_rt,
            SpanStyleEl::RubyRp => self.ruby_rp,
        }
    }

    /// The style elements of this set, in the fixed opening order.
    pub open spec fn spec_els(self) -> Seq<SpanStyleEl> {
        let all = seq![
            SpanStyleEl::Bold,
            SpanStyleEl::Italic,
            SpanStyleEl::Footnote,
            SpanStyleEl::Ruby,
            SpanStyleEl::RubyRt,
            SpanStyleEl::RubyRp,
        ];
        all.filter(|el: SpanStyleEl| self.spec_has(el))
    }

    /// The style with no elements set.
    pub fn none() -> (r: Self)
        ensures
            r == SpanStyle::spec_none(),
    {
        SpanStyle {
            bold: false,
            italic: false,
            footnote: false,
            ruby: false,
            ruby_rt: false,
            ruby_rp: false,
        }
    }

    /// The empty style set.
    pub open spec fn spec_none() -> Self {
        SpanStyle {
            bold: false,
            italic: false,
            footnote: false,
            ruby: false,
            ruby_rt: false,
            ruby_rp: false,
        }
    }

    /// True iff no style element is set.
    pub fn is_none(self) -> (r: bool)
        ensures
            r == (self == SpanStyle::spec_none()),
    {
        !self.bold && !self.italic && !self.footnote && !self.ruby && !self.ruby_rt
            && !self.ruby_rp
    }

    /// The style elements of this set, in the fixed opening order.
    pub fn el_iter(self) -> (r: Vec<SpanStyleEl>)
        ensures
            r@ == self.spec_els(),
    {
        let mut r: Vec<SpanStyleEl> = Vec::new();
        if self.bold {
            r.push(SpanStyleEl::Bold);
        }
        if self.italic {
            r.push(SpanStyleEl::Italic);
        }
        if self.footnote {
            r.push(SpanStyleEl::Footnote);
        }
        if self.ruby {
            r.push(SpanStyleEl::Ruby);
        }
        if self.ruby_rt {
            r.push(SpanStyleEl::RubyRt);
        }
        if self.ruby_rp {
            r.push(SpanStyleEl::RubyRp);
        }
        proof {
            let all = seq![
                SpanStyleEl::Bold,
                SpanStyleEl::Italic,
                SpanStyleEl::Footnote,
                SpanStyleEl::Ruby,
                SpanStyleEl::RubyRt,
                SpanStyleEl::RubyRp,
            ];
            let pred = |el: SpanStyleEl| self.spec_has(el);
            reveal_with_fuel(Seq::filter, 7);
            assert(all =~= seq![SpanStyleEl::Bold] + seq![
                SpanStyleEl::Italic,
                SpanStyleEl::Footnote,
                SpanStyleEl::Ruby,
                SpanStyleEl::RubyRt,
                SpanStyleEl::RubyRp,
            ]);
            assert(r@ =~= all.filter(pred));
        }
        r
    }

    /// The style with only bold set.
    pub fn bold() -> (r: Self)
        ensures
            r == (SpanStyle { bold: true, ..SpanStyle::spec_none() }),
    {
        SpanStyle { bold: true, ..SpanStyle::none() }
    }

    /// The style with only italic set.
    pub fn italic() -> (r: Self)
        ensures
            r == (SpanStyle { italic: true, ..SpanStyle::spec_none() }),
    {
        SpanStyle { italic: true, ..SpanStyle::none() }
    }

    /// The style with only ruby set.
    pub fn ruby() -> (r: Self)
        ensures
            r == (SpanStyle { ruby: true, ..SpanStyle::spec_none() }),
    {
        SpanStyle { ruby: true, ..SpanStyle::none() }
    }

    /// The style with only ruby text set.
    pub fn ruby_rt() -> (r: Self)
        ensures
            r == (SpanStyle { ruby_rt: true, ..SpanStyle::spec_none() }),
    {
        SpanStyle { ruby_rt: true, ..SpanStyle::none() }
    }

    /// The style with only ruby parenthesis set.
    pub fn ruby_rp() -> (r: Self)
        ensures
            r == (SpanStyle { ruby_rp: true, ..SpanStyle::spec_none() }),
    {
        SpanStyle { ruby_rp: true, ..SpanStyle::none() }
    }

    /// The style with bold and italic set.
    pub fn bold_italic() -> (r: Self)
        ensures
            r == (SpanStyle { bold: true, italic: true, ..SpanStyle::spec_none() }),
    {
        SpanStyle { bold: true, italic: true, ..SpanStyle::none() }
    }

    /// The union of two style sets.
    pub open spec fn spec_merge(self, rhs: Self) -> Self {
        SpanStyle {
            bold: self.bold || rhs.bold,
            italic: self.italic || rhs.italic,
            footnote: self.footnote || rhs.footnote,
            ruby: self.ruby || rhs.ruby,
            ruby_rt: self.ruby_rt || rhs.ruby_rt,
            ruby_rp: self.ruby_rp || rhs.ruby_rp,
        }
    }

    /// The union of two style sets.
    pub fn merge(self, rhs: Self) -> (r: Self)
        ensures
            r == self.spec_merge(rhs),
    {
        SpanStyle {
            bold: self.bold || rhs.bold,
            italic: self.italic || rhs.italic,
            footnote: self.footnote || rhs.footnote,
            ruby: self.ruby || rhs.ruby,
            ruby_rt: self.ruby_rt || rhs.ruby_rt,
            ruby_rp: self.ruby_rp || rhs.ruby_rp,
        }
    }

    /// The styles that must be enabled to go from `self` to `to`.
    pub fn additional_needed(self, to: Self) -> (r: Self)
        ensures
            r == (SpanStyle {
                bold: !self.bold && to.bold,
                italic: !self.italic && to.italic,
                footnote: !self.footnote && to.footnote,
                ruby: !self.ruby && to.ruby,
                ruby_rt: !self.ruby_rt && to.ruby_rt,
                ruby_rp: !self.ruby_rp && to.ruby_rp,
            }),
    {
        SpanStyle {
            bold: !self.bold && to.bold,
            italic: !self.italic && to.italic,
            footnote: !self.footnote && to.footnote,
            ruby: !self.ruby && to.ruby,
            ruby_rt: !self.ruby_rt && to.ruby_rt,
            ruby_rp: !self.ruby_rp && to.ruby_rp,
        }
    }

    /// The styles that must be disabled to go from `self` to `to`.
    pub fn removals_needed(self, to: Self) -> (r: Self)
        ensures
            r == (SpanStyle {
                bold: self.bold && !to.bold,
                italic: self.italic && !to.italic,
                footnote: self.footnote && !to.footnote,
                ruby: self.ruby && !to.ruby,
                ruby_rt: self.ruby_rt && !to.ruby_rt,
                ruby_rp: self.ruby_rp && !to.ruby_rp,
            }),
    {
        SpanStyle {
            bold: self.bold && !to.bold,
            italic: self.italic && !to.italic,
            footnote: self.footnote && !to.footnote,
            ruby: self.ruby && !to.ruby,
            ruby_rt: self.ruby_rt && !to.ruby_rt,
            ruby_rp: self.ruby_rp && !to.ruby_rp,
        }
    }
}

impl Default for SpanStyle {
    /// The default style is the empty style set.
    fn default() -> (r: Self)
        ensures
            r == SpanStyle::spec_none(),
    {
        SpanStyle::none()
    }
}

/// Horizontal alignment of a paragraph.
#[derive(Clone, Copy, PartialEq, Eq, Structural, Debug)]
pub enum Align {
    Left,
    Center,
    Right,
}

impl Default for Align {
    fn default() -> (r: Self)
        ensures
            r == Align::Left,
    {
        Align::Left
    }
}

/// How a paragraph is rendered.
#[derive(Clone, Copy, PartialEq, Eq, Structural, Debug)]
pub enum ParagraphMode {
    Normal,
    BlockQuote,
}

impl Default for ParagraphMode {
    fn default() -> (r: Self)
        ensures
            r == ParagraphMode::Normal,
    {
        ParagraphMode::Normal
    }
}

/// The full style of a paragraph.
#[derive(Clone, Copy, PartialEq, Eq, Structural, Debug)]
pub struct ParagraphStyle {
    pub mode: ParagraphMode,
    pub align: Align,
}

impl Default for ParagraphStyle {
    fn default() -> (r: Self)
        ensures
            r == (ParagraphStyle { mode: ParagraphMode::Normal, align: Align::Left }),
    {
        ParagraphStyle { mode: ParagraphMode::Normal, align: Align::Left }
    }
}

} // verus!
