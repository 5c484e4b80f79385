//! Rule expressions: compact patterns that match, delete, substitute or flag
//! content inside a parsed document tree.
//!
//! A rule is written `[dspP]?[;/]selector?[/regex/[replacement/]]`: an
//! optional operation letter, then a `;`-introduced structural selector
//! and/or a `/`-delimited regular expression, and for substitutions a
//! trailing literal replacement.

use vstd::prelude::*;

use crate::engines::{
    ancestors_of, ancestor_elements, copy_el, css_match, detached, doc_ancestors, doc_selected,
    doc_subtree_texts, doc_texts, el_texts, element_texts, matches_in, parse_of, re_match,
    re_replace, regex_is_match, regex_replace_all, regex_source, sel_valid, re_valid,
    selected_under, select_within, selector_matches, selector_source, serialize_of,
};

verus! {

/// The operation a rule performs.
#[derive(Debug)]
pub enum Op {
    /// No side effect; used only for invariant checks.
    Match,
    /// Delete the matched elements.
    Delete,
    /// Log captured substrings of the matched text.
    Print,
    /// Log the matched elements themselves.
    PrintAll,
    /// Replace every regex match with a literal text.
    Replace(String),
}

/// The mathematical value of an operation.
pub enum OpModel {
    Match,
    Delete,
    Print,
    PrintAll,
    Replace(Seq<char>),
}

impl Op {
    /// The mathematical value of this operation.
    pub open spec fn view(&self) -> OpModel {
        match self {
            Op::Match => OpModel::Match,
            Op::Delete => OpModel::Delete,
            Op::Print => OpModel::Print,
            Op::PrintAll => OpModel::PrintAll,
            Op::Replace(s) => OpModel::Replace(s@),
        }
    }
}

/// The mathematical value of a compiled rule: the operation and the source
/// texts of the selector and the regular expression, where present.
pub struct SedModel {
    pub op: OpModel,
    pub sel: Option<Seq<char>>,
    pub reg: Option<Seq<char>>,
}

/// A compiled rule.
#[derive(Debug)]
pub struct Sed {
    pub op: Op,
    pub sel: Option<(scraper::Selector, String)>,
    pub reg: Option<(regex_lite::Regex, String)>,
}

impl SedModel {
    /// Structural well-formedness: at least one of selector and regex is
    /// present, substitutions and prints carry a regex, and both engines
    /// accept their source texts.
    pub open spec fn wf(self) -> bool {
        &&& (self.sel is Some || self.reg is Some)
        &&& (self.op is Replace ==> self.reg is Some)
        &&& (self.op is Print ==> self.reg is Some)
        &&& (self.sel is Some ==> sel_valid(self.sel->0))
        &&& (self.reg is Some ==> re_valid(self.reg->0))
    }

    /// Whether an element is a full match: the selector (if any) matches the
    /// element and some text under it matches the regex (if any).
    pub open spec fn spec_el_match(self, el: scraper::ElementRef) -> bool {
        &&& self.spec_css_match(el)
        &&& (self.reg matches Some(r) ==> exists|k: int|
            0 <= k < el_texts(el).len() && re_match(r, el_texts(el)[k]))
    }

    /// Whether the selector matches the element; a rule without a selector
    /// matches every element.
    pub open spec fn spec_css_match(self, el: scraper::ElementRef) -> bool {
        match self.sel {
            Some(src) => css_match(src, el),
            None => true,
        }
    }

    /// Whether this rule orders the element deleted.
    pub open spec fn spec_should_delete(self, el: scraper::ElementRef) -> bool {
        self.op is Delete && self.spec_el_match(el)
    }

    /// Whether anything under the element matches this `Match` rule.
    pub open spec fn spec_contains_match(self, el: scraper::ElementRef) -> bool {
        if !(self.op is Match) {
            false
        } else {
            match (self.sel, self.reg) {
                (None, None) => false,
                (None, Some(r)) => exists|k: int|
                    0 <= k < el_texts(el).len() && re_match(r, el_texts(el)[k]),
                (Some(s), None) => selected_under(s, el).len() > 0,
                (Some(s), Some(r)) => exists|j: int, k: int|
                    {
                        &&& 0 <= j < selected_under(s, el).len()
                        &&& 0 <= k < el_texts(selected_under(s, el)[j]).len()
                        &&& re_match(r, el_texts(selected_under(s, el)[j])[k])
                    },
            }
        }
    }
}

/// What applying a rule to a piece of text yields: substitutions replace
/// every regex match with the literal replacement; every other operation
/// leaves the text unchanged.
pub open spec fn spec_apply_text(m: SedModel, t: Seq<char>) -> Seq<char> {
    match m.op {
        OpModel::Replace(rep) => match m.reg {
            Some(r) => re_replace(r, t, rep),
            None => t,
        },
        _ => t,
    }
}

impl Sed {
    /// The mathematical value of this rule.
    pub open spec fn view(&self) -> SedModel {
        SedModel {
            op: self.op@,
            sel: match self.sel {
                Some(s) => Some(s.1@),
                None => None,
            },
            reg: match self.reg {
                Some(r) => Some(r.1@),
                None => None,
            },
        }
    }

    /// The compiled parts agree with the recorded source texts, and the
    /// model is well-formed.
    pub open spec fn wf(&self) -> bool {
        &&& self@.wf()
        &&& (self.sel matches Some(s) ==> selector_source(s.0) == s.1@)
        &&& (self.reg matches Some(r) ==> regex_source(r.0) == r.1@)
    }

    /// Whether this rule deletes.
    pub fn is_del(&self) -> (r: bool)
        ensures
            r == (self@.op is Delete),
    {
        matches!(self.op, Op::Delete)
    }

    /// Whether this rule substitutes.
    pub fn is_sub(&self) -> (r: bool)
        ensures
            r == (self@.op is Replace),
    {
        matches!(self.op, Op::Replace(_))
    }

    /// Whether this rule logs captured substrings.
    pub fn is_print(&self) -> (r: bool)
        ensures
            r == (self@.op is Print),
    {
        matches!(self.op, Op::Print)
    }

    /// Whether this rule logs matched elements.
    pub fn is_print_all(&self) -> (r: bool)
        ensures
            r == (self@.op is PrintAll),
    {
        matches!(self.op, Op::PrintAll)
    }

    /// Whether this rule logs anything.
    pub fn is_print_any(&self) -> (r: bool)
        ensures
            r == (self@.op is PrintAll || self@.op is Print),
    {
        matches!(self.op, Op::PrintAll | Op::Print)
    }

    /// Whether this rule only matches.
    pub fn is_matcher(&self) -> (r: bool)
        ensures
            r == (self@.op is Match),
    {
        matches!(self.op, Op::Match)
    }

    /// Whether this rule mutates the tree it is applied to.
    pub fn is_destructive(&self) -> (r: bool)
        ensures
            r == (self@.op is Delete || self@.op is Replace),
    {
        matches!(self.op, Op::Delete | Op::Replace(_))
    }

    /// Whether the selector matches the element; true when the rule has no
    /// selector.
    ///
    /// If an element is a selector match, then so are all its children.
    pub fn is_css_match(&self, el: &scraper::ElementRef) -> (r: bool)
        requires
            self.wf(),
        ensures
            r == self@.spec_css_match(*el),
    {
        match &self.sel {
            Some(s) => selector_matches(&s.0, el),
            None => true,
        }
    }

    /// Whether the element is a full match: the selector matches and some
    /// text under the element matches the regex.
    pub fn is_el_match(&self, el: &scraper::ElementRef) -> (r: bool)
        requires
            self.wf(),
        ensures
            r == self@.spec_el_match(*el),
    {
        if !self.is_css_match(el) {
            return false;
        }
        match &self.reg {
            Some(rg) => any_text_matches(&rg.0, el),
            None => true,
        }
    }

    /// Whether this rule orders the element deleted: it must be a delete
    /// rule and a full match.
    pub fn should_delete(&self, el: &scraper::ElementRef) -> (r: bool)
        requires
            self.wf(),
        ensures
            r == self@.spec_should_delete(*el),
    {
        if !self.is_del() {
            return false;
        }
        self.is_el_match(el)
    }

    /// Whether anything under the element matches this rule; meaningful only
    /// for `Match` rules and false for every other operation.
    pub fn contains_match(&self, el: &scraper::ElementRef) -> (r: bool)
        requires
            self.wf(),
        ensures
            r == self@.spec_contains_match(*el),
    {
        if !self.is_matcher() {
            return false;
        }
        match (&self.sel, &self.reg) {
            (None, None) => false,
            (None, Some(rg)) => any_text_matches(&rg.0, el),
            (Some(s), None) => {
                let found = select_within(el, &s.0);
                found.len() > 0
            },
            (Some(s), Some(rg)) => {
                let found = select_within(el, &s.0);
                let ghost sels = selected_under(s.1@, *el);
                let mut j: usize = 0;
                let mut r = false;
                while j < found.len()
                    invariant
                        sels == selected_under(self@.sel->0, *el),
                        found@ == sels,
                        j <= sels.len(),
                        regex_source(rg.0) == self@.reg->0,
                        r == exists|j0: int, k: int|
                            {
                                &&& 0 <= j0 < j
                                &&& 0 <= k < el_texts(sels[j0]).len()
                                &&& re_match(self@.reg->0, el_texts(sels[j0])[k])
                            },
                    decreases sels.len() - j,
                {
                    if !r {
                        let hit = any_text_matches(&rg.0, &found[j]);
                        if hit {
                            r = true;
                        }
                    }
                    j = j + 1;
                }
                r
            },
        }
    }

    /// The nearest of the element and its ancestors that the selector
    /// matches; the element itself when the rule has no selector; `None`
    /// when a selector is present and nothing in the chain matches.
    pub fn parent_css_match<'a>(&self, el: &scraper::ElementRef<'a>) -> (r: Option<
        scraper::ElementRef<'a>,
    >)
        requires
            self.wf(),
        ensures
            match self@.sel {
                None => r == Some(*el),
                Some(src) => {
                    let chain = seq![*el] + ancestors_of(*el);
                    match r {
                        Some(hit) => exists|i: int|
                            {
                                &&& 0 <= i < chain.len()
                                &&& hit == chain[i]
                                &&& css_match(src, chain[i])
                                &&& forall|j: int| 0 <= j < i ==> !css_match(src, chain[j])
                            },
                        None => forall|i: int| 0 <= i < chain.len() ==> !css_match(src, chain[i]),
                    }
                },
            },
    {
        let sel = match &self.sel {
            Some(s) => s,
            None => {
                return Some(copy_el(el));
            },
        };
        let ghost src = sel.1@;
        let ghost chain = seq![*el] + ancestors_of(*el);
        if selector_matches(&sel.0, el) {
            proof {
                assert(chain[0] == *el);
            }
            return Some(copy_el(el));
        }
        proof {
            assert(chain[0] == *el);
        }
        let ups = ancestor_elements(el);
        let mut i: usize = 0;
        while i < ups.len()
            invariant
                ups@ == ancestors_of(*el),
                chain == seq![*el] + ancestors_of(*el),
                i <= ups@.len(),
                selector_source(sel.0) == src,
                self@.sel == Some(src),
                forall|j: int| 0 <= j <= i ==> !css_match(src, chain[j]),
            decreases ups@.len() - i,
        {
            let hit = selector_matches(&sel.0, &ups[i]);
            proof {
                assert(chain[i as int + 1] == ups@[i as int]);
            }
            if hit {
                let found_el = copy_el(&ups[i]);
                proof {
                    let w: int = i as int + 1;
                    assert(found_el == chain[w]);
                    assert(css_match(src, chain[w]));
                    assert(forall|j: int| 0 <= j < w ==> !css_match(src, chain[j]));
                    assert(exists|ii: int|
                        {
                            &&& 0 <= ii < chain.len()
                            &&& found_el == chain[ii]
                            &&& css_match(src, chain[ii])
                            &&& forall|j: int| 0 <= j < ii ==> !css_match(src, chain[j])
                        });
                }
                return Some(found_el);
            }
            i = i + 1;
        }
        None
    }

    /// Applies this rule to a piece of text: a substitution replaces every
    /// regex match with the literal replacement; any other operation returns
    /// the text unchanged.
    pub fn apply_text(&self, s: &str) -> (r: String)
        requires
            self.wf(),
        ensures
            r@ == spec_apply_text(self@, s@),
    {
        let rep = match &self.op {
            Op::Replace(rep) => rep,
            _ => {
                return s.to_owned();
            },
        };
        let rg = match &self.reg {
            Some(rg) => rg,
            None => {
                proof {
                    assert(false);
                }
                return s.to_owned();
            },
        };
        regex_replace_all(&rg.0, s, rep.as_str())
    }
}

/// Whether any text under the element matches the regular expression.
fn any_text_matches(re: &regex_lite::Regex, el: &scraper::ElementRef) -> (r: bool)
    ensures
        r == exists|k: int|
            0 <= k < el_texts(*el).len() && re_match(regex_source(*re), el_texts(*el)[k]),
{
    let texts = element_texts(el);
    let ghost model = el_texts(*el);
    let mut k: usize = 0;
    while k < texts.len()
        invariant
            model == el_texts(*el),
            texts@.map_values(|s: String| s@) == model,
            k <= model.len(),
            forall|k0: int| 0 <= k0 < k ==> !re_match(regex_source(*re), model[k0]),
        decreases model.len() - k,
    {
        proof {
            assert(texts@[k as int]@ == model[k as int]);
        }
        if regex_is_match(re, texts[k].as_str()) {
            proof {
                assert(model.len() == texts@.len());
                assert(k < el_texts(*el).len());
                assert(texts@[k as int]@ == el_texts(*el)[k as int]);
                assert(re_match(regex_source(*re), texts@[k as int]@));
                assert(re_match(regex_source(*re), el_texts(*el)[k as int]));
            }
            return true;
        }
        k = k + 1;
    }
    false
}

/// Why a rule string failed to compile.
pub enum ParseFail {
    /// The rule string is empty.
    Empty,
    /// The first character names no operation.
    BadOp(char),
    /// An operation letter with nothing after it.
    NoSelector,
    /// The character after the operation letter is not `;` or `/`.
    BadSep(char),
    /// A backslash with no character after it to escape.
    DanglingEscape,
    /// The selector segment is empty or all whitespace.
    EmptySelector,
    /// The selector engine refused the selector segment.
    BadSelector,
    /// A regex segment without its closing `/`.
    NoRegexTerm,
    /// The regex segment is empty.
    EmptyRegex,
    /// The regex engine refused the regex segment.
    BadRegex,
    /// A substitution without a regex.
    SubNeedsRegex,
    /// A replacement segment without its closing `/`.
    NoRepTerm,
    /// A print rule without a regex.
    PrintNeedsRegex,
}

/// Whether a character has the Unicode `White_Space` property.
pub open spec fn spec_is_ws(c: char) -> bool {
    ||| c == ' '
    ||| c == '\t'
    ||| c == '\n'
    ||| c == '\u{b}'
    ||| c == '\u{c}'
    ||| c == '\r'
    ||| c == '\u{85}'
    ||| c == '\u{a0}'
    ||| c == '\u{1680}'
    ||| ('\u{2000}' <= c && c <= '\u{200a}')
    ||| c == '\u{2028}'
    ||| c == '\u{2029}'
    ||| c == '\u{202f}'
    ||| c == '\u{205f}'
    ||| c == '\u{3000}'
}

/// Whether a character has the Unicode `White_Space` property.
pub fn is_ws(c: char) -> (r: bool)
    ensures
        r == spec_is_ws(c),
{
    c == ' ' || c == '\t' || c == '\n' || c == '\u{b}' || c == '\u{c}' || c == '\r' || c
        == '\u{85}' || c == '\u{a0}' || c == '\u{1680}' || ('\u{2000}' <= c && c <= '\u{200a}')
        || c == '\u{2028}' || c == '\u{2029}' || c == '\u{202f}' || c == '\u{205f}' || c
        == '\u{3000}'
}

/// Whether every character of a segment is whitespace.
pub open spec fn all_ws(seg: Seq<char>) -> bool {
    forall|i: int| 0 <= i < seg.len() ==> spec_is_ws(seg[i])
}

/// Where an escape-aware scan started at `i` stops: the position of the
/// first unescaped `/` at or after `i`, or the end of the string when there
/// is none; `None` when the scan runs off the end behind a backslash.
pub open spec fn scan_end(s: Seq<char>, i: int) -> Option<int>
    decreases s.len() - i when 0 <= i <= s.len()
{
    if i >= s.len() {
        Some(s.len() as int)
    } else if s[i] == '/' {
        Some(i)
    } else if s[i] == '\\' {
        if i + 1 >= s.len() {
            None
        } else {
            scan_end(s, i + 2)
        }
    } else {
        scan_end(s, i + 1)
    }
}

/// What parsing the rest of a rule yields once the operation letter and the
/// first separator are fixed: the optional selector segment, then the
/// optional regex segment, then for substitutions the replacement segment.
pub open spec fn spec_parse_after_op(s: Seq<char>, opk: char, sep0: char, start0: int) -> Result<
    SedModel,
    ParseFail,
> {
    if sep0 == ';' {
        match scan_end(s, start0) {
            None => Err(ParseFail::DanglingEscape),
            Some(end) => {
                let sel_src = s.subrange(start0, end);
                if all_ws(sel_src) {
                    Err(ParseFail::EmptySelector)
                } else if !sel_valid(sel_src) {
                    Err(ParseFail::BadSelector)
                } else {
                    spec_parse_regex_part(s, opk, Some(sel_src), end < s.len(), end + 1)
                }
            },
        }
    } else {
        spec_parse_regex_part(s, opk, None, sep0 == '/', start0)
    }
}

/// What parsing from the regex segment on yields.
pub open spec fn spec_parse_regex_part(
    s: Seq<char>,
    opk: char,
    sel: Option<Seq<char>>,
    has_regex: bool,
    start: int,
) -> Result<SedModel, ParseFail> {
    if has_regex {
        match scan_end(s, start) {
            None => Err(ParseFail::DanglingEscape),
            Some(end) => {
                if end >= s.len() {
                    Err(ParseFail::NoRegexTerm)
                } else {
                    let reg_src = s.subrange(start, end);
                    if reg_src.len() == 0 {
                        Err(ParseFail::EmptyRegex)
                    } else if !re_valid(reg_src) {
                        Err(ParseFail::BadRegex)
                    } else {
                        spec_parse_rep_part(s, opk, sel, Some(reg_src), end + 1)
                    }
                }
            },
        }
    } else {
        spec_parse_rep_part(s, opk, sel, None, start)
    }
}

/// What parsing from the replacement segment on yields.
pub open spec fn spec_parse_rep_part(
    s: Seq<char>,
    opk: char,
    sel: Option<Seq<char>>,
    reg: Option<Seq<char>>,
    start: int,
) -> Result<SedModel, ParseFail> {
    if opk == 's' {
        if reg is None {
            Err(ParseFail::SubNeedsRegex)
        } else {
            match scan_end(s, start) {
                None => Err(ParseFail::DanglingEscape),
                Some(end) => {
                    if end >= s.len() {
                        Err(ParseFail::NoRepTerm)
                    } else {
                        spec_parse_finish(opk, sel, reg, Some(s.subrange(start, end)))
                    }
                },
            }
        }
    } else {
        spec_parse_finish(opk, sel, reg, None)
    }
}

/// The model a fully scanned rule compiles to.
pub open spec fn spec_parse_finish(
    opk: char,
    sel: Option<Seq<char>>,
    reg: Option<Seq<char>>,
    rep: Option<Seq<char>>,
) -> Result<SedModel, ParseFail> {
    if opk == 'p' && reg is None {
        Err(ParseFail::PrintNeedsRegex)
    } else {
        let op = if opk == 'd' {
            OpModel::Delete
        } else if opk == 's' {
            OpModel::Replace(rep->0)
        } else if opk == 'p' {
            OpModel::Print
        } else if opk == 'P' {
            OpModel::PrintAll
        } else {
            OpModel::Match
        };
        Ok(SedModel { op, sel, reg })
    }
}

/// What compiling a rule string yields: the model of the compiled rule, or
/// the first failure the grammar meets.
pub open spec fn spec_parse(s: Seq<char>) -> Result<SedModel, ParseFail> {
    if s.len() == 0 {
        Err(ParseFail::Empty)
    } else {
        let opk = s[0];
        if !(opk == 's' || opk == 'd' || opk == 'p' || opk == 'P' || opk == '/' || opk == ';') {
            Err(ParseFail::BadOp(opk))
        } else if opk == '/' || opk == ';' {
            spec_parse_after_op(s, opk, opk, 1)
        } else if s.len() < 2 {
            Err(ParseFail::NoSelector)
        } else if !(s[1] == '/' || s[1] == ';') {
            Err(ParseFail::BadSep(s[1]))
        } else {
            spec_parse_after_op(s, opk, s[1], 2)
        }
    }
}

/// Why a rule string failed to compile.
#[derive(Debug)]
pub struct SedParseErr {
    pub fail: ParseFailExec,
}

/// The executable form of a parse failure.
#[derive(Debug)]
pub enum ParseFailExec {
    Empty,
    BadOp(char),
    NoSelector,
    BadSep(char),
    DanglingEscape,
    EmptySelector,
    BadSelector,
    NoRegexTerm,
    EmptyRegex,
    BadRegex,
    SubNeedsRegex,
    NoRepTerm,
    PrintNeedsRegex,
}

impl ParseFailExec {
    /// The mathematical value of this failure.
    pub open spec fn view(&self) -> ParseFail {
        match self {
            ParseFailExec::Empty => ParseFail::Empty,
            ParseFailExec::BadOp(c) => ParseFail::BadOp(*c),
            ParseFailExec::NoSelector => ParseFail::NoSelector,
            ParseFailExec::BadSep(c) => ParseFail::BadSep(*c),
            ParseFailExec::DanglingEscape => ParseFail::DanglingEscape,
            ParseFailExec::EmptySelector => ParseFail::EmptySelector,
            ParseFailExec::BadSelector => ParseFail::BadSelector,
            ParseFailExec::NoRegexTerm => ParseFail::NoRegexTerm,
            ParseFailExec::EmptyRegex => ParseFail::EmptyRegex,
            ParseFailExec::BadRegex => ParseFail::BadRegex,
            ParseFailExec::SubNeedsRegex => ParseFail::SubNeedsRegex,
            ParseFailExec::NoRepTerm => ParseFail::NoRepTerm,
            ParseFailExec::PrintNeedsRegex => ParseFail::PrintNeedsRegex,
        }
    }
}

impl SedParseErr {
    /// The mathematical value of this failure.
    pub open spec fn view(&self) -> ParseFail {
        self.fail@
    }

    /// A human-readable description of the failure.
    pub fn message(&self) -> String {
        let mut out: Vec<char> = Vec::new();
        match &self.fail {
            ParseFailExec::Empty => crate::escape::push_str_chars("empty string", &mut out),
            ParseFailExec::BadOp(c) => {
                crate::escape::push_str_chars("'", &mut out);
                out.push(*c);
                crate::escape::push_str_chars("' is not a valid sed operation", &mut out);
            },
            ParseFailExec::NoSelector => crate::escape::push_str_chars("no selector", &mut out),
            ParseFailExec::BadSep(c) => {
                crate::escape::push_str_chars("expected either '/' or ';' but found '", &mut out);
                out.push(*c);
                crate::escape::push_str_chars("'", &mut out);
            },
            ParseFailExec::DanglingEscape => crate::escape::push_str_chars(
                "backslash without escaped character",
                &mut out,
            ),
            ParseFailExec::EmptySelector => crate::escape::push_str_chars(
                "cannot use empty selector",
                &mut out,
            ),
            ParseFailExec::BadSelector => crate::escape::push_str_chars(
                "invalid selector",
                &mut out,
            ),
            ParseFailExec::NoRegexTerm => crate::escape::push_str_chars(
                "no trailing '/' for regex",
                &mut out,
            ),
            ParseFailExec::EmptyRegex => crate::escape::push_str_chars(
                "cannot use empty regex",
                &mut out,
            ),
            ParseFailExec::BadRegex => crate::escape::push_str_chars("invalid regex", &mut out),
            ParseFailExec::SubNeedsRegex => crate::escape::push_str_chars(
                "substitute requires replacement",
                &mut out,
            ),
            ParseFailExec::NoRepTerm => crate::escape::push_str_chars(
                "no trailing '/' for replacement",
                &mut out,
            ),
            ParseFailExec::PrintNeedsRegex => crate::escape::push_str_chars(
                "'p' directive requires regex (try 'P')",
                &mut out,
            ),
        }
        crate::strutil::string_from_chars(&out)
    }
}

/// Where an escape-aware scan started at `i` stops.
fn scan_seg(v: &Vec<char>, i: usize) -> (r: Option<usize>)
    requires
        i <= v@.len(),
    ensures
        r is Some <==> scan_end(v@, i as int) is Some,
        r is Some ==> i <= r->0 <= v@.len() && r->0 == scan_end(v@, i as int)->0,
        r is Some && r->0 < v@.len() ==> v@[r->0 as int] == '/',
    decreases v@.len() - i,
{
    if i >= v.len() {
        Some(v.len())
    } else if v[i] == '/' {
        Some(i)
    } else if v[i] == '\\' {
        if i + 1 >= v.len() {
            None
        } else {
            scan_seg(v, i + 2)
        }
    } else {
        scan_seg(v, i + 1)
    }
}

/// The characters of `v` from `a` (inclusive) to `b` (exclusive).
pub fn subvec(v: &Vec<char>, a: usize, b: usize) -> (r: Vec<char>)
    requires
        a <= b <= v@.len(),
    ensures
        r@ == v@.subrange(a as int, b as int),
{
    let mut r: Vec<char> = Vec::new();
    let mut i: usize = a;
    while i < b
        invariant
            a <= i <= b <= v@.len(),
            r@ == v@.subrange(a as int, i as int),
        decreases b - i,
    {
        r.push(v[i]);
        i = i + 1;
        proof {
            assert(r@ =~= v@.subrange(a as int, i as int));
        }
    }
    proof {
        assert(r@ =~= v@.subrange(a as int, b as int));
    }
    r
}

/// Whether every character of `v` in `[a, b)` is whitespace.
fn all_ws_range(v: &Vec<char>, a: usize, b: usize) -> (r: bool)
    requires
        a <= b <= v@.len(),
    ensures
        r == all_ws(v@.subrange(a as int, b as int)),
{
    let ghost seg = v@.subrange(a as int, b as int);
    let mut i: usize = a;
    while i < b
        invariant
            a <= i <= b <= v@.len(),
            seg == v@.subrange(a as int, b as int),
            forall|j: int| 0 <= j < i - a ==> spec_is_ws(seg[j]),
        decreases b - i,
    {
        let ws = is_ws(v[i]);
        proof {
            assert(seg[i - a] == v@[i as int]);
        }
        if !ws {
            assert(!spec_is_ws(seg[i - a]));
            return false;
        }
        i = i + 1;
    }
    true
}

impl Sed {
    /// Compiles a rule string; the result's model is exactly what the
    /// grammar assigns to the string, and compilation succeeds exactly when
    /// the grammar accepts it.
    pub fn new(s: &str) -> (r: Result<Sed, SedParseErr>)
        ensures
            r is Ok <==> spec_parse(s@) is Ok,
            r is Ok ==> r->Ok_0.wf() && r->Ok_0@ == spec_parse(s@)->Ok_0,
            r is Err ==> r->Err_0@ == spec_parse(s@)->Err_0,
    {
        let v = crate::strutil::chars_of(s);
        parse_sed_chars(&v)
    }

    /// Compiles a rule string and requires the result to be a bare matcher:
    /// a rule with no operation letter.
    pub fn new_matcher(s: &str) -> (r: Result<Sed, SedParseErr>)
        ensures
            r is Ok <==> (spec_parse(s@) matches Ok(m) && m.op is Match),
            r is Ok ==> r->Ok_0.wf() && r->Ok_0@ == spec_parse(s@)->Ok_0,
    {
        let sed = match Sed::new(s) {
            Ok(sed) => sed,
            Err(e) => {
                return Err(e);
            },
        };
        if !sed.is_matcher() {
            return Err(SedParseErr { fail: ParseFailExec::BadOp(' ') });
        }
        Ok(sed)
    }
}

/// Compiles a rule given as its character sequence.
fn parse_sed_chars(v: &Vec<char>) -> (r: Result<Sed, SedParseErr>)
    ensures
        r is Ok <==> spec_parse(v@) is Ok,
        r is Ok ==> r->Ok_0.wf() && r->Ok_0@ == spec_parse(v@)->Ok_0,
        r is Err ==> r->Err_0@ == spec_parse(v@)->Err_0,
{
    if v.len() == 0 {
        return Err(SedParseErr { fail: ParseFailExec::Empty });
    }
    let opk = v[0];
    if !(opk == 's' || opk == 'd' || opk == 'p' || opk == 'P' || opk == '/' || opk == ';') {
        return Err(SedParseErr { fail: ParseFailExec::BadOp(opk) });
    }
    let sep0: char;
    let start0: usize;
    if opk == '/' || opk == ';' {
        sep0 = opk;
        start0 = 1;
    } else {
        if v.len() < 2 {
            return Err(SedParseErr { fail: ParseFailExec::NoSelector });
        }
        let c = v[1];
        if !(c == '/' || c == ';') {
            return Err(SedParseErr { fail: ParseFailExec::BadSep(c) });
        }
        sep0 = c;
        start0 = 2;
    }

    // selector segment
    let mut sel: Option<(scraper::Selector, String)> = None;
    let has_regex: bool;
    let reg_start: usize;
    if sep0 == ';' {
        let end = match scan_seg(v, start0) {
            Some(end) => end,
            None => {
                return Err(SedParseErr { fail: ParseFailExec::DanglingEscape });
            },
        };
        if all_ws_range(v, start0, end) {
            proof {
                assert(all_ws(v@.subrange(start0 as int, end as int)));
            }
            return Err(SedParseErr { fail: ParseFailExec::EmptySelector });
        }
        let sel_chars = subvec(v, start0, end);
        let sel_str = crate::strutil::string_from_chars(&sel_chars);
        let compiled = match crate::engines::selector_new(sel_str.as_str()) {
            Some(c) => c,
            None => {
                return Err(SedParseErr { fail: ParseFailExec::BadSelector });
            },
        };
        sel = Some((compiled, sel_str));
        has_regex = end < v.len();
        reg_start = if end < v.len() {
            end + 1
        } else {
            end
        };
    } else {
        has_regex = sep0 == '/';
        reg_start = start0;
    }

    // regex segment
    let mut reg: Option<(regex_lite::Regex, String)> = None;
    let rep_start: usize;
    if has_regex {
        let end = match scan_seg(v, reg_start) {
            Some(end) => end,
            None => {
                return Err(SedParseErr { fail: ParseFailExec::DanglingEscape });
            },
        };
        if end >= v.len() {
            return Err(SedParseErr { fail: ParseFailExec::NoRegexTerm });
        }
        if end == reg_start {
            proof {
                assert(v@.subrange(reg_start as int, end as int).len() == 0);
            }
            return Err(SedParseErr { fail: ParseFailExec::EmptyRegex });
        }
        let reg_chars = subvec(v, reg_start, end);
        let reg_str = crate::strutil::string_from_chars(&reg_chars);
        let compiled = match crate::engines::regex_new(reg_str.as_str()) {
            Some(c) => c,
            None => {
                return Err(SedParseErr { fail: ParseFailExec::BadRegex });
            },
        };
        reg = Some((compiled, reg_str));
        rep_start = end + 1;
    } else {
        rep_start = reg_start;
    }

    // replacement segment
    let mut rep: Option<String> = None;
    if opk == 's' {
        if reg.is_none() {
            return Err(SedParseErr { fail: ParseFailExec::SubNeedsRegex });
        }
        let end = match scan_seg(v, rep_start) {
            Some(end) => end,
            None => {
                return Err(SedParseErr { fail: ParseFailExec::DanglingEscape });
            },
        };
        if end >= v.len() {
            return Err(SedParseErr { fail: ParseFailExec::NoRepTerm });
        }
        let rep_chars = subvec(v, rep_start, end);
        rep = Some(crate::strutil::string_from_chars(&rep_chars));
    }

    if opk == 'p' && reg.is_none() {
        return Err(SedParseErr { fail: ParseFailExec::PrintNeedsRegex });
    }

    let op = if opk == 'd' {
        Op::Delete
    } else if opk == 's' {
        Op::Replace(rep.unwrap())
    } else if opk == 'p' {
        Op::Print
    } else if opk == 'P' {
        Op::PrintAll
    } else {
        Op::Match
    };

    Ok(Sed { op, sel, reg })
}

impl PartialEq for Sed {
    /// Two rules are equal when their operations, selector source texts and
    /// regex source texts are equal; compiled forms are not compared.
    fn eq(&self, other: &Self) -> (r: bool)
        ensures
            r == (self@ == other@),
    {
        let op_eq = match (&self.op, &other.op) {
            (Op::Match, Op::Match) => true,
            (Op::Delete, Op::Delete) => true,
            (Op::Print, Op::Print) => true,
            (Op::PrintAll, Op::PrintAll) => true,
            (Op::Replace(a), Op::Replace(b)) => crate::strutil::streq(a.as_str(), b.as_str()),
            _ => false,
        };
        let sel_eq = match (&self.sel, &other.sel) {
            (None, None) => true,
            (Some(a), Some(b)) => crate::strutil::streq(a.1.as_str(), b.1.as_str()),
            _ => false,
        };
        let reg_eq = match (&self.reg, &other.reg) {
            (None, None) => true,
            (Some(a), Some(b)) => crate::strutil::streq(a.1.as_str(), b.1.as_str()),
            _ => false,
        };
        let r = op_eq && sel_eq && reg_eq;
        proof {
            if r {
                assert(self@.op == other@.op);
                assert(self@.sel == other@.sel);
                assert(self@.reg == other@.reg);
            }
        }
        r
    }
}

impl vstd::std_specs::cmp::PartialEqSpecImpl for Sed {
    open spec fn obeys_eq_spec() -> bool {
        true
    }

    open spec fn eq_spec(&self, other: &Self) -> bool {
        self@ == other@
    }
}

/// Whether a vector of node ids holds the given id.
fn contains_id(v: &Vec<ego_tree::NodeId>, id: &ego_tree::NodeId) -> (r: bool)
    ensures
        r == v@.contains(*id),
{
    let mut i: usize = 0;
    while i < v.len()
        invariant
            i <= v@.len(),
            forall|j: int| 0 <= j < i ==> v@[j] != *id,
        decreases v@.len() - i,
    {
        if crate::engines::node_id_eq(&v[i], id) {
            return true;
        }
        i = i + 1;
    }
    false
}

/// The set of nodes appearing in any of the given ancestor chains, computed
/// with an early stop: walking one chain ends as soon as a node already in
/// the set is met, because coherent chains share everything above a shared
/// node.
pub fn ancestor_closure(chains: &Vec<Vec<ego_tree::NodeId>>) -> (r: Vec<ego_tree::NodeId>)
    requires
        crate::engines::chains_coherent(chains@.map_values(|v: Vec<ego_tree::NodeId>| v@)),
    ensures
        forall|id: ego_tree::NodeId|
            #[trigger] r@.contains(id) <==> exists|k: int|
                0 <= k < chains@.len() && (#[trigger] chains@[k]@).contains(id),
{
    let ghost cs = chains@.map_values(|v: Vec<ego_tree::NodeId>| v@);
    let mut out: Vec<ego_tree::NodeId> = Vec::new();
    let mut k: usize = 0;
    while k < chains.len()
        invariant
            cs == chains@.map_values(|v: Vec<ego_tree::NodeId>| v@),
            crate::engines::chains_coherent(cs),
            k <= cs.len(),
            forall|id: ego_tree::NodeId|
                #[trigger] out@.contains(id) <==> exists|k0: int|
                    0 <= k0 < k && (#[trigger] cs[k0]).contains(id),
            forall|k2: int, j2: int|
                0 <= k2 < cs.len() && 0 <= j2 < cs[k2].len() && out@.contains(#[trigger] cs[k2][j2])
                    ==> forall|j3: int| j2 <= j3 < cs[k2].len() ==> out@.contains(cs[k2][j3]),
        decreases cs.len() - k,
    {
        let chain = &chains[k];
        let ghost c = cs[k as int];
        let ghost out0 = out@;
        let mut j: usize = 0;
        let mut stopped = false;
        while j < chain.len() && !stopped
            invariant
                cs == chains@.map_values(|v: Vec<ego_tree::NodeId>| v@),
                crate::engines::chains_coherent(cs),
                c == cs[k as int],
                chain@ == c,
                0 <= k < cs.len(),
                j <= c.len(),
                forall|id: ego_tree::NodeId|
                    #[trigger] out@.contains(id) <==> (out0.contains(id) || c.subrange(
                        0,
                        j as int,
                    ).contains(id)),
                forall|k2: int, j2: int|
                    0 <= k2 < cs.len() && 0 <= j2 < cs[k2].len() && out0.contains(
                        #[trigger] cs[k2][j2],
                    ) ==> forall|j3: int| j2 <= j3 < cs[k2].len() ==> out0.contains(cs[k2][j3]),
                stopped ==> j < c.len() && out0.contains(c[j as int]),
                !stopped ==> forall|j2: int| 0 <= j2 < j ==> !out0.contains(#[trigger] c[j2]),
            decreases c.len() - j, (if stopped { 0int } else { 1int }),
        {
            if contains_id(&out, &chain[j]) {
                // the id was already present: either it came from an earlier
                // chain, or it repeats inside this one, which coherence rules
                // out
                proof {
                    if !out0.contains(c[j as int]) {
                        let l = choose|l: int|
                            0 <= l < j && #[trigger] c.subrange(0, j as int)[l] == c[j as int];
                        assert(c.subrange(0, j as int)[l] == c[l]);
                        assert(cs[k as int][l] == cs[k as int][j as int]);
                        assert(cs[k as int].skip(l) == cs[k as int].skip(j as int));
                        assert(cs[k as int].skip(l).len() == c.len() - l);
                        assert(cs[k as int].skip(j as int).len() == c.len() - j);
                        assert(false);
                    }
                }
                stopped = true;
            } else {
                let ghost out_prev = out@;
                out.push(chain[j]);
                proof {
                    assert(out@ == out_prev.push(c[j as int]));
                    assert forall|id: ego_tree::NodeId| #[trigger] out@.contains(id) <==> (
                    out0.contains(id) || c.subrange(0, j as int + 1).contains(id)) by {
                        if out@.contains(id) {
                            let w = choose|w: int| 0 <= w < out@.len() && out@[w] == id;
                            if w < out_prev.len() {
                                assert(out_prev[w] == id);
                                assert(out_prev.contains(id));
                            } else {
                                assert(id == c[j as int]);
                                assert(c.subrange(0, j as int + 1)[j as int] == c[j as int]);
                            }
                        }
                        if out0.contains(id) {
                            assert(out_prev.contains(id));
                            let w = choose|w: int| 0 <= w < out_prev.len() && out_prev[w] == id;
                            assert(out@[w] == id);
                        }
                        if c.subrange(0, j as int + 1).contains(id) {
                            let w = choose|w: int|
                                0 <= w < j + 1 && #[trigger] c.subrange(0, j as int + 1)[w] == id;
                            if w < j {
                                assert(c.subrange(0, j as int)[w] == id);
                                assert(c.subrange(0, j as int).contains(id));
                                assert(out_prev.contains(id));
                                let w2 = choose|w2: int|
                                    0 <= w2 < out_prev.len() && out_prev[w2] == id;
                                assert(out@[w2] == id);
                            } else {
                                assert(id == c[j as int]);
                                assert(out@[out@.len() - 1] == id);
                            }
                        }
                    }
                }
                j = j + 1;
            }
        }
        proof {
            // after the walk the whole chain is in the set
            assert forall|l: int| 0 <= l < c.len() implies out@.contains(c[l]) by {
                if stopped {
                    if l < j {
                        assert(c.subrange(0, j as int)[l] == c[l]);
                        assert(c.subrange(0, j as int).contains(c[l]));
                    } else {
                        assert(out0.contains(cs[k as int][j as int]));
                        assert(out0.contains(cs[k as int][l]));
                    }
                } else {
                    assert(j == c.len());
                    assert(c.subrange(0, j as int)[l] == c[l]);
                    assert(c.subrange(0, j as int).contains(c[l]));
                }
            }
            // membership after this chain
            assert forall|id: ego_tree::NodeId| #[trigger] out@.contains(id) <==> exists|k0: int|
                0 <= k0 < k + 1 && (#[trigger] cs[k0]).contains(id) by {
                if out@.contains(id) {
                    if out0.contains(id) {
                        let k0 = choose|k0: int| 0 <= k0 < k && (#[trigger] cs[k0]).contains(id);
                        assert(0 <= k0 < k + 1 && cs[k0].contains(id));
                    } else {
                        let w = choose|w: int|
                            0 <= w < j && #[trigger] c.subrange(0, j as int)[w] == id;
                        assert(c[w] == id);
                        assert(cs[k as int].contains(id));
                    }
                }
                if exists|k0: int| 0 <= k0 < k + 1 && (#[trigger] cs[k0]).contains(id) {
                    let k0 = choose|k0: int| 0 <= k0 < k + 1 && (#[trigger] cs[k0]).contains(id);
                    if k0 < k {
                        assert(out0.contains(id));
                    } else {
                        let w = choose|w: int| 0 <= w < c.len() && #[trigger] c[w] == id;
                        assert(out@.contains(c[w]));
                    }
                }
            }
            // the set stays closed under chain suffixes
            assert forall|k2: int, j2: int|
                0 <= k2 < cs.len() && 0 <= j2 < cs[k2].len() && out@.contains(
                    #[trigger] cs[k2][j2],
                ) implies forall|j3: int| j2 <= j3 < cs[k2].len() ==> out@.contains(cs[k2][j3]) by {
                if out0.contains(cs[k2][j2]) {
                    assert(forall|j3: int| j2 <= j3 < cs[k2].len() ==> out0.contains(cs[k2][j3]));
                    assert forall|j3: int| j2 <= j3 < cs[k2].len() implies out@.contains(
                        cs[k2][j3],
                    ) by {
                        assert(out0.contains(cs[k2][j3]));
                    }
                } else {
                    // it was added from the current chain
                    let w = choose|w: int|
                        0 <= w < j && #[trigger] c.subrange(0, j as int)[w] == cs[k2][j2];
                    assert(c.subrange(0, j as int)[w] == c[w]);
                    assert(cs[k as int][w] == cs[k2][j2]);
                    assert(cs[k as int].skip(w) == cs[k2].skip(j2));
                    assert forall|j3: int| j2 <= j3 < cs[k2].len() implies out@.contains(
                        cs[k2][j3],
                    ) by {
                        assert(cs[k2].skip(j2)[j3 - j2] == cs[k2][j3]);
                        assert(cs[k as int].skip(w).len() == cs[k2].skip(j2).len());
                        assert(0 <= w + j3 - j2 < c.len());
                        assert(cs[k as int].skip(w)[j3 - j2] == cs[k as int][w + j3 - j2]);
                        assert(cs[k as int][w + j3 - j2] == cs[k2][j3]);
                        assert(out@.contains(c[w + j3 - j2]));
                    }
                }
            }
        }
        k = k + 1;
    }
    proof {
        assert(forall|k0: int| 0 <= k0 < cs.len() ==> cs[k0] == (#[trigger] chains@[k0])@);
        assert forall|id: ego_tree::NodeId| #[trigger] out@.contains(id) <==> exists|k0: int|
            0 <= k0 < chains@.len() && (#[trigger] chains@[k0]@).contains(id) by {
            if out@.contains(id) {
                let k0 = choose|k0: int| 0 <= k0 < cs.len() && (#[trigger] cs[k0]).contains(id);
                assert(chains@[k0]@.contains(id));
            }
            if exists|k0: int| 0 <= k0 < chains@.len() && (#[trigger] chains@[k0]@).contains(id) {
                let k0 = choose|k0: int|
                    0 <= k0 < chains@.len() && (#[trigger] chains@[k0]@).contains(id);
                assert(cs[k0].contains(id));
            }
        }
    }
    out
}

/// Whether a vector of text entries holds the given node id.
fn contains_text_id(v: &Vec<(ego_tree::NodeId, String)>, id: &ego_tree::NodeId) -> (r: bool)
    ensures
        r == exists|j: int| 0 <= j < v@.len() && (#[trigger] v@[j]).0 == *id,
{
    let mut i: usize = 0;
    while i < v.len()
        invariant
            i <= v@.len(),
            forall|j: int| 0 <= j < i ==> (#[trigger] v@[j]).0 != *id,
        decreases v@.len() - i,
    {
        if crate::engines::node_id_eq(&v[i].0, id) {
            return true;
        }
        i = i + 1;
    }
    false
}

/// Whether a sequence of text node entries holds an entry with the given id.
pub open spec fn spec_has_text_id(ts: Seq<(ego_tree::NodeId, Seq<char>)>, id: ego_tree::NodeId) -> bool {
    exists|j: int| 0 <= j < ts.len() && ts[j].0 == id
}

/// Whether the node `id` lies on the ancestor chain of some text node of
/// `h` whose content matches the regex with source `reg`.
pub open spec fn spec_on_match_chain(h: scraper::Html, reg: Seq<char>, id: ego_tree::NodeId) -> bool {
    exists|k: int, a: int|
        {
            &&& 0 <= k < doc_texts(h).len()
            &&& re_match(reg, doc_texts(h)[k].1)
            &&& 0 <= a < doc_ancestors(h, doc_texts(h)[k].0).len()
            &&& doc_ancestors(h, doc_texts(h)[k].0)[a] == id
        }
}

/// Whether a delete pass detaches the `i`-th selector-selected element of
/// `h`: with a regex, the element must lie on the ancestor chain of some
/// regex-matched text node; without one, every selected element goes.
pub open spec fn spec_del_hits(m: SedModel, h: scraper::Html, i: int) -> bool {
    match m.reg {
        Some(r) => spec_on_match_chain(h, r, doc_selected(h, m.sel->0)[i]),
        None => true,
    }
}

/// The document after the first `n` selector-selected elements of `h` that
/// the delete pass orders detached have been detached, left to right. Which
/// elements go is judged against the original document `h`: the pass
/// computes its text matches, chains and selection once, before mutating.
pub open spec fn spec_del_fold(m: SedModel, h: scraper::Html, n: int) -> scraper::Html
    decreases n,
{
    if n <= 0 {
        h
    } else if spec_del_hits(m, h, n - 1) {
        detached(spec_del_fold(m, h, n - 1), doc_selected(h, m.sel->0)[n - 1])
    } else {
        spec_del_fold(m, h, n - 1)
    }
}

/// The whole result of a delete pass on `h`: the selected elements the rule
/// orders deleted are detached left to right, then the document is
/// serialized and reparsed from scratch. A serialization too large for the
/// parser's 32-bit text buffers cannot be reparsed and leaves the detached
/// tree as it stands.
pub open spec fn spec_apply_deletes(m: SedModel, h: scraper::Html) -> scraper::Html {
    let folded = spec_del_fold(m, h, doc_selected(h, m.sel->0).len() as int);
    if crate::strutil::spec_byte_len(serialize_of(folded)) < 2147483648 {
        parse_of(serialize_of(folded))
    } else {
        folded
    }
}

/// Whether the scan over the selected elements of `h` scopes the `i`-th one
/// out of a substitute pass: some selected element at or before position
/// `i` is an ancestor of it. An element is never its own ancestor, so this
/// keeps exactly the outermost matches the scan keeps.
pub open spec fn spec_sub_suppressed(h: scraper::Html, src: Seq<char>, i: int) -> bool {
    exists|j: int, a: int|
        {
            &&& 0 <= j <= i
            &&& 0 <= a < doc_ancestors(h, doc_selected(h, src)[i]).len()
            &&& doc_ancestors(h, doc_selected(h, src)[i])[a] == doc_selected(h, src)[j]
        }
}

/// Whether a substitute pass rewrites the `k`-th text node of `h`: its
/// content matches the regex and, when the rule has a selector, it lies
/// under some selected element the scan keeps.
pub open spec fn spec_sub_rewrites(m: SedModel, h: scraper::Html, k: int) -> bool {
    &&& re_match(m.reg->0, doc_texts(h)[k].1)
    &&& match m.sel {
        Some(src) => exists|i: int|
            {
                &&& 0 <= i < doc_selected(h, src).len()
                &&& !spec_sub_suppressed(h, src, i)
                &&& spec_has_text_id(
                    doc_subtree_texts(h, doc_selected(h, src)[i]),
                    doc_texts(h)[k].0,
                )
            },
        None => true,
    }
}

/// What a substitute pass writes for a matched content: the rewritten text
/// when it fits the tree's 32-bit text buffers, the content unchanged
/// otherwise.
pub open spec fn spec_guarded_apply(m: SedModel, t: Seq<char>) -> Seq<char> {
    if crate::strutil::spec_byte_len(spec_apply_text(m, t)) < 4294967296 {
        spec_apply_text(m, t)
    } else {
        t
    }
}

/// The content a substitute pass leaves in the `k`-th text node of `h`.
pub open spec fn spec_sub_content(m: SedModel, h: scraper::Html, k: int) -> Seq<char> {
    if spec_sub_rewrites(m, h, k) {
        spec_guarded_apply(m, doc_texts(h)[k].1)
    } else {
        doc_texts(h)[k].1
    }
}

/// Whether a list of collected text entries holds the given id.
spec fn spec_collected(entries: Seq<(ego_tree::NodeId, String)>, id: ego_tree::NodeId) -> bool {
    exists|j: int| 0 <= j < entries.len() && entries[j].0 == id
}

/// Whether the first `n` collected text entries hold the given id.
spec fn spec_collected_before(
    entries: Seq<(ego_tree::NodeId, String)>,
    n: int,
    id: ego_tree::NodeId,
) -> bool {
    exists|j: int| 0 <= j < n && j < entries.len() && entries[j].0 == id
}

/// The record a substitute pass keeps for one collected text node: the id
/// carries this content wherever it appears among the document's text
/// nodes, the content matches the regex, and, with a selector, the node
/// lies under some selected element the scan keeps.
spec fn spec_sub_entry_ok(m: SedModel, h: scraper::Html, id: ego_tree::NodeId, c: Seq<char>) -> bool {
    &&& forall|k: int|
        0 <= k < doc_texts(h).len() && (#[trigger] doc_texts(h)[k]).0 == id ==> doc_texts(h)[k].1
            == c
    &&& re_match(m.reg->0, c)
    &&& match m.sel {
        Some(src) => exists|i: int|
            {
                &&& 0 <= i < doc_selected(h, src).len()
                &&& !spec_sub_suppressed(h, src, i)
                &&& spec_has_text_id(doc_subtree_texts(h, doc_selected(h, src)[i]), id)
            },
        None => true,
    }
}

impl Sed {
    /// Applies a destructive rule to a whole document in one eager pass.
    /// Non-destructive rules leave the document untouched. Deletion
    /// serializes and reparses the document afterwards, since the tree's
    /// internal caches cannot be trusted across structural mutation.
    pub fn apply_full_expensive(&self, html: &mut scraper::Html)
        requires
            self.wf(),
            self@.op is Delete ==> self@.sel is Some,
        ensures
            !(self@.op is Delete || self@.op is Replace) ==> *final(html) == *old(html),
            self@.op is Delete ==> *final(html) == spec_apply_deletes(self@, *old(html)),
            self@.op is Replace ==> doc_texts(*final(html)).len() == doc_texts(*old(html)).len(),
            self@.op is Replace ==> forall|k: int|
                0 <= k < doc_texts(*old(html)).len() ==> (#[trigger] doc_texts(*final(html))[k]).0
                    == doc_texts(*old(html))[k].0,
            self@.op is Replace ==> forall|k: int|
                0 <= k < doc_texts(*old(html)).len() ==> (#[trigger] doc_texts(*final(html))[k]).1
                    == spec_sub_content(self@, *old(html), k),
            self@.op is Replace ==> forall|src: Seq<char>| #[trigger]
                doc_selected(*final(html), src) == doc_selected(*old(html), src),
            self@.op is Replace ==> forall|id2: ego_tree::NodeId| #[trigger]
                doc_ancestors(*final(html), id2) == doc_ancestors(*old(html), id2),
    {
        if !self.is_destructive() {
            return ;
        }
        if self.is_del() {
            self.apply_deletes_expensive(html);
        } else {
            self.apply_subs_expensive(html);
        }
    }

    /// Deletes, in one pass, every selector-matched element that either the
    /// rule has no regex for, or that lies on the ancestor closure of some
    /// regex-matched text node; then reparses the document.
    fn apply_deletes_expensive(&self, html: &mut scraper::Html)
        requires
            self.wf(),
            self@.op is Delete,
            self@.sel is Some,
        ensures
            *final(html) == spec_apply_deletes(self@, *old(html)),
    {
        let ghost h0 = *html;
        let ghost m = self@;
        let sel = match &self.sel {
            Some(s) => s,
            None => {
                proof {
                    assert(false);
                }
                return ;
            },
        };
        let ghost ssrc = m.sel->0;
        proof {
            assert(selector_source(sel.0) == ssrc);
        }
        if let Some(rg) = &self.reg {
            let ghost rsrc = m.reg->0;
            proof {
                assert(regex_source(rg.0) == rsrc);
            }
            let texts = crate::engines::html_text_nodes(html);
            let ghost t0 = doc_texts(h0);
            let mut reg_match_ids: Vec<ego_tree::NodeId> = Vec::new();
            let mut i: usize = 0;
            while i < texts.len()
                invariant
                    *html == h0,
                    t0 == doc_texts(h0),
                    regex_source(rg.0) == rsrc,
                    texts@.map_values(|p: (ego_tree::NodeId, String)| (p.0, p.1@)) == t0,
                    i <= texts@.len(),
                    forall|k2: int|
                        0 <= k2 < reg_match_ids@.len() ==> exists|k: int|
                            0 <= k < i && t0[k].0 == #[trigger] reg_match_ids@[k2] && re_match(
                                rsrc,
                                t0[k].1,
                            ),
                    forall|k: int|
                        0 <= k < i && re_match(rsrc, (#[trigger] t0[k]).1)
                            ==> reg_match_ids@.contains(t0[k].0),
                decreases texts@.len() - i,
            {
                proof {
                    assert(t0[i as int] == (texts@[i as int].0, texts@[i as int].1@));
                }
                let ghost prev = reg_match_ids@;
                if crate::engines::regex_is_match(&rg.0, texts[i].1.as_str()) {
                    reg_match_ids.push(crate::engines::copy_id(&texts[i].0));
                    proof {
                        assert(reg_match_ids@[prev.len() as int] == t0[i as int].0);
                        assert forall|k: int|
                            0 <= k < i + 1 && re_match(rsrc, (#[trigger] t0[k]).1) implies
                            reg_match_ids@.contains(t0[k].0) by {
                            if k < i {
                                let k2 = choose|k2: int|
                                    0 <= k2 < prev.len() && prev[k2] == t0[k].0;
                                assert(reg_match_ids@[k2] == t0[k].0);
                            } else {
                                assert(reg_match_ids@[prev.len() as int] == t0[k].0);
                            }
                        }
                    }
                }
                i = i + 1;
            }
            let chains = crate::engines::ancestor_chains(html, &reg_match_ids);
            let reg_ids = ancestor_closure(&chains);
            proof {
                assert forall|id: ego_tree::NodeId| #[trigger]
                    reg_ids@.contains(id) <==> spec_on_match_chain(h0, rsrc, id) by {
                    if reg_ids@.contains(id) {
                        let kc = choose|kc: int|
                            0 <= kc < chains@.len() && (#[trigger] chains@[kc]@).contains(id);
                        let k = choose|k: int|
                            0 <= k < t0.len() && t0[k].0 == reg_match_ids@[kc] && re_match(
                                rsrc,
                                t0[k].1,
                            );
                        let a = choose|a: int|
                            0 <= a < chains@[kc]@.len() && chains@[kc]@[a] == id;
                        assert(chains@[kc]@ == doc_ancestors(h0, t0[k].0));
                        assert(doc_ancestors(h0, t0[k].0)[a] == id);
                        assert(spec_on_match_chain(h0, rsrc, id));
                    }
                    if spec_on_match_chain(h0, rsrc, id) {
                        let (k, a) = choose|k: int, a: int|
                            {
                                &&& 0 <= k < t0.len()
                                &&& re_match(rsrc, t0[k].1)
                                &&& 0 <= a < doc_ancestors(h0, t0[k].0).len()
                                &&& doc_ancestors(h0, t0[k].0)[a] == id
                            };
                        assert(reg_match_ids@.contains(t0[k].0));
                        let kc = choose|kc: int|
                            0 <= kc < reg_match_ids@.len() && reg_match_ids@[kc] == t0[k].0;
                        assert(chains@[kc]@ == doc_ancestors(h0, t0[k].0));
                        assert(chains@[kc]@[a] == id);
                        assert(chains@[kc]@.contains(id));
                        assert(reg_ids@.contains(id));
                    }
                }
            }
            let el_ids = crate::engines::html_select_ids(html, &sel.0);
            let mut i: usize = 0;
            while i < el_ids.len()
                invariant
                    m == self@,
                    m.reg matches Some(r) && r == rsrc,
                    m.sel matches Some(s) && s == ssrc,
                    el_ids@ == doc_selected(h0, ssrc),
                    i <= el_ids@.len(),
                    forall|id: ego_tree::NodeId| #[trigger]
                        reg_ids@.contains(id) <==> spec_on_match_chain(h0, rsrc, id),
                    *html == spec_del_fold(m, h0, i as int),
                decreases el_ids@.len() - i,
            {
                let ghost before = *html;
                if contains_id(&reg_ids, &el_ids[i]) {
                    crate::engines::detach_node(html, crate::engines::copy_id(&el_ids[i]));
                    proof {
                        assert(spec_del_hits(m, h0, i as int));
                        assert(*html == detached(before, el_ids@[i as int]));
                        assert(spec_del_fold(m, h0, i as int + 1) == detached(
                            spec_del_fold(m, h0, i as int),
                            doc_selected(h0, ssrc)[i as int],
                        ));
                    }
                } else {
                    proof {
                        assert(!spec_del_hits(m, h0, i as int));
                        assert(spec_del_fold(m, h0, i as int + 1) == spec_del_fold(
                            m,
                            h0,
                            i as int,
                        ));
                    }
                }
                i = i + 1;
            }
        } else {
            let ids = crate::engines::html_select_ids(html, &sel.0);
            let mut i: usize = 0;
            while i < ids.len()
                invariant
                    m == self@,
                    m.reg is None,
                    m.sel matches Some(s) && s == ssrc,
                    ids@ == doc_selected(h0, ssrc),
                    i <= ids@.len(),
                    *html == spec_del_fold(m, h0, i as int),
                decreases ids@.len() - i,
            {
                let ghost before = *html;
                crate::engines::detach_node(html, crate::engines::copy_id(&ids[i]));
                proof {
                    assert(spec_del_hits(m, h0, i as int));
                    assert(*html == detached(before, ids@[i as int]));
                    assert(spec_del_fold(m, h0, i as int + 1) == detached(
                        spec_del_fold(m, h0, i as int),
                        doc_selected(h0, ssrc)[i as int],
                    ));
                }
                i = i + 1;
            }
        }
        let s = crate::engines::html_serialize(html);
        if (crate::strutil::str_byte_len(s.as_str()) as u64) < 2147483648u64 {
            *html = crate::engines::html_parse_document(s.as_str());
        }
    }

    /// Rewrites, in place, every regex-matched text node that lies under an
    /// outermost selector-matched element (or every regex-matched text node
    /// when the rule has no selector). Text mutation keeps the tree
    /// queryable — selection and ancestry are untouched — so no reparse is
    /// needed. A rewritten text too large for the tree's 32-bit text
    /// buffers cannot be stored and leaves that node unchanged.
    fn apply_subs_expensive(&self, html: &mut scraper::Html)
        requires
            self.wf(),
            self@.op is Replace,
        ensures
            doc_texts(*final(html)).len() == doc_texts(*old(html)).len(),
            forall|k: int|
                0 <= k < doc_texts(*old(html)).len() ==> (#[trigger] doc_texts(*final(html))[k]).0
                    == doc_texts(*old(html))[k].0,
            forall|k: int|
                0 <= k < doc_texts(*old(html)).len() ==> (#[trigger] doc_texts(*final(html))[k]).1
                    == spec_sub_content(self@, *old(html), k),
            forall|src: Seq<char>| #[trigger]
                doc_selected(*final(html), src) == doc_selected(*old(html), src),
            forall|id2: ego_tree::NodeId| #[trigger]
                doc_ancestors(*final(html), id2) == doc_ancestors(*old(html), id2),
    {
        let ghost h0 = *html;
        let ghost m = self@;
        let ghost t0 = doc_texts(h0);
        let rg = match &self.reg {
            Some(r) => r,
            None => {
                proof {
                    assert(false);
                }
                return ;
            },
        };
        let ghost rsrc = m.reg->0;
        proof {
            assert(regex_source(rg.0) == rsrc);
        }
        let mut text_ids: Vec<(ego_tree::NodeId, String)> = Vec::new();
        if let Some(sel) = &self.sel {
            let ghost ssrc = m.sel->0;
            proof {
                assert(selector_source(sel.0) == ssrc);
            }
            let els = crate::engines::html_select_ids(html, &sel.0);
            let ghost sels = doc_selected(h0, ssrc);
            let mut visited: Vec<ego_tree::NodeId> = Vec::new();
            let mut i: usize = 0;
            while i < els.len()
                invariant
                    *html == h0,
                    m == self@,
                    self.wf(),
                    m.reg matches Some(r2) && r2 == rsrc,
                    m.sel matches Some(s2) && s2 == ssrc,
                    regex_source(rg.0) == rsrc,
                    t0 == doc_texts(h0),
                    sels == doc_selected(h0, ssrc),
                    els@ == sels,
                    i <= sels.len(),
                    forall|id2: ego_tree::NodeId| #[trigger]
                        visited@.contains(id2) <==> sels.subrange(0, i as int).contains(id2),
                    forall|j: int|
                        0 <= j < text_ids@.len() ==> spec_sub_entry_ok(
                            m,
                            h0,
                            (#[trigger] text_ids@[j]).0,
                            text_ids@[j].1@,
                        ),
                    forall|j1: int, j2: int|
                        0 <= j1 < j2 < text_ids@.len() ==> (#[trigger] text_ids@[j1]).0 != (
                        #[trigger] text_ids@[j2]).0,
                    forall|k: int, i0: int|
                        0 <= k < t0.len() && re_match(rsrc, t0[k].1) && 0 <= i0 < i
                            && !spec_sub_suppressed(h0, ssrc, i0)
                            && #[trigger] spec_has_text_id(
                            doc_subtree_texts(h0, sels[i0]),
                            (#[trigger] t0[k]).0,
                        ) ==> spec_collected(text_ids@, t0[k].0),
                decreases sels.len() - i,
            {
                let id = crate::engines::copy_id(&els[i]);
                if contains_id(&visited, &id) {
                    proof {
                        assert forall|id2: ego_tree::NodeId| #[trigger]
                            visited@.contains(id2) <==> sels.subrange(0, i as int + 1).contains(
                            id2,
                        ) by {
                            if visited@.contains(id2) {
                                let w = choose|w: int|
                                    0 <= w < i && #[trigger] sels.subrange(0, i as int)[w] == id2;
                                assert(sels.subrange(0, i as int + 1)[w] == id2);
                            }
                            if sels.subrange(0, i as int + 1).contains(id2) {
                                let w = choose|w: int|
                                    0 <= w < i + 1 && #[trigger] sels.subrange(0, i as int + 1)[w] == id2;
                                if w < i {
                                    assert(sels.subrange(0, i as int)[w] == id2);
                                    assert(sels.subrange(0, i as int).contains(id2));
                                } else {
                                    assert(id2 == sels[i as int]);
                                    assert(visited@.contains(id));
                                }
                            }
                        }
                        assert forall|k: int, i0: int|
                            0 <= k < t0.len() && re_match(rsrc, t0[k].1) && 0 <= i0 < i + 1
                                && !spec_sub_suppressed(h0, ssrc, i0)
                                && #[trigger] spec_has_text_id(
                                doc_subtree_texts(h0, sels[i0]),
                                (#[trigger] t0[k]).0,
                            ) implies spec_collected(text_ids@, t0[k].0) by {
                            if i0 == i {
                                let w = choose|w: int|
                                    0 <= w < i && #[trigger] sels.subrange(0, i as int)[w] == sels[i as int];
                                assert(sels[w] == sels[i as int]);
                                assert(!spec_sub_suppressed(h0, ssrc, w)) by {
                                    if spec_sub_suppressed(h0, ssrc, w) {
                                        let (jw, aw) = choose|jw: int, aw: int|
                                            {
                                                &&& 0 <= jw <= w
                                                &&& 0 <= aw < doc_ancestors(h0, sels[w]).len()
                                                &&& doc_ancestors(h0, sels[w])[aw] == sels[jw]
                                            };
                                        assert(doc_ancestors(h0, sels[i as int])[aw] == sels[jw]);
                                        assert(spec_sub_suppressed(h0, ssrc, i as int));
                                    }
                                }
                                assert(spec_has_text_id(doc_subtree_texts(h0, sels[w]), t0[k].0));
                            }
                        }
                    }
                    i = i + 1;
                    continue ;
                }
                let ghost vis0 = visited@;
                visited.push(id);
                proof {
                    assert(visited@ == vis0.push(sels[i as int]));
                    assert forall|id2: ego_tree::NodeId| #[trigger]
                        visited@.contains(id2) <==> sels.subrange(0, i as int + 1).contains(
                        id2,
                    ) by {
                        if visited@.contains(id2) {
                            let w = choose|w: int|
                                0 <= w < visited@.len() && #[trigger] visited@[w] == id2;
                            if w < vis0.len() {
                                assert(vis0[w] == id2);
                                assert(vis0.contains(id2));
                                let w2 = choose|w2: int|
                                    0 <= w2 < i && #[trigger] sels.subrange(0, i as int)[w2]
                                        == id2;
                                assert(sels.subrange(0, i as int + 1)[w2] == id2);
                            } else {
                                assert(id2 == sels[i as int]);
                                assert(sels.subrange(0, i as int + 1)[i as int] == id2);
                            }
                        }
                        if sels.subrange(0, i as int + 1).contains(id2) {
                            let w = choose|w: int|
                                0 <= w < i + 1 && #[trigger] sels.subrange(0, i as int + 1)[w]
                                    == id2;
                            if w < i {
                                assert(sels.subrange(0, i as int)[w] == id2);
                                assert(sels.subrange(0, i as int).contains(id2));
                                assert(vis0.contains(id2));
                                let w3 = choose|w3: int|
                                    0 <= w3 < vis0.len() && #[trigger] vis0[w3] == id2;
                                assert(visited@[w3] == id2);
                            } else {
                                assert(visited@[vis0.len() as int] == id2);
                            }
                        }
                    }
                }
                let ups = crate::engines::ancestor_ids(html, crate::engines::copy_id(&els[i]));
                let mut anc_hit = false;
                let mut j: usize = 0;
                while j < ups.len()
                    invariant
                        0 <= i < sels.len(),
                        ups@ == doc_ancestors(h0, sels[i as int]),
                        forall|id2: ego_tree::NodeId| #[trigger]
                            visited@.contains(id2) <==> sels.subrange(0, i as int + 1).contains(
                            id2,
                        ),
                        j <= ups@.len(),
                        anc_hit == exists|a: int|
                            0 <= a < j && sels.subrange(0, i as int + 1).contains(
                                #[trigger] ups@[a],
                            ),
                    decreases ups@.len() - j,
                {
                    let ghost hit0 = anc_hit;
                    if contains_id(&visited, &ups[j]) {
                        anc_hit = true;
                    }
                    proof {
                        if anc_hit {
                            if !hit0 {
                                assert(sels.subrange(0, i as int + 1).contains(ups@[j as int]));
                            }
                        }
                    }
                    j = j + 1;
                }
                proof {
                    assert(anc_hit == spec_sub_suppressed(h0, ssrc, i as int)) by {
                        if anc_hit {
                            let a = choose|a: int|
                                0 <= a < ups@.len() && sels.subrange(0, i as int + 1).contains(
                                    #[trigger] ups@[a],
                                );
                            let w = choose|w: int|
                                0 <= w < i + 1 && #[trigger] sels.subrange(0, i as int + 1)[w] == ups@[a];
                            assert(doc_ancestors(h0, sels[i as int])[a] == sels[w]);
                            assert(spec_sub_suppressed(h0, ssrc, i as int));
                        }
                        if spec_sub_suppressed(h0, ssrc, i as int) {
                            let (jw, aw) = choose|jw: int, aw: int|
                                {
                                    &&& 0 <= jw <= i
                                    &&& 0 <= aw < doc_ancestors(h0, sels[i as int]).len()
                                    &&& doc_ancestors(h0, sels[i as int])[aw] == sels[jw]
                                };
                            assert(sels.subrange(0, i as int + 1)[jw] == sels[jw]);
                            assert(sels.subrange(0, i as int + 1).contains(ups@[aw]));
                            assert(anc_hit);
                        }
                    }
                }
                if !anc_hit {
                    let dts = crate::engines::descendant_texts(
                        html,
                        crate::engines::copy_id(&els[i]),
                    );
                    let ghost sub = doc_subtree_texts(h0, sels[i as int]);
                    let mut t: usize = 0;
                    while t < dts.len()
                        invariant
                            *html == h0,
                            m == self@,
                            self.wf(),
                            m.reg matches Some(r2) && r2 == rsrc,
                            m.sel matches Some(s2) && s2 == ssrc,
                            regex_source(rg.0) == rsrc,
                            t0 == doc_texts(h0),
                            sels == doc_selected(h0, ssrc),
                            0 <= i < sels.len(),
                            !spec_sub_suppressed(h0, ssrc, i as int),
                            sub == doc_subtree_texts(h0, sels[i as int]),
                            dts@.map_values(|p: (ego_tree::NodeId, String)| (p.0, p.1@)) == sub,
                            forall|k: int, k2: int|
                                0 <= k < dts@.len() && 0 <= k2 < t0.len() && (#[trigger] t0[k2]).0
                                    == (#[trigger] dts@[k]).0 ==> t0[k2].1 == dts@[k].1@,
                            t <= dts@.len(),
                            forall|j2: int|
                                0 <= j2 < text_ids@.len() ==> spec_sub_entry_ok(
                                    m,
                                    h0,
                                    (#[trigger] text_ids@[j2]).0,
                                    text_ids@[j2].1@,
                                ),
                            forall|j1: int, j2: int|
                                0 <= j1 < j2 < text_ids@.len() ==> (#[trigger] text_ids@[j1]).0
                                    != (#[trigger] text_ids@[j2]).0,
                            forall|k: int, i0: int|
                                0 <= k < t0.len() && re_match(rsrc, t0[k].1) && 0 <= i0 < i
                                    && !spec_sub_suppressed(h0, ssrc, i0)
                                    && #[trigger] spec_has_text_id(
                                    doc_subtree_texts(h0, sels[i0]),
                                    (#[trigger] t0[k]).0,
                                ) ==> spec_collected(text_ids@, t0[k].0),
                            forall|t2: int|
                                0 <= t2 < t && re_match(rsrc, (#[trigger] sub[t2]).1)
                                    ==> spec_collected(text_ids@, sub[t2].0),
                        decreases dts@.len() - t,
                    {
                        proof {
                            assert(sub[t as int] == (dts@[t as int].0, dts@[t as int].1@));
                        }
                        let ghost prev = text_ids@;
                        if crate::engines::regex_is_match(&rg.0, dts[t].1.as_str())
                            && !contains_text_id(&text_ids, &dts[t].0) {
                            let content = dts[t].1.clone();
                            text_ids.push((crate::engines::copy_id(&dts[t].0), content));
                            proof {
                                assert(text_ids@[prev.len() as int].0 == dts@[t as int].0);
                                assert(text_ids@[prev.len() as int].1@ == dts@[t as int].1@);
                                assert(spec_sub_entry_ok(
                                    m,
                                    h0,
                                    dts@[t as int].0,
                                    dts@[t as int].1@,
                                )) by {
                                    assert(spec_has_text_id(sub, dts@[t as int].0)) by {
                                        assert(sub[t as int].0 == dts@[t as int].0);
                                    }
                                }
                                assert forall|k: int, i0: int|
                                    0 <= k < t0.len() && re_match(rsrc, t0[k].1) && 0 <= i0 < i
                                        && !spec_sub_suppressed(h0, ssrc, i0)
                                        && #[trigger] spec_has_text_id(
                                        doc_subtree_texts(h0, sels[i0]),
                                        (#[trigger] t0[k]).0,
                                    ) implies spec_collected(text_ids@, t0[k].0) by {
                                    assert(spec_collected(prev, t0[k].0));
                                    let jx = choose|jx: int|
                                        0 <= jx < prev.len() && prev[jx].0 == t0[k].0;
                                    assert(text_ids@[jx].0 == t0[k].0);
                                }
                                assert forall|t2: int|
                                    0 <= t2 < t + 1 && re_match(rsrc, (#[trigger] sub[t2]).1)
                                        implies spec_collected(text_ids@, sub[t2].0) by {
                                    if t2 < t {
                                        assert(spec_collected(prev, sub[t2].0));
                                        let jx = choose|jx: int|
                                            0 <= jx < prev.len() && prev[jx].0 == sub[t2].0;
                                        assert(text_ids@[jx].0 == sub[t2].0);
                                    } else {
                                        assert(text_ids@[prev.len() as int].0 == sub[t2].0);
                                    }
                                }
                            }
                        } else {
                            proof {
                                assert forall|t2: int|
                                    0 <= t2 < t + 1 && re_match(rsrc, (#[trigger] sub[t2]).1)
                                        implies spec_collected(text_ids@, sub[t2].0) by {
                                    if t2 == t {
                                        assert(re_match(rsrc, dts@[t as int].1@));
                                        assert(spec_collected(text_ids@, dts@[t as int].0));
                                    }
                                }
                            }
                        }
                        t = t + 1;
                    }
                    proof {
                        assert forall|k: int, i0: int|
                            0 <= k < t0.len() && re_match(rsrc, t0[k].1) && 0 <= i0 < i + 1
                                && !spec_sub_suppressed(h0, ssrc, i0)
                                && #[trigger] spec_has_text_id(
                                doc_subtree_texts(h0, sels[i0]),
                                (#[trigger] t0[k]).0,
                            ) implies spec_collected(text_ids@, t0[k].0) by {
                            if i0 == i {
                                let t2 = choose|t2: int|
                                    0 <= t2 < sub.len() && sub[t2].0 == t0[k].0;
                                assert(dts@[t2].0 == sub[t2].0 && dts@[t2].1@ == sub[t2].1);
                                assert(t0[k].1 == dts@[t2].1@);
                                assert(re_match(rsrc, sub[t2].1));
                            }
                        }
                    }
                } else {
                    proof {
                        assert forall|k: int, i0: int|
                            0 <= k < t0.len() && re_match(rsrc, t0[k].1) && 0 <= i0 < i + 1
                                && !spec_sub_suppressed(h0, ssrc, i0)
                                && #[trigger] spec_has_text_id(
                                doc_subtree_texts(h0, sels[i0]),
                                (#[trigger] t0[k]).0,
                            ) implies spec_collected(text_ids@, t0[k].0) by {
                            if i0 == i {
                                assert(spec_sub_suppressed(h0, ssrc, i as int));
                                assert(false);
                            }
                        }
                    }
                }
                i = i + 1;
            }
            proof {
                assert forall|k: int|
                    0 <= k < t0.len() && spec_sub_rewrites(m, h0, k) implies spec_collected(
                    text_ids@,
                    (#[trigger] t0[k]).0,
                ) by {
                    let i0 = choose|i0: int|
                        {
                            &&& 0 <= i0 < doc_selected(h0, ssrc).len()
                            &&& !spec_sub_suppressed(h0, ssrc, i0)
                            &&& spec_has_text_id(
                                doc_subtree_texts(h0, doc_selected(h0, ssrc)[i0]),
                                t0[k].0,
                            )
                        };
                    assert(spec_has_text_id(doc_subtree_texts(h0, sels[i0]), t0[k].0));
                }
            }
        } else {
            let all = crate::engines::html_text_nodes(html);
            let mut i: usize = 0;
            while i < all.len()
                invariant
                    *html == h0,
                    m == self@,
                    self.wf(),
                    m.sel is None,
                    m.reg matches Some(r2) && r2 == rsrc,
                    regex_source(rg.0) == rsrc,
                    t0 == doc_texts(h0),
                    all@.map_values(|p: (ego_tree::NodeId, String)| (p.0, p.1@)) == t0,
                    forall|k1: int, k2: int|
                        0 <= k1 < k2 < all@.len() ==> (#[trigger] all@[k1]).0 != (
                        #[trigger] all@[k2]).0,
                    i <= all@.len(),
                    forall|j: int|
                        0 <= j < text_ids@.len() ==> spec_sub_entry_ok(
                            m,
                            h0,
                            (#[trigger] text_ids@[j]).0,
                            text_ids@[j].1@,
                        ),
                    forall|j1: int, j2: int|
                        0 <= j1 < j2 < text_ids@.len() ==> (#[trigger] text_ids@[j1]).0 != (
                        #[trigger] text_ids@[j2]).0,
                    forall|j: int|
                        0 <= j < text_ids@.len() ==> exists|k: int|
                            0 <= k < i && t0[k].0 == (#[trigger] text_ids@[j]).0,
                    forall|k: int|
                        0 <= k < i && re_match(rsrc, (#[trigger] t0[k]).1) ==> spec_collected(
                            text_ids@,
                            t0[k].0,
                        ),
                decreases all@.len() - i,
            {
                proof {
                    assert(t0[i as int] == (all@[i as int].0, all@[i as int].1@));
                }
                let ghost prev = text_ids@;
                if crate::engines::regex_is_match(&rg.0, all[i].1.as_str()) {
                    let content = all[i].1.clone();
                    text_ids.push((crate::engines::copy_id(&all[i].0), content));
                    proof {
                        assert(text_ids@[prev.len() as int].0 == t0[i as int].0);
                        assert(text_ids@[prev.len() as int].1@ == t0[i as int].1);
                        assert(spec_sub_entry_ok(m, h0, t0[i as int].0, t0[i as int].1)) by {
                            assert forall|k2: int|
                                0 <= k2 < t0.len() && (#[trigger] t0[k2]).0 == t0[i as int].0
                                    implies t0[k2].1 == t0[i as int].1 by {
                                assert(t0[k2] == (all@[k2].0, all@[k2].1@));
                                if k2 != i {
                                    assert(all@[k2].0 != all@[i as int].0);
                                    assert(false);
                                }
                            }
                        }
                        assert forall|j1: int, j2: int|
                            0 <= j1 < j2 < text_ids@.len() implies (#[trigger] text_ids@[j1]).0
                            != (#[trigger] text_ids@[j2]).0 by {
                            if j2 == prev.len() {
                                let kx = choose|kx: int|
                                    0 <= kx < i && t0[kx].0 == (#[trigger] prev[j1]).0;
                                assert(t0[kx] == (all@[kx].0, all@[kx].1@));
                                assert(t0[i as int] == (all@[i as int].0, all@[i as int].1@));
                                assert(all@[kx].0 != all@[i as int].0);
                            }
                        }
                        assert forall|k: int|
                            0 <= k < i + 1 && re_match(rsrc, (#[trigger] t0[k]).1) implies
                            spec_collected(text_ids@, t0[k].0) by {
                            if k < i {
                                let jx = choose|jx: int|
                                    0 <= jx < prev.len() && prev[jx].0 == t0[k].0;
                                assert(text_ids@[jx].0 == t0[k].0);
                            } else {
                                assert(text_ids@[prev.len() as int].0 == t0[k].0);
                            }
                        }
                    }
                }
                i = i + 1;
            }
            proof {
                assert forall|k: int|
                    0 <= k < t0.len() && spec_sub_rewrites(m, h0, k) implies spec_collected(
                    text_ids@,
                    (#[trigger] t0[k]).0,
                ) by {
                    assert(re_match(rsrc, t0[k].1));
                }
            }
        }
        let mut t: usize = 0;
        while t < text_ids.len()
            invariant
                m == self@,
                self.wf(),
                m.op is Replace,
                m.reg matches Some(r2) && r2 == rsrc,
                t0 == doc_texts(h0),
                t <= text_ids@.len(),
                forall|j: int|
                    0 <= j < text_ids@.len() ==> spec_sub_entry_ok(
                        m,
                        h0,
                        (#[trigger] text_ids@[j]).0,
                        text_ids@[j].1@,
                    ),
                forall|j1: int, j2: int|
                    0 <= j1 < j2 < text_ids@.len() ==> (#[trigger] text_ids@[j1]).0 != (
                    #[trigger] text_ids@[j2]).0,
                forall|k: int|
                    0 <= k < t0.len() && spec_sub_rewrites(m, h0, k) ==> spec_collected(
                        text_ids@,
                        (#[trigger] t0[k]).0,
                    ),
                doc_texts(*html).len() == t0.len(),
                forall|k: int|
                    0 <= k < t0.len() ==> (#[trigger] doc_texts(*html)[k]).0 == t0[k].0,
                forall|k: int|
                    0 <= k < t0.len() && spec_collected_before(
                        text_ids@,
                        t as int,
                        (#[trigger] t0[k]).0,
                    ) ==> doc_texts(*html)[k].1 == spec_guarded_apply(m, t0[k].1),
                forall|k: int|
                    0 <= k < t0.len() && !spec_collected_before(
                        text_ids@,
                        t as int,
                        (#[trigger] t0[k]).0,
                    ) ==> doc_texts(*html)[k].1 == t0[k].1,
                forall|src: Seq<char>| #[trigger]
                    doc_selected(*html, src) == doc_selected(h0, src),
                forall|id2: ego_tree::NodeId| #[trigger]
                    doc_ancestors(*html, id2) == doc_ancestors(h0, id2),
            decreases text_ids@.len() - t,
        {
            let new_text = self.apply_text(text_ids[t].1.as_str());
            let ghost before = doc_texts(*html);
            let ghost idt = text_ids@[t as int].0;
            let ghost ct = text_ids@[t as int].1@;
            proof {
                assert(spec_sub_entry_ok(m, h0, idt, ct));
                assert(new_text@ == spec_apply_text(m, ct));
            }
            if (crate::strutil::str_byte_len(new_text.as_str()) as u64) < 4294967296u64 {
                crate::engines::set_text_node(
                    html,
                    crate::engines::copy_id(&text_ids[t].0),
                    new_text.as_str(),
                );
                proof {
                    assert(spec_guarded_apply(m, ct) == spec_apply_text(m, ct));
                    assert forall|k: int|
                        0 <= k < t0.len() && spec_collected_before(
                            text_ids@,
                            t as int + 1,
                            (#[trigger] t0[k]).0,
                        ) implies doc_texts(*html)[k].1 == spec_guarded_apply(m, t0[k].1) by {
                        let jx = choose|jx: int|
                            0 <= jx < t + 1 && jx < text_ids@.len() && text_ids@[jx].0 == t0[k].0;
                        if jx == t {
                            assert(before[k].0 == idt);
                            assert(doc_texts(*html)[k].1 == new_text@);
                            assert(t0[k].1 == ct);
                        } else {
                            assert(spec_collected_before(text_ids@, t as int, t0[k].0));
                            if before[k].0 == idt {
                                assert(t0[k].1 == ct);
                                assert(doc_texts(*html)[k].1 == new_text@);
                            } else {
                                assert(doc_texts(*html)[k] == before[k]);
                            }
                        }
                    }
                    assert forall|k: int|
                        0 <= k < t0.len() && !spec_collected_before(
                            text_ids@,
                            t as int + 1,
                            (#[trigger] t0[k]).0,
                        ) implies doc_texts(*html)[k].1 == t0[k].1 by {
                        assert(!spec_collected_before(text_ids@, t as int, t0[k].0));
                        assert(text_ids@[t as int].0 != t0[k].0);
                        assert(before[k].0 != idt);
                        assert(doc_texts(*html)[k] == before[k]);
                    }
                }
            } else {
                proof {
                    assert(spec_guarded_apply(m, ct) == ct);
                    assert forall|k: int|
                        0 <= k < t0.len() && spec_collected_before(
                            text_ids@,
                            t as int + 1,
                            (#[trigger] t0[k]).0,
                        ) implies doc_texts(*html)[k].1 == spec_guarded_apply(m, t0[k].1) by {
                        let jx = choose|jx: int|
                            0 <= jx < t + 1 && jx < text_ids@.len() && text_ids@[jx].0 == t0[k].0;
                        if jx == t {
                            assert(!spec_collected_before(text_ids@, t as int, t0[k].0)) by {
                                if spec_collected_before(text_ids@, t as int, t0[k].0) {
                                    let j2 = choose|j2: int|
                                        0 <= j2 < t && j2 < text_ids@.len() && text_ids@[j2].0
                                            == t0[k].0;
                                    assert(text_ids@[j2].0 != text_ids@[t as int].0);
                                    assert(false);
                                }
                            }
                            assert(doc_texts(*html)[k].1 == t0[k].1);
                            assert(t0[k].1 == ct);
                        } else {
                            assert(spec_collected_before(text_ids@, t as int, t0[k].0));
                        }
                    }
                    assert forall|k: int|
                        0 <= k < t0.len() && !spec_collected_before(
                            text_ids@,
                            t as int + 1,
                            (#[trigger] t0[k]).0,
                        ) implies doc_texts(*html)[k].1 == t0[k].1 by {
                        assert(!spec_collected_before(text_ids@, t as int, t0[k].0));
                    }
                }
            }
            t = t + 1;
        }
        proof {
            assert forall|k: int| 0 <= k < t0.len() implies (#[trigger] doc_texts(
                *html,
            )[k]).1 == spec_sub_content(m, h0, k) by {
                if spec_sub_rewrites(m, h0, k) {
                    assert(spec_collected(text_ids@, t0[k].0));
                    let jx = choose|jx: int|
                        0 <= jx < text_ids@.len() && text_ids@[jx].0 == t0[k].0;
                    assert(spec_collected_before(text_ids@, text_ids@.len() as int, t0[k].0));
                } else {
                    assert(!spec_collected_before(text_ids@, text_ids@.len() as int, t0[k].0))
                        by {
                        if spec_collected_before(text_ids@, text_ids@.len() as int, t0[k].0) {
                            let jx = choose|jx: int|
                                0 <= jx < text_ids@.len() && text_ids@[jx].0 == t0[k].0;
                            assert(spec_sub_entry_ok(
                                m,
                                h0,
                                text_ids@[jx].0,
                                text_ids@[jx].1@,
                            ));
                            assert(t0[k].1 == text_ids@[jx].1@);
                            assert(re_match(m.reg->0, t0[k].1));
                            assert(spec_sub_rewrites(m, h0, k));
                            assert(false);
                        }
                    }
                }
            }
        }
    }
}

/// The whole-match substrings of the regex with source `reg` in the texts
/// of `ts` from position `i` on, texts in order.
pub open spec fn spec_matches_in_texts(reg: Seq<char>, ts: Seq<Seq<char>>, i: int) -> Seq<Seq<char>>
    decreases ts.len() - i when 0 <= i <= ts.len()
{
    if i >= ts.len() {
        Seq::empty()
    } else {
        matches_in(reg, ts[i]) + spec_matches_in_texts(reg, ts, i + 1)
    }
}

/// The whole-match substrings of the regex with source `reg` in the text
/// under the elements of `els` from position `i` on, elements in order.
pub open spec fn spec_matches_in_els(
    reg: Seq<char>,
    els: Seq<scraper::ElementRef>,
    i: int,
) -> Seq<Seq<char>>
    decreases els.len() - i when 0 <= i <= els.len()
{
    if i >= els.len() {
        Seq::empty()
    } else {
        spec_matches_in_texts(reg, el_texts(els[i]), 0) + spec_matches_in_els(reg, els, i + 1)
    }
}

/// What a print rule logs for an element: every regex match in the text
/// under each selected element, or under the element itself when the rule
/// has no selector; elements, texts and matches in order.
pub open spec fn spec_print_matches(m: SedModel, el: scraper::ElementRef) -> Seq<Seq<char>> {
    match m.sel {
        Some(s) => spec_matches_in_els(m.reg->0, selected_under(s, el), 0),
        None => spec_matches_in_texts(m.reg->0, el_texts(el), 0),
    }
}

/// Appends every regex match in each of the given texts to `out`, texts in
/// order.
fn collect_text_matches(re: &regex_lite::Regex, texts: &Vec<String>, out: &mut Vec<String>)
    ensures
        final (out)@.map_values(|s: String| s@) == old(out)@.map_values(|s: String| s@)
            + spec_matches_in_texts(
            regex_source(*re),
            texts@.map_values(|s: String| s@),
            0,
        ),
{
    let ghost rsrc = regex_source(*re);
    let ghost ts = texts@.map_values(|s: String| s@);
    let ghost base = out@.map_values(|s: String| s@);
    let mut j: usize = 0;
    while j < texts.len()
        invariant
            rsrc == regex_source(*re),
            ts == texts@.map_values(|s: String| s@),
            j <= ts.len(),
            base + spec_matches_in_texts(rsrc, ts, 0) =~= out@.map_values(|s: String| s@)
                + spec_matches_in_texts(rsrc, ts, j as int),
        decreases ts.len() - j,
    {
        let ms = crate::engines::regex_find_all(re, texts[j].as_str());
        proof {
            assert(ts[j as int] == texts@[j as int]@);
            assert(ms@.map_values(|s: String| s@) == matches_in(rsrc, ts[j as int]));
        }
        let ghost mid = out@;
        let mut k: usize = 0;
        while k < ms.len()
            invariant
                k <= ms@.len(),
                out@.map_values(|s: String| s@) =~= mid.map_values(|s: String| s@)
                    + ms@.map_values(|s: String| s@).subrange(0, k as int),
            decreases ms@.len() - k,
        {
            let ghost ob = out@;
            out.push(ms[k].clone());
            proof {
                assert(out@ == ob.push(ms@[k as int]));
                ob.lemma_push_map_commute(|s: String| s@, ms@[k as int]);
                assert(out@.map_values(|s: String| s@) =~= ob.map_values(|s: String| s@).push(
                    ms@[k as int]@,
                ));
                assert(ms@.map_values(|s: String| s@)[k as int] == ms@[k as int]@);
                assert(out@.map_values(|s: String| s@) =~= mid.map_values(|s: String| s@)
                    + ms@.map_values(|s: String| s@).subrange(0, k as int + 1));
            }
            k = k + 1;
        }
        proof {
            assert(ms@.map_values(|s: String| s@).subrange(0, ms@.len() as int) =~= ms@.map_values(
                |s: String| s@,
            ));
            assert(out@.map_values(|s: String| s@) =~= mid.map_values(|s: String| s@)
                + matches_in(rsrc, ts[j as int]));
            assert(base + spec_matches_in_texts(rsrc, ts, 0) =~= out@.map_values(|s: String| s@)
                + spec_matches_in_texts(rsrc, ts, j as int + 1));
        }
        j = j + 1;
    }
    proof {
        assert(spec_matches_in_texts(rsrc, ts, ts.len() as int) =~= Seq::<Seq<char>>::empty());
        assert(out@.map_values(|s: String| s@) =~= base + spec_matches_in_texts(rsrc, ts, 0));
    }
}

impl Sed {
    /// The whole-match substrings this print rule would log for an element:
    /// every regex match in the text under each selected element, or under
    /// the element itself when the rule has no selector, in order.
    pub fn print_matches(&self, el: &scraper::ElementRef) -> (r: Vec<String>)
        requires
            self.wf(),
            self@.op is Print,
        ensures
            r@.map_values(|s: String| s@) == spec_print_matches(self@, *el),
    {
        let ghost m = self@;
        let rg = match &self.reg {
            Some(r) => r,
            None => {
                proof {
                    assert(false);
                }
                return Vec::new();
            },
        };
        let ghost rsrc = m.reg->0;
        proof {
            assert(regex_source(rg.0) == rsrc);
        }
        let mut out: Vec<String> = Vec::new();
        if let Some(sel) = &self.sel {
            let ghost se = selected_under(m.sel->0, *el);
            proof {
                assert(selector_source(sel.0) == m.sel->0);
            }
            let els = select_within(el, &sel.0);
            let mut i: usize = 0;
            while i < els.len()
                invariant
                    rsrc == regex_source(rg.0),
                    se == selected_under(m.sel->0, *el),
                    els@ == se,
                    i <= se.len(),
                    spec_matches_in_els(rsrc, se, 0) =~= out@.map_values(|s: String| s@)
                        + spec_matches_in_els(rsrc, se, i as int),
                decreases se.len() - i,
            {
                let ghost mid = out@;
                let texts = element_texts(&els[i]);
                collect_text_matches(&rg.0, &texts, &mut out);
                proof {
                    assert(texts@.map_values(|s: String| s@) == el_texts(se[i as int]));
                    assert(out@.map_values(|s: String| s@) =~= mid.map_values(|s: String| s@)
                        + spec_matches_in_texts(rsrc, el_texts(se[i as int]), 0));
                    assert(spec_matches_in_els(rsrc, se, 0) =~= out@.map_values(|s: String| s@)
                        + spec_matches_in_els(rsrc, se, i as int + 1));
                }
                i = i + 1;
            }
            proof {
                assert(spec_matches_in_els(rsrc, se, se.len() as int)
                    =~= Seq::<Seq<char>>::empty());
                assert(out@.map_values(|s: String| s@) =~= spec_matches_in_els(rsrc, se, 0));
            }
        } else {
            let texts = element_texts(el);
            collect_text_matches(&rg.0, &texts, &mut out);
            proof {
                assert(texts@.map_values(|s: String| s@) == el_texts(*el));
                assert(Seq::<String>::empty().map_values(|s: String| s@)
                    =~= Seq::<Seq<char>>::empty());
                assert(out@.map_values(|s: String| s@) =~= spec_matches_in_texts(
                    rsrc,
                    el_texts(*el),
                    0,
                ));
            }
        }
        out
    }
}

/// The operation letter a rule renders with; `Match` renders with none.
pub open spec fn spec_render_op(op: OpModel) -> Seq<char> {
    match op {
        OpModel::Match => Seq::empty(),
        OpModel::Delete => "d"@,
        OpModel::Print => "p"@,
        OpModel::PrintAll => "P"@,
        OpModel::Replace(_) => "s"@,
    }
}

/// The selector part a rule renders with.
pub open spec fn spec_render_sel(sel: Option<Seq<char>>) -> Seq<char> {
    match sel {
        Some(src) => ";"@ + src,
        None => Seq::empty(),
    }
}

/// The regex part a rule renders with.
pub open spec fn spec_render_reg(reg: Option<Seq<char>>) -> Seq<char> {
    match reg {
        Some(src) => "/"@ + src + "/"@,
        None => Seq::empty(),
    }
}

/// The replacement part a rule renders with.
pub open spec fn spec_render_rep(op: OpModel) -> Seq<char> {
    match op {
        OpModel::Replace(rep) => rep + "/"@,
        _ => Seq::empty(),
    }
}

/// The source form a compiled rule renders back to.
pub open spec fn spec_render(m: SedModel) -> Seq<char> {
    spec_render_op(m.op) + spec_render_sel(m.sel) + spec_render_reg(m.reg) + spec_render_rep(m.op)
}

impl Sed {
    /// The source form of this rule: the operation letter (none for a bare
    /// matcher), the selector introduced by `;`, the regex between `/`, and
    /// for substitutions the replacement closed by `/`.
    pub fn render(&self) -> (r: String)
        ensures
            r@ == spec_render(self@),
    {
        let mut out: Vec<char> = Vec::new();
        match &self.op {
            Op::Match => {},
            Op::Delete => crate::escape::push_str_chars("d", &mut out),
            Op::Print => crate::escape::push_str_chars("p", &mut out),
            Op::PrintAll => crate::escape::push_str_chars("P", &mut out),
            Op::Replace(_) => crate::escape::push_str_chars("s", &mut out),
        }
        if let Some(s) = &self.sel {
            crate::escape::push_str_chars(";", &mut out);
            crate::escape::push_str_chars(s.1.as_str(), &mut out);
        }
        if let Some(rg) = &self.reg {
            crate::escape::push_str_chars("/", &mut out);
            crate::escape::push_str_chars(rg.1.as_str(), &mut out);
            crate::escape::push_str_chars("/", &mut out);
        }
        if let Op::Replace(rep) = &self.op {
            crate::escape::push_str_chars(rep.as_str(), &mut out);
            crate::escape::push_str_chars("/", &mut out);
        }
        proof {
            assert(out@ =~= spec_render(self@));
        }
        crate::strutil::string_from_chars(&out)
    }
}

/// Whether a segment survives an escape-aware scan without stopping: it
/// holds no unescaped `/`, and does not end in the middle of an escape.
pub open spec fn seg_clean(seg: Seq<char>) -> bool
    decreases seg.len(),
{
    if seg.len() == 0 {
        true
    } else if seg[0] == '/' {
        false
    } else if seg[0] == '\\' {
        seg.len() >= 2 && seg_clean(seg.skip(2))
    } else {
        seg_clean(seg.skip(1))
    }
}

/// A scan that stops, stops between its start and the end of the string,
/// stops only on `/` before the end, and what it scanned over is clean.
pub proof fn lemma_scan_clean(s: Seq<char>, i: int)
    requires
        0 <= i <= s.len(),
        scan_end(s, i) is Some,
    ensures
        i <= scan_end(s, i)->0 <= s.len(),
        scan_end(s, i)->0 < s.len() ==> s[scan_end(s, i)->0] == '/',
        seg_clean(s.subrange(i, scan_end(s, i)->0)),
    decreases s.len() - i,
{
    let j = scan_end(s, i)->0;
    if i >= s.len() {
        assert(s.subrange(i, j) =~= Seq::<char>::empty());
    } else if s[i] == '/' {
        assert(s.subrange(i, j) =~= Seq::<char>::empty());
    } else if s[i] == '\\' {
        lemma_scan_clean(s, i + 2);
        assert(s.subrange(i, j).skip(2) =~= s.subrange(i + 2, j));
    } else {
        lemma_scan_clean(s, i + 1);
        assert(s.subrange(i, j).skip(1) =~= s.subrange(i + 1, j));
    }
}

/// A scan started before a clean segment that is followed by `/` or by the
/// end of the string stops exactly at the segment's end.
pub proof fn lemma_clean_scan(s: Seq<char>, i: int, n: int)
    requires
        0 <= i,
        0 <= n,
        i + n <= s.len(),
        seg_clean(s.subrange(i, i + n)),
        i + n == s.len() || s[i + n] == '/',
    ensures
        scan_end(s, i) == Some(i + n),
    decreases n,
{
    let seg = s.subrange(i, i + n);
    if n == 0 {
        if i >= s.len() {
        } else {
            assert(s[i] == '/');
        }
    } else {
        assert(seg[0] == s[i]);
        assert(s[i] != '/');
        if s[i] == '\\' {
            assert(seg.len() >= 2);
            assert(seg.skip(2) =~= s.subrange(i + 2, i + n));
            lemma_clean_scan(s, i + 2, n - 2);
        } else {
            assert(seg.skip(1) =~= s.subrange(i + 1, i + n));
            lemma_clean_scan(s, i + 1, n - 1);
        }
    }
}

/// What every compiled rule's model satisfies: segments are clean, the
/// selector is not all whitespace, the regex is non-empty, both engines
/// accept their sources, and the structural invariants hold.
pub open spec fn canonical(m: SedModel) -> bool {
    &&& (m.sel is Some || m.reg is Some)
    &&& (m.sel matches Some(src) ==> seg_clean(src) && !all_ws(src) && sel_valid(src))
    &&& (m.reg matches Some(src) ==> seg_clean(src) && src.len() > 0 && re_valid(src))
    &&& (m.op matches OpModel::Replace(rep) ==> m.reg is Some && seg_clean(rep))
    &&& (m.op is Print ==> m.reg is Some)
}

/// Whether an operation letter stands for an operation.
pub open spec fn op_char_matches(opk: char, op: OpModel) -> bool {
    match op {
        OpModel::Match => opk == ';' || opk == '/',
        OpModel::Delete => opk == 'd',
        OpModel::Print => opk == 'p',
        OpModel::PrintAll => opk == 'P',
        OpModel::Replace(_) => opk == 's',
    }
}

/// Every rule that compiles has a canonical model.
pub proof fn lemma_parse_canonical(s: Seq<char>)
    requires
        spec_parse(s) is Ok,
    ensures
        canonical(spec_parse(s)->Ok_0),
{
    let opk = s[0];
    let sep0: char;
    let start0: int;
    if opk == '/' || opk == ';' {
        sep0 = opk;
        start0 = 1;
    } else {
        sep0 = s[1];
        start0 = 2;
    }
    if sep0 == ';' {
        lemma_scan_clean(s, start0);
        let end = scan_end(s, start0)->0;
        if end < s.len() {
            lemma_scan_clean(s, end + 1);
            let end2 = scan_end(s, end + 1)->0;
            if opk == 's' && end2 < s.len() {
                lemma_scan_clean(s, end2 + 1);
            }
        }
    } else {
        lemma_scan_clean(s, start0);
        let end2 = scan_end(s, start0)->0;
        if opk == 's' && end2 < s.len() {
            lemma_scan_clean(s, end2 + 1);
        }
    }
}

/// The rendered regex and replacement parts parse back to the model they
/// were rendered from.
proof fn lemma_regex_rep_parses(t: Seq<char>, opk: char, m: SedModel, start: int)
    requires
        canonical(m),
        op_char_matches(opk, m.op),
        m.reg is Some,
        1 <= start <= t.len(),
        t.subrange(start - 1, t.len() as int) == spec_render_reg(m.reg) + spec_render_rep(m.op),
    ensures
        spec_parse_regex_part(t, opk, m.sel, true, start) == Ok::<SedModel, ParseFail>(m),
{
    reveal_strlit("/");
    let tail = spec_render_reg(m.reg) + spec_render_rep(m.op);
    let rsrc = m.reg->0;
    let nr = rsrc.len() as int;
    assert(tail.len() == t.len() - (start - 1));
    assert forall|j: int| 0 <= j < nr implies t.subrange(start, start + nr)[j] == rsrc[j] by {
        assert(t[start + j] == tail[j + 1]);
        assert(tail[j + 1] == rsrc[j]);
    }
    assert(t.subrange(start, start + nr) =~= rsrc);
    assert(t[start + nr] == tail[nr + 1]);
    assert(tail[nr + 1] == '/');
    lemma_clean_scan(t, start, nr);
    let end = start + nr;
    assert(scan_end(t, start) == Some(end));
    assert(end < t.len());
    match m.op {
        OpModel::Replace(rep) => {
            let start2 = end + 1;
            let np = rep.len() as int;
            assert(t.len() - start2 == np + 1);
            assert forall|j: int| 0 <= j < np implies t.subrange(start2, start2 + np)[j] == rep[j]
                by {
                assert(t[start2 + j] == tail[nr + 2 + j]);
                assert(tail[nr + 2 + j] == rep[j]);
            }
            assert(t.subrange(start2, start2 + np) =~= rep);
            assert(t[start2 + np] == tail[nr + 2 + np]);
            assert(tail[nr + 2 + np] == '/');
            lemma_clean_scan(t, start2, np);
            assert(scan_end(t, start2) == Some(start2 + np));
            assert(start2 + np < t.len());
            let got = spec_parse_finish(opk, m.sel, Some(rsrc), Some(rep));
            assert(got == Ok::<SedModel, ParseFail>(SedModel { op: OpModel::Replace(rep), sel: m.sel, reg: Some(rsrc) }));
            assert(spec_parse_regex_part(t, opk, m.sel, true, start) == Ok::<SedModel, ParseFail>(m));
        },
        _ => {
            assert(opk != 's');
            assert(spec_parse_regex_part(t, opk, m.sel, true, start) == spec_parse_finish(
                opk,
                m.sel,
                Some(rsrc),
                None,
            ));
            assert(spec_parse_finish(opk, m.sel, Some(rsrc), None) == Ok::<SedModel, ParseFail>(m));
        },
    }
}

/// Rendering a compiled rule and compiling the result yields the same
/// model back.
pub proof fn lemma_render_parses(m: SedModel)
    requires
        canonical(m),
    ensures
        spec_parse(spec_render(m)) == Ok::<SedModel, ParseFail>(m),
{
    reveal_strlit("d");
    reveal_strlit("p");
    reveal_strlit("P");
    reveal_strlit("s");
    reveal_strlit(";");
    reveal_strlit("/");
    let t = spec_render(m);
    let p: int = if m.op is Match {
        0
    } else {
        1
    };
    let opk: char = match m.op {
        OpModel::Match => {
            if m.sel is Some {
                ';'
            } else {
                '/'
            }
        },
        OpModel::Delete => 'd',
        OpModel::Print => 'p',
        OpModel::PrintAll => 'P',
        OpModel::Replace(_) => 's',
    };
    assert(op_char_matches(opk, m.op));
    let selp = spec_render_sel(m.sel);
    let regp = spec_render_reg(m.reg);
    let repp = spec_render_rep(m.op);
    assert(t == spec_render_op(m.op) + selp + regp + repp);
    assert(spec_render_op(m.op).len() == p);
    match m.sel {
        Some(src) => {
            let ns = src.len() as int;
            assert(!all_ws(src));
            assert(src.len() > 0) by {
                if src.len() == 0 {
                    assert(all_ws(src));
                }
            }
            assert(selp.len() == 1 + ns);
            assert(t[p] == selp[0]);
            assert(selp[0] == ';');
            if m.op is Match {
                assert(t[0] == ';');
                assert(t.len() > 0);
            } else {
                assert(t[0] == spec_render_op(m.op)[0]);
                assert(t.len() >= 2);
                assert(t[1] == ';');
            }
            let start0 = p + 1;
            assert forall|j: int| 0 <= j < ns implies t.subrange(start0, start0 + ns)[j] == src[j]
                by {
                assert(t[start0 + j] == selp[1 + j]);
                assert(selp[1 + j] == src[j]);
            }
            assert(t.subrange(start0, start0 + ns) =~= src);
            let end = start0 + ns;
            match m.reg {
                Some(_) => {
                    assert(regp.len() >= 2);
                    assert(t[end] == regp[0]);
                    assert(regp[0] == '/');
                    lemma_clean_scan(t, start0, ns);
                    assert(scan_end(t, start0) == Some(end));
                    assert(end < t.len());
                    assert(t.subrange(end, t.len() as int) =~= regp + repp);
                    lemma_regex_rep_parses(t, opk, m, end + 1);
                    assert(spec_parse_after_op(t, opk, ';', start0) == Ok::<SedModel, ParseFail>(m));
                },
                None => {
                    assert(repp.len() == 0);
                    assert(regp.len() == 0);
                    assert(t.len() == end);
                    lemma_clean_scan(t, start0, ns);
                    assert(scan_end(t, start0) == Some(end));
                    assert(!(m.op is Replace));
                    assert(opk != 's');
                    assert(!(m.op is Print));
                    assert(opk != 'p');
                    assert(spec_parse_after_op(t, opk, ';', start0) == spec_parse_finish(
                        opk,
                        Some(src),
                        None,
                        None,
                    ));
                    assert(spec_parse_finish(opk, Some(src), None, None) == Ok::<SedModel, ParseFail>(m));
                },
            }
        },
        None => {
            assert(selp.len() == 0);
            let rsrc = m.reg->0;
            assert(regp.len() >= 2);
            assert(t[p] == regp[0]);
            assert(regp[0] == '/');
            if m.op is Match {
                assert(t[0] == '/');
                assert(opk == '/');
            } else {
                assert(t[0] == spec_render_op(m.op)[0]);
                assert(t.len() >= 2);
                assert(t[1] == '/');
            }
            let start0 = p + 1;
            assert(t.subrange(p, t.len() as int) =~= regp + repp);
            lemma_regex_rep_parses(t, opk, m, start0);
            assert(spec_parse_after_op(t, opk, '/', start0) == Ok::<SedModel, ParseFail>(m));
        },
    }
}

/// Round trip: a rule string that compiles renders back to a source form
/// that compiles to an equal rule.
pub proof fn lemma_parse_render_roundtrip(s: Seq<char>)
    requires
        spec_parse(s) is Ok,
    ensures
        spec_parse(spec_render(spec_parse(s)->Ok_0)) == spec_parse(s),
{
    lemma_parse_canonical(s);
    lemma_render_parses(spec_parse(s)->Ok_0);
}

/// A rule whose operation is not `Delete` never orders a deletion, whatever
/// the element.
pub proof fn lemma_should_delete_only_delete(m: SedModel, el: scraper::ElementRef)
    requires
        !(m.op is Delete),
    ensures
        !m.spec_should_delete(el),
{
}

/// For a `Delete` rule with a selector and no regex, deletion is ordered
/// exactly on the elements the selector matches.
pub proof fn lemma_should_delete_selector_only(m: SedModel, el: scraper::ElementRef)
    requires
        m.op is Delete,
        m.sel is Some,
        m.reg is None,
    ensures
        m.spec_should_delete(el) == css_match(m.sel->0, el),
{
}

/// For a `Delete` rule with a selector and a regex, deletion is ordered
/// exactly when the selector matches the element and some text under the
/// element matches the regex.
pub proof fn lemma_should_delete_selector_regex(m: SedModel, el: scraper::ElementRef)
    requires
        m.op is Delete,
        m.sel is Some,
        m.reg is Some,
    ensures
        m.spec_should_delete(el) == (css_match(m.sel->0, el) && exists|k: int|
            0 <= k < el_texts(el).len() && re_match(m.reg->0, el_texts(el)[k])),
{
}

/// Applying a rule whose operation does not substitute leaves any text
/// unchanged.
pub proof fn lemma_apply_text_non_replace(m: SedModel, t: Seq<char>)
    requires
        !(m.op is Replace),
    ensures
        spec_apply_text(m, t) == t,
{
}

/// Applying a substitution twice is the same as applying it once, whenever
/// its regex does not match the text the first application produced.
pub proof fn lemma_apply_text_idempotent(m: SedModel, t: Seq<char>)
    ensures
        !(m.reg matches Some(r) && re_match(r, spec_apply_text(m, t))) ==> spec_apply_text(
            m,
            spec_apply_text(m, t),
        ) == spec_apply_text(m, t),
{
}

} // verus!
