//! The shapes of an external package checker's report: message severities,
//! message codes, and the verdict over a report.

use vstd::prelude::*;

use vstd::string::StringSliceAdditionalSpecFns;

verus! {

/// A code could not be parsed.
#[derive(Debug)]
pub struct CodeParseError {}

/// A severity could not be parsed.
#[derive(Debug)]
pub struct SeverityParseError {}

/// How severe a report message is.
#[derive(Clone, Copy, PartialEq, Eq, Structural, Debug, Hash)]
pub enum Severity {
    Info,
    Usage,
    Warning,
    Error,
    Fatal,
}

/// The rank of a severity: higher is worse.
pub open spec fn spec_sev_rank(s: Severity) -> int {
    match s {
        Severity::Info => 0,
        Severity::Usage => 1,
        Severity::Warning => 2,
        Severity::Error => 3,
        Severity::Fatal => 4,
    }
}

/// The tag a severity is reported under.
pub open spec fn spec_sev_str(s: Severity) -> Seq<char> {
    match s {
        Severity::Info => "INFO"@,
        Severity::Usage => "USAGE"@,
        Severity::Warning => "WARNING"@,
        Severity::Error => "ERROR"@,
        Severity::Fatal => "FATAL"@,
    }
}

impl Severity {
    /// The rank of this severity: higher is worse.
    pub fn rank(self) -> (r: u8)
        ensures
            r == spec_sev_rank(self),
    {
        match self {
            Severity::Info => 0,
            Severity::Usage => 1,
            Severity::Warning => 2,
            Severity::Error => 3,
            Severity::Fatal => 4,
        }
    }

    /// The severity reported under the given tag; fails on anything else.
    pub fn from_str(s: &str) -> (r: Result<Self, SeverityParseError>)
        ensures
            r is Ok <==> exists|v: Severity| spec_sev_str(v) == s@,
            r is Ok ==> spec_sev_str(r->Ok_0) == s@,
    {
        let r = if crate::strutil::streq(s, "INFO") {
            Ok(Severity::Info)
        } else if crate::strutil::streq(s, "USAGE") {
            Ok(Severity::Usage)
        } else if crate::strutil::streq(s, "WARNING") {
            Ok(Severity::Warning)
        } else if crate::strutil::streq(s, "ERROR") {
            Ok(Severity::Error)
        } else if crate::strutil::streq(s, "FATAL") {
            Ok(Severity::Fatal)
        } else {
            Err(SeverityParseError {})
        };
        proof {
            if r is Ok {
                assert(spec_sev_str(r->Ok_0) == s@);
            }
            if r is Err {
                assert forall|v: Severity| spec_sev_str(v) != s@ by {
                    match v {
                        Severity::Info => assert(spec_sev_str(v) != s@),
                        Severity::Usage => assert(spec_sev_str(v) != s@),
                        Severity::Warning => assert(spec_sev_str(v) != s@),
                        Severity::Error => assert(spec_sev_str(v) != s@),
                        Severity::Fatal => assert(spec_sev_str(v) != s@),
                    }
                }
            }
        }
        r
    }

    /// The tag this severity is reported under.
    pub fn as_str(self) -> (r: &'static str)
        ensures
            r@ == spec_sev_str(self),
    {
        match self {
            Severity::Info => "INFO",
            Severity::Usage => "USAGE",
            Severity::Warning => "WARNING",
            Severity::Error => "ERROR",
            Severity::Fatal => "FATAL",
        }
    }

    /// The worse of two severities.
    pub fn max(self, other: Self) -> (r: Self)
        ensures
            spec_sev_rank(r) == if spec_sev_rank(self) >= spec_sev_rank(other) {
                spec_sev_rank(self)
            } else {
                spec_sev_rank(other)
            },
            r == self || r == other,
    {
        if self.rank() >= other.rank() {
            self
        } else {
            other
        }
    }
}

/// Whether a byte is an ASCII decimal digit.
pub open spec fn spec_is_digit(b: u8) -> bool {
    48 <= b <= 57
}

/// A report message code: a three-letter category and a number, written
/// `CAT-NNN`.
#[derive(Debug)]
pub struct Code {
    pub cat: [u8; 3],
    pub num: u8,
}

/// Whether a code string is well-formed: exactly seven bytes, a dash in the
/// middle, and a number below 256 in the last three.
pub open spec fn spec_code_ok(bs: Seq<u8>) -> bool {
    &&& bs.len() == 7
    &&& bs[3] == 45
    &&& spec_is_digit(bs[4])
    &&& spec_is_digit(bs[5])
    &&& spec_is_digit(bs[6])
    &&& (bs[4] - 48) * 100 + (bs[5] - 48) * 10 + (bs[6] - 48) < 256
}

impl Code {
    /// The code written in a string: three category bytes, a dash, and a
    /// three-digit number; anything else fails.
    pub fn from_str(s: &str) -> (r: Result<Self, CodeParseError>)
        ensures
            r is Ok <==> spec_code_ok(s.spec_bytes()),
            r is Ok ==> {
                let bs = s.spec_bytes();
                &&& r->Ok_0.cat@ == seq![bs[0], bs[1], bs[2]]
                &&& r->Ok_0.num == (bs[4] - 48) * 100 + (bs[5] - 48) * 10 + (bs[6] - 48)
            },
    {
        let bs = s.as_bytes();
        if bs.len() != 7 {
            return Err(CodeParseError {});
        }
        if bs[3] != 45 {
            return Err(CodeParseError {});
        }
        let d0 = bs[4];
        let d1 = bs[5];
        let d2 = bs[6];
        if !(48 <= d0 && d0 <= 57 && 48 <= d1 && d1 <= 57 && 48 <= d2 && d2 <= 57) {
            return Err(CodeParseError {});
        }
        let v: u32 = (d0 - 48) as u32 * 100 + (d1 - 48) as u32 * 10 + (d2 - 48) as u32;
        if v >= 256 {
            return Err(CodeParseError {});
        }
        let cat = [bs[0], bs[1], bs[2]];
        proof {
            assert(cat@ =~= seq![s.spec_bytes()[0], s.spec_bytes()[1], s.spec_bytes()[2]]);
        }
        Ok(Code { cat, num: v as u8 })
    }
}

/// What a code renders as: its category letters, a dash, and its number.
pub open spec fn spec_code_str(c: Code) -> Seq<char> {
    seq![c.cat@[0] as char, c.cat@[1] as char, c.cat@[2] as char] + "-"@ + crate::chapter::spec_dec(
        c.num as int,
    )
}

impl Code {
    /// The code as text: category, dash, number.
    pub fn render(&self) -> (r: String)
        ensures
            r@ == spec_code_str(*self),
    {
        let mut out: Vec<char> = Vec::new();
        out.push(self.cat[0] as char);
        out.push(self.cat[1] as char);
        out.push(self.cat[2] as char);
        crate::escape::push_str_chars("-", &mut out);
        let d = crate::chapter::dec_chars(self.num as u32);
        let mut i: usize = 0;
        while i < d.len()
            invariant
                i <= d@.len(),
                d@ == crate::chapter::spec_dec(self.num as int),
                out@ == seq![
                    self.cat@[0] as char,
                    self.cat@[1] as char,
                    self.cat@[2] as char,
                ] + "-"@ + d@.subrange(0, i as int),
            decreases d@.len() - i,
        {
            out.push(d[i]);
            i = i + 1;
            proof {
                assert(out@ =~= seq![
                    self.cat@[0] as char,
                    self.cat@[1] as char,
                    self.cat@[2] as char,
                ] + "-"@ + d@.subrange(0, i as int));
            }
        }
        proof {
            assert(out@ =~= spec_code_str(*self));
        }
        crate::strutil::string_from_chars(&out)
    }
}

/// One message of a report.
#[derive(Debug)]
pub struct Message {
    pub code: Code,
    pub sev: Severity,
    pub msg: String,
}

/// What a message renders as: its severity, its code in parentheses, and
/// its text.
pub open spec fn spec_message_str(m: Message) -> Seq<char> {
    spec_sev_str(m.sev) + "("@ + spec_code_str(m.code) + "): "@ + m.msg@
}

impl Message {
    /// The message as text.
    pub fn render(&self) -> (r: String)
        ensures
            r@ == spec_message_str(*self),
    {
        let mut out: Vec<char> = Vec::new();
        crate::escape::push_str_chars(self.sev.as_str(), &mut out);
        crate::escape::push_str_chars("(", &mut out);
        let code = self.code.render();
        crate::escape::push_str_chars(code.as_str(), &mut out);
        crate::escape::push_str_chars("): ", &mut out);
        crate::escape::push_str_chars(self.msg.as_str(), &mut out);
        proof {
            assert(out@ =~= spec_message_str(*self));
        }
        crate::strutil::string_from_chars(&out)
    }
}

/// A whole report: its messages and the worst severity among them.
#[derive(Debug)]
pub struct EpubcheckResult {
    pub most_severe: Option<Severity>,
    pub msgs: Vec<Message>,
}

/// What the messages of a report render as in a failing verdict, from
/// position `i` on: each on a line of its own, indented.
pub open spec fn spec_report_lines(msgs: Seq<Message>, i: int) -> Seq<char>
    decreases msgs.len() - i when 0 <= i <= msgs.len()
{
    if i >= msgs.len() {
        Seq::empty()
    } else {
        "\n        "@ + spec_message_str(msgs[i]) + spec_report_lines(msgs, i + 1)
    }
}

/// What a failing verdict renders as: a heading, then every message.
pub open spec fn spec_report_str(msgs: Seq<Message>) -> Seq<char> {
    "epubcheck errors:"@ + spec_report_lines(msgs, 0)
}

impl EpubcheckResult {
    /// Whether the report contains an error or worse.
    pub fn is_error(&self) -> (r: bool)
        ensures
            r == match self.most_severe {
                Some(sev) => spec_sev_rank(sev) >= spec_sev_rank(Severity::Error),
                None => false,
            },
    {
        match &self.most_severe {
            Some(sev) => sev.rank() >= Severity::Error.rank(),
            None => false,
        }
    }

    /// The report as a verdict against a tolerated severity: fine when
    /// nothing at or below the tolerated severity was reported; otherwise
    /// the heading and every message, one per line.
    pub fn as_result(&self, max_sev: Severity) -> (r: Result<(), String>)
        ensures
            r is Ok <==> match self.most_severe {
                Some(sev) => spec_sev_rank(sev) > spec_sev_rank(max_sev),
                None => true,
            },
            r is Err ==> r->Err_0@ == spec_report_str(self.msgs@),
    {
        let worst = match &self.most_severe {
            Some(sev) => *sev,
            None => {
                return Ok(());
            },
        };
        if worst.rank() > max_sev.rank() {
            return Ok(());
        }
        let mut out: Vec<char> = Vec::new();
        crate::escape::push_str_chars("epubcheck errors:", &mut out);
        let mut i: usize = 0;
        while i < self.msgs.len()
            invariant
                i <= self.msgs@.len(),
                "epubcheck errors:"@ + spec_report_lines(self.msgs@, 0) =~= out@
                    + spec_report_lines(self.msgs@, i as int),
            decreases self.msgs@.len() - i,
        {
            crate::escape::push_str_chars("\n        ", &mut out);
            let line = self.msgs[i].render();
            crate::escape::push_str_chars(line.as_str(), &mut out);
            proof {
                assert("epubcheck errors:"@ + spec_report_lines(self.msgs@, 0) =~= out@
                    + spec_report_lines(self.msgs@, i as int + 1));
            }
            i = i + 1;
        }
        proof {
            assert(spec_report_lines(self.msgs@, self.msgs@.len() as int)
                =~= Seq::<char>::empty());
            assert(out@ =~= spec_report_str(self.msgs@));
        }
        Err(crate::strutil::string_from_chars(&out))
    }
}

} // verus!
