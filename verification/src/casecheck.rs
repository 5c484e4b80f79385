//! Test-case validation rules used when minimizing a failing document: a
//! rule over rendered text, tagged by how its verdict relates to the
//! failure being reproduced.

use vstd::prelude::*;

use crate::engines::{re_match, regex_is_match, regex_source};
use crate::strutil::{spec_contains_seq, str_contains};

verus! {

/// A predicate over rendered chapter text.
pub trait CaseRule {
    /// The rule's verdict on a rendered text.
    spec fn spec_satisfies(&self, rendered: Seq<char>) -> bool;

    /// The rule's verdict on a rendered text.
    fn satisfies(&self, rendered: &str) -> (r: bool)
        ensures
            r == self.spec_satisfies(rendered@),
    ;
}

impl CaseRule for String {
    /// A string rule holds when the text contains it.
    open spec fn spec_satisfies(&self, rendered: Seq<char>) -> bool {
        spec_contains_seq(rendered, self@)
    }

    /// A string rule holds when the text contains it.
    fn satisfies(&self, rendered: &str) -> (r: bool)
        ensures
            r == self.spec_satisfies(rendered@),
    {
        str_contains(rendered, self.as_str())
    }
}

impl CaseRule for regex_lite::Regex {
    /// A regex rule holds when the pattern matches somewhere in the text.
    open spec fn spec_satisfies(&self, rendered: Seq<char>) -> bool {
        re_match(regex_source(*self), rendered)
    }

    /// A regex rule holds when the pattern matches somewhere in the text.
    fn satisfies(&self, rendered: &str) -> (r: bool)
        ensures
            r == self.spec_satisfies(rendered@),
    {
        regex_is_match(self, rendered)
    }
}

/// How a rule's verdict relates to the failure being reproduced.
pub enum CaseType<T> {
    /// Holds of both the failing and the fixed output.
    InvariantHas(T),
    /// Holds of the failing output but not the fixed one.
    FailHas(T),
    /// Holds of the fixed output but not the failing one.
    FailOmits(T),
}

impl<T> CaseType<T> {
    /// The rule inside, whatever the tag.
    pub open spec fn spec_inner(&self) -> &T {
        match self {
            CaseType::InvariantHas(r) => r,
            CaseType::FailHas(r) => r,
            CaseType::FailOmits(r) => r,
        }
    }

    /// The rule inside, whatever the tag.
    pub fn inner(&self) -> (r: &T)
        ensures
            r == self.spec_inner(),
    {
        match self {
            CaseType::InvariantHas(r) => r,
            CaseType::FailHas(r) => r,
            CaseType::FailOmits(r) => r,
        }
    }

    /// Whether the check negates the rule's verdict.
    pub fn check_is_neg(&self) -> (r: bool)
        ensures
            r == (self is FailOmits),
    {
        match self {
            CaseType::InvariantHas(_) => false,
            CaseType::FailHas(_) => false,
            CaseType::FailOmits(_) => true,
        }
    }
}

impl<T: CaseRule> CaseType<T> {
    /// Whether the failing behavior is still reproduced: the rule's
    /// verdict, negated for rules the failing output omits.
    pub fn check(&self, rendered: &str) -> (r: bool)
        ensures
            r == if self is FailOmits {
                !self.spec_inner().spec_satisfies(rendered@)
            } else {
                self.spec_inner().spec_satisfies(rendered@)
            },
    {
        let res = self.inner().satisfies(rendered);
        if self.check_is_neg() {
            !res
        } else {
            res
        }
    }
}

} // verus!
