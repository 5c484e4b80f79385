//! Boolean implication as an explicit operation.

use vstd::prelude::*;

verus! {

/// Logical implication on booleans.
pub trait Implies {
    /// Whether `self` implies `other`.
    fn implies(self, other: bool) -> bool;
}

impl Implies for bool {
    /// Whether `self` implies `other`.
    fn implies(self, other: bool) -> (r: bool)
        ensures
            r == (self ==> other),
    {
        !self || other
    }
}

} // verus!
