//! The outcome of adding single digits.

use vstd::prelude::*;
use crate::trit::Trit;

verus! {

/// A digit sum split into the digit that stays in place and the digit that
/// moves on to the next more significant position.
#[derive(Clone, Copy, Debug, PartialEq, Eq, Structural)]
pub struct SumResult {
    pub result: Trit,
    pub carry: Trit,
}

impl SumResult {
    /// The integer that the pair stands for: the carry weighs three times the
    /// result.
    pub open spec fn value(self) -> int {
        3 * self.carry.value() + self.result.value()
    }

    /// A pair of digits is fixed by the integer it stands for: every integer
    /// between minus four and four is written as three times a digit plus a
    /// digit in one way only.
    pub proof fn lemma_value_injective(self, other: SumResult)
        requires
            self.value() == other.value(),
        ensures
            self == other,
    {
    }
}

} // verus!
