//! A single balanced-ternary digit.

use vstd::prelude::*;
use crate::sum_result::SumResult;
use std::ops::Neg;

verus! {

/// One balanced-ternary digit: minus one, zero or plus one.
#[derive(Clone, Copy, Debug, PartialEq, Eq, Structural)]
pub enum Trit {
    NEG,
    ZERO,
    POS,
}

impl Trit {
    /// The integer that the digit stands for.
    pub open spec fn value(self) -> int {
        match self {
            Trit::NEG => -1,
            Trit::ZERO => 0,
            Trit::POS => 1,
        }
    }

    /// The digit that stands for `v`; zero where `v` is not a digit value.
    pub open spec fn from_value(v: int) -> Trit {
        if v == -1 {
            Trit::NEG
        } else if v == 1 {
            Trit::POS
        } else {
            Trit::ZERO
        }
    }

    /// The digit that a character writes: `+` and `-` are the two signed
    /// digits, every other character reads as zero.
    pub open spec fn from_char_spec(c: char) -> Trit {
        if c == '+' {
            Trit::POS
        } else if c == '-' {
            Trit::NEG
        } else {
            Trit::ZERO
        }
    }

    /// The digit of the opposite sign.
    pub open spec fn flipped(self) -> Trit {
        match self {
            Trit::NEG => Trit::POS,
            Trit::ZERO => Trit::ZERO,
            Trit::POS => Trit::NEG,
        }
    }

    /// The digit as a machine integer.
    pub fn to_i8(self) -> (v: i8)
        ensures
            v == self.value(),
    {
        match self {
            Trit::NEG => -1,
            Trit::ZERO => 0,
            Trit::POS => 1,
        }
    }

    /// Reads a digit from its character.
    #[verifier::when_used_as_spec(from_char_spec)]
    pub fn from_char(c: char) -> (t: Trit)
        ensures
            t == Trit::from_char_spec(c),
    {
        if c == '+' {
            Trit::POS
        } else if c == '-' {
            Trit::NEG
        } else {
            Trit::ZERO
        }
    }

    /// Adds two digits and an incoming carry.
    ///
    /// The three digits sum to something between minus three and three; the
    /// result digit and the outgoing carry are the one way to write that sum
    /// as `3 * carry + result` with both of them digits.
    pub fn add_with_carry(&self, rhs: &Trit, carry: &Trit) -> (sum: SumResult)
        ensures
            3 * sum.carry.value() + sum.result.value() == self.value() + rhs.value()
                + carry.value(),
            -1 <= sum.result.value() <= 1,
            -1 <= sum.carry.value() <= 1,
    {
        let raw: i8 = self.to_i8() + rhs.to_i8() + carry.to_i8();
        if raw == -3 {
            SumResult { result: Trit::ZERO, carry: Trit::NEG }
        } else if raw == -2 {
            SumResult { result: Trit::POS, carry: Trit::NEG }
        } else if raw == -1 {
            SumResult { result: Trit::NEG, carry: Trit::ZERO }
        } else if raw == 0 {
            SumResult { result: Trit::ZERO, carry: Trit::ZERO }
        } else if raw == 1 {
            SumResult { result: Trit::POS, carry: Trit::ZERO }
        } else if raw == 2 {
            SumResult { result: Trit::NEG, carry: Trit::POS }
        } else {
            SumResult { result: Trit::ZERO, carry: Trit::POS }
        }
    }

    /// Adds two digits with no incoming carry.
    pub fn add(&self, rhs: &Trit) -> (sum: SumResult)
        ensures
            3 * sum.carry.value() + sum.result.value() == self.value() + rhs.value(),
            -1 <= sum.result.value() <= 1,
            -1 <= sum.carry.value() <= 1,
    {
        self.add_with_carry(rhs, &Trit::ZERO)
    }
}

impl Neg for Trit {
    type Output = Trit;

    /// Swaps plus one and minus one; zero stays.
    fn neg(self) -> (t: Trit)
        ensures
            t == self.flipped(),
            t.value() == -self.value(),
    {
        match self {
            Trit::NEG => Trit::POS,
            Trit::ZERO => Trit::ZERO,
            Trit::POS => Trit::NEG,
        }
    }
}

impl vstd::std_specs::ops::NegSpecImpl for Trit {
    open spec fn obeys_neg_spec() -> bool {
        true
    }

    open spec fn neg_req(self) -> bool {
        true
    }

    open spec fn neg_spec(self) -> Trit {
        self.flipped()
    }
}

} // verus!
