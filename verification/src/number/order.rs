//! Equality and ordering of numbers.
//!
//! Numbers are compared digit by digit from the most significant end. The
//! first digit that differs decides, and since a digit outweighs all the
//! digits after it together, that is the order of the integers that the
//! numbers stand for.

use vstd::prelude::*;
use std::cmp::Ordering;
use crate::number::Number;
use crate::ternary::lemma_first_difference_decides;

verus! {

impl<const N: usize> PartialEq for Number<N> {
    /// Whether the two numbers have the same digits.
    fn eq(&self, other: &Number<N>) -> (r: bool)
        ensures
            r == (self@ == other@),
            r == (self.value() == other.value()),
    {
        let mut i: usize = 0;
        while i < N
            invariant
                i <= N,
                forall|j: int| 0 <= j < i ==> self@[j] == other@[j],
            decreases N - i,
        {
            if self.0[i] != other.0[i] {
                proof {
                    if self.value() == other.value() {
                        self.lemma_value_injective(*other);
                    }
                }
                return false;
            }
            i += 1;
        }
        proof {
            assert(self@ =~= other@);
            self.lemma_view_injective(*other);
        }
        true
    }
}

impl<const N: usize> vstd::std_specs::cmp::PartialEqSpecImpl for Number<N> {
    open spec fn obeys_eq_spec() -> bool {
        true
    }

    open spec fn eq_spec(&self, other: &Number<N>) -> bool {
        *self == *other
    }
}

impl<const N: usize> PartialOrd for Number<N> {
    /// Compares two numbers by the integers that they stand for.
    fn partial_cmp(&self, other: &Number<N>) -> (r: Option<Ordering>)
        ensures
            r == Some(Ordering::Less) <==> self.value() < other.value(),
            r == Some(Ordering::Equal) <==> self.value() == other.value(),
            r == Some(Ordering::Greater) <==> self.value() > other.value(),
    {
        let mut i: usize = 0;
        while i < N
            invariant
                i <= N,
                forall|j: int| 0 <= j < i ==> self@[j] == other@[j],
            decreases N - i,
        {
            let x = self.0[i].to_i8();
            let y = other.0[i].to_i8();
            if x < y {
                proof {
                    lemma_digit_decides(*self, *other, i);
                }
                return Some(Ordering::Less);
            }
            if x > y {
                proof {
                    lemma_digit_decides(*other, *self, i);
                }
                return Some(Ordering::Greater);
            }
            i += 1;
        }
        assert(self@ =~= other@);
        Some(Ordering::Equal)
    }
}

impl<const N: usize> vstd::std_specs::cmp::PartialOrdSpecImpl for Number<N> {
    open spec fn obeys_partial_cmp_spec() -> bool {
        true
    }

    open spec fn partial_cmp_spec(&self, other: &Number<N>) -> Option<Ordering> {
        if self.value() < other.value() {
            Some(Ordering::Less)
        } else if self.value() == other.value() {
            Some(Ordering::Equal)
        } else {
            Some(Ordering::Greater)
        }
    }
}

/// Where two numbers agree on the digits before position `i` and the first
/// has the smaller digit there, the first stands for the smaller integer.
proof fn lemma_digit_decides<const N: usize>(a: Number<N>, b: Number<N>, i: usize)
    requires
        i < N,
        forall|j: int| 0 <= j < i ==> a@[j] == b@[j],
        a@[i as int].value() < b@[i as int].value(),
    ensures
        a.value() < b.value(),
{
    lemma_first_difference_decides(a@, b@, i as int);
}

} // verus!
