//! Fixed-width balanced-ternary numbers.

use vstd::prelude::*;
use vstd::string::StrSliceExecFns;
use std::ops::{Neg, ShlAssign};
use crate::ternary::{
    digits_value, in_range, lemma_digits_exist, lemma_digits_value_injective,
    lemma_digits_value_negated, lemma_digits_value_range, lemma_digits_value_shifted,
    lemma_digits_value_zeros, lemma_wrap, lemma_wrap_in_range, negated, pow3, shifted,
    text_digits, trunc_div, wrap, zeros,
};
use crate::trit::Trit;

pub mod binary_ops;
pub mod laws;
pub mod order;

verus! {

/// A balanced-ternary number of exactly `N` digits, most significant first.
///
/// The digit at position `i` weighs `3^(N - 1 - i)`. Every row of `N` digits
/// is a number, and two numbers are equal exactly when their digits are.
#[derive(Clone, Copy, Debug, Eq)]
pub struct Number<const N: usize>(pub [Trit; N]);

impl<const N: usize> View for Number<N> {
    type V = Seq<Trit>;

    open spec fn view(&self) -> Seq<Trit> {
        self.0@
    }
}

impl<const N: usize> Number<N> {
    /// The integer that the number stands for.
    pub open spec fn value(&self) -> int {
        digits_value(self@)
    }

    /// The number with the given digits.
    pub open spec fn from_digits(digits: Seq<Trit>) -> Number<N> {
        choose|r: Number<N>| r@ == digits
    }

    /// The number that stands for `v`, wrapped into the range of `N` digits.
    pub open spec fn from_value(v: int) -> Number<N> {
        choose|r: Number<N>| r.value() == wrap(v, N as nat)
    }

    /// The number whose digits are all zero.
    pub open spec fn zero_spec() -> Number<N> {
        Self::from_digits(zeros(N as nat))
    }

    /// The number with every digit flipped.
    pub open spec fn negation(self) -> Number<N> {
        Self::from_digits(negated(self@))
    }

    /// The sum of two numbers, wrapped into the range of `N` digits.
    pub open spec fn sum(self, rhs: Number<N>) -> Number<N> {
        Self::from_value(self.value() + rhs.value())
    }

    /// The sum of a number and a single digit at the least significant
    /// position, wrapped into the range of `N` digits.
    pub open spec fn sum_with_trit(self, rhs: Trit) -> Number<N> {
        Self::from_value(self.value() + rhs.value())
    }

    /// The difference of two numbers, wrapped into the range of `N` digits.
    pub open spec fn difference(self, rhs: Number<N>) -> Number<N> {
        Self::from_value(self.value() - rhs.value())
    }

    /// The product of two numbers, wrapped into the range of `N` digits.
    pub open spec fn product(self, rhs: Number<N>) -> Number<N> {
        Self::from_value(self.value() * rhs.value())
    }

    /// The quotient of two numbers, rounded towards zero.
    pub open spec fn quotient(self, rhs: Number<N>) -> Number<N> {
        Self::from_value(trunc_div(self.value(), rhs.value()))
    }

    /// The number with its digits moved `k` places towards the most
    /// significant end.
    pub open spec fn shifted_left(self, k: nat) -> Number<N> {
        Self::from_digits(shifted(self@, k))
    }

    /// Every row of `N` digits is the digits of a number.
    pub proof fn lemma_from_digits(digits: Seq<Trit>)
        requires
            digits.len() == N,
        ensures
            Self::from_digits(digits)@ == digits,
    {
        let a = array_with_digits::<N>(digits, N as nat);
        assert(a@ =~= digits);
        assert(Number(a)@ == digits);
    }

    /// `from_value` gives a number that stands for the wrapped integer.
    pub proof fn lemma_from_value(v: int)
        ensures
            Self::from_value(v).value() == wrap(v, N as nat),
    {
        lemma_wrap(v, N as nat);
        let digits = lemma_digits_exist(wrap(v, N as nat), N as nat);
        Self::lemma_from_digits(digits);
        assert(Self::from_digits(digits).value() == wrap(v, N as nat));
    }

    /// A number stands for an integer in the range of `N` digits.
    pub proof fn lemma_value_in_range(self)
        ensures
            in_range(self.value(), N as nat),
            wrap(self.value(), N as nat) == self.value(),
    {
        lemma_digits_value_range(self@);
        lemma_wrap_in_range(self.value(), N as nat);
    }

    /// Numbers with the same digits are equal.
    pub proof fn lemma_view_injective(self, other: Number<N>)
        requires
            self@ == other@,
        ensures
            self == other,
    {
        assert(self.0 =~= other.0);
    }

    /// Numbers that stand for the same integer are equal.
    pub proof fn lemma_value_injective(self, other: Number<N>)
        requires
            self.value() == other.value(),
        ensures
            self == other,
    {
        lemma_digits_value_injective(self@, other@);
        self.lemma_view_injective(other);
    }

    /// A number with the given digits is `from_digits` of them.
    pub proof fn lemma_is_from_digits(self, digits: Seq<Trit>)
        requires
            self@ == digits,
        ensures
            self == Self::from_digits(digits),
    {
        Self::lemma_from_digits(digits);
        self.lemma_view_injective(Self::from_digits(digits));
    }

    /// A number that stands for what `v` wraps to is `from_value(v)`.
    pub proof fn lemma_is_from_value(self, v: int)
        requires
            self.value() == wrap(v, N as nat),
        ensures
            self == Self::from_value(v),
    {
        Self::lemma_from_value(v);
        self.lemma_value_injective(Self::from_value(v));
    }

    /// The zero number stands for zero, and no other number does.
    pub proof fn lemma_zero_value(self)
        ensures
            Self::zero_spec().value() == 0,
            Self::zero_spec() == Self::from_value(0),
            self == Self::zero_spec() <==> self.value() == 0,
    {
        Self::lemma_from_digits(zeros(N as nat));
        lemma_digits_value_zeros(N as nat);
        Self::zero_spec().lemma_value_in_range();
        Self::zero_spec().lemma_is_from_value(0);
        if self.value() == 0 {
            self.lemma_value_injective(Self::zero_spec());
        }
    }

    /// The number whose digits are all zero. It stands for zero.
    #[verifier::when_used_as_spec(zero_spec)]
    pub fn zero() -> (r: Number<N>)
        ensures
            r@ == zeros(N as nat),
            r.value() == 0,
            r == Self::zero_spec(),
    {
        let r = Number([Trit::ZERO; N]);
        proof {
            assert(r@ =~= zeros(N as nat));
            lemma_digits_value_zeros(N as nat);
            r.lemma_is_from_digits(zeros(N as nat));
        }
        r
    }
}

/// Some array holds the first `k` digits of a row of `N` digits.
proof fn array_with_digits<const N: usize>(digits: Seq<Trit>, k: nat) -> (a: [Trit; N])
    requires
        digits.len() == N,
        k <= N,
    ensures
        forall|j: int| 0 <= j < k ==> a@[j] == digits[j],
    decreases k,
{
    if k == 0 {
        [Trit::ZERO; N]
    } else {
        let front = array_with_digits::<N>(digits, (k - 1) as nat);
        vstd::array::spec_array_update(front, k - 1, digits[k - 1])
    }
}

impl<'a, const N: usize> From<&'a str> for Number<N> {
    /// Reads a number from its digits written as text, most significant
    /// first: `+` is plus one, `-` is minus one, and any other character is
    /// zero. The text is aligned at its end: a text with fewer than `N`
    /// characters leaves the most significant digits zero, and of a longer
    /// text only the last `N` characters count.
    fn from(text: &'a str) -> (r: Number<N>)
        ensures
            r@ == text_digits(text@, N as nat),
    {
        let len = text.unicode_len();
        let mut out = Number::<N>::zero();
        let mut read: usize = 0;
        for c in chars: text.chars()
            invariant
                read == chars.index(),
                chars.seq() == text@,
                len == text@.len(),
                forall|j: int|
                    0 <= j < N ==> out@[j] == (if 0 <= len - N + j < read {
                        text_digits(text@, N as nat)[j]
                    } else {
                        Trit::ZERO
                    }),
        {
            if len - read <= N {
                let at = N - (len - read);
                let ghost before = out@;
                out.0[at] = Trit::from_char(c);
                assert(out@ == before.update(at as int, Trit::from_char_spec(c)));
            }
            read += 1;
        }
        proof {
            assert(out@ =~= text_digits(text@, N as nat));
            out.lemma_is_from_digits(text_digits(text@, N as nat));
        }
        out
    }
}

impl<'a, const N: usize> vstd::std_specs::convert::FromSpecImpl<&'a str> for Number<N> {
    open spec fn obeys_from_spec() -> bool {
        true
    }

    open spec fn from_spec(text: &'a str) -> Number<N> {
        Self::from_digits(text_digits(text@, N as nat))
    }
}

impl<const N: usize> Neg for Number<N> {
    type Output = Number<N>;

    /// Flips every digit, which negates the integer that the number stands
    /// for. Nothing can overflow: the range of `N` digits is symmetric.
    fn neg(self) -> (r: Number<N>)
        ensures
            r@ == negated(self@),
            r.value() == -self.value(),
            r == self.negation(),
    {
        let mut out = self;
        let mut i: usize = 0;
        while i < N
            invariant
                i <= N,
                forall|j: int| 0 <= j < i ==> out@[j] == self@[j].flipped(),
                forall|j: int| i <= j < N ==> out@[j] == self@[j],
            decreases N - i,
        {
            out.0[i] = self.0[i].neg();
            i += 1;
        }
        proof {
            assert(out@ =~= negated(self@));
            lemma_digits_value_negated(self@);
            out.lemma_is_from_digits(negated(self@));
        }
        out
    }
}

impl<const N: usize> vstd::std_specs::ops::NegSpecImpl for Number<N> {
    open spec fn obeys_neg_spec() -> bool {
        true
    }

    open spec fn neg_req(self) -> bool {
        true
    }

    open spec fn neg_spec(self) -> Number<N> {
        self.negation()
    }
}

impl<const N: usize> ShlAssign<usize> for Number<N> {
    /// Moves the digits `rhs` places towards the most significant end. The
    /// `rhs` most significant digits are dropped and zeros come in at the
    /// least significant end, so the number then stands for `3^rhs` times
    /// what it stood for, wrapped into the range of `N` digits.
    fn shl_assign(&mut self, rhs: usize)
        ensures
            final(self)@ == shifted(old(self)@, rhs as nat),
            final(self).value() == wrap(old(self).value() * pow3(rhs as nat), N as nat),
            *final(self) == old(self).shifted_left(rhs as nat),
    {
        let mut i: usize = 0;
        while i < N
            invariant
                i <= N,
                forall|j: int| 0 <= j < i ==> self@[j] == shifted(old(self)@, rhs as nat)[j],
                forall|j: int| i <= j < N ==> self@[j] == old(self)@[j],
            decreases N - i,
        {
            let ghost before = self@;
            let digit = if rhs < N - i {
                self.0[i + rhs]
            } else {
                Trit::ZERO
            };
            self.0[i] = digit;
            assert(self@ == before.update(i as int, digit));
            i += 1;
        }
        proof {
            assert(self@ =~= shifted(old(self)@, rhs as nat));
            lemma_digits_value_shifted(old(self)@, rhs as nat);
            self.lemma_is_from_digits(shifted(old(self)@, rhs as nat));
        }
    }
}

} // verus!
