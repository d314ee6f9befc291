//! Laws of the arithmetic on numbers, stated over the numbers that the
//! operators are specified to give.

use vstd::prelude::*;
use crate::number::Number;
use crate::ternary::{
    in_range, lemma_digits_value_negated, lemma_digits_value_shifted, lemma_trunc_div,
    lemma_wrap_in_range, magnitude, negated, pow3, shifted, trunc_div, wrap,
};

verus! {

impl<const N: usize> Number<N> {
    /// Flipping every digit negates the integer that the number stands for.
    /// Nothing wraps: the range of `N` digits is symmetric.
    pub proof fn lemma_negation_value(self)
        ensures
            self.negation().value() == -self.value(),
            self.negation() == Self::from_value(-self.value()),
    {
        Self::lemma_from_digits(negated(self@));
        lemma_digits_value_negated(self@);
        self.negation().lemma_value_in_range();
        self.negation().lemma_is_from_value(-self.value());
    }

    /// Moving the digits `k` places multiplies by `3^k`, up to wrapping.
    pub proof fn lemma_shifted_left_value(self, k: nat)
        ensures
            self.shifted_left(k).value() == wrap(self.value() * pow3(k), N as nat),
            self.shifted_left(k) == Self::from_value(self.value() * pow3(k)),
    {
        Self::lemma_from_digits(shifted(self@, k));
        lemma_digits_value_shifted(self@, k);
        self.shifted_left(k).lemma_is_from_value(self.value() * pow3(k));
    }

    /// A sum that fits in `N` digits is exact.
    pub proof fn lemma_sum_value(self, rhs: Number<N>)
        requires
            in_range(self.value() + rhs.value(), N as nat),
        ensures
            self.sum(rhs).value() == self.value() + rhs.value(),
    {
        lemma_wrap_in_range(self.value() + rhs.value(), N as nat);
        Self::lemma_from_value(self.value() + rhs.value());
    }

    /// A difference that fits in `N` digits is exact.
    pub proof fn lemma_difference_value(self, rhs: Number<N>)
        requires
            in_range(self.value() - rhs.value(), N as nat),
        ensures
            self.difference(rhs).value() == self.value() - rhs.value(),
    {
        lemma_wrap_in_range(self.value() - rhs.value(), N as nat);
        Self::lemma_from_value(self.value() - rhs.value());
    }

    /// A product that fits in `N` digits is exact.
    pub proof fn lemma_product_value(self, rhs: Number<N>)
        requires
            in_range(self.value() * rhs.value(), N as nat),
        ensures
            self.product(rhs).value() == self.value() * rhs.value(),
    {
        lemma_wrap_in_range(self.value() * rhs.value(), N as nat);
        Self::lemma_from_value(self.value() * rhs.value());
    }

    /// Division never wraps: the quotient by a number other than zero stands
    /// for the quotient of the integers, rounded towards zero.
    pub proof fn lemma_quotient_value(self, divisor: Number<N>)
        requires
            divisor != Self::zero_spec(),
        ensures
            self.quotient(divisor).value() == trunc_div(self.value(), divisor.value()),
    {
        divisor.lemma_zero_value();
        let q = trunc_div(self.value(), divisor.value());
        self.lemma_value_in_range();
        lemma_trunc_div(self.value(), divisor.value());
        lemma_wrap_in_range(q, N as nat);
        Self::lemma_from_value(q);
    }

    /// A number and its negation add up to zero.
    pub proof fn lemma_add_negation_is_zero(self)
        ensures
            self.sum(self.negation()) == Self::zero_spec(),
    {
        self.lemma_negation_value();
        self.lemma_zero_value();
    }

    /// Subtracting a number is adding its negation.
    pub proof fn lemma_sub_is_add_negation(self, rhs: Number<N>)
        ensures
            self.difference(rhs) == self.sum(rhs.negation()),
    {
        rhs.lemma_negation_value();
    }

    /// Multiplying by a number that stands for one changes nothing.
    pub proof fn lemma_mul_one(self, one: Number<N>)
        requires
            one.value() == 1,
        ensures
            self.product(one) == self,
            one.product(self) == self,
    {
        assert(self.value() * 1 == self.value());
        assert(1 * self.value() == self.value());
        self.lemma_value_in_range();
        self.lemma_is_from_value(self.value());
    }

    /// Multiplying by zero gives zero.
    pub proof fn lemma_mul_zero(self)
        ensures
            self.product(Self::zero_spec()) == Self::zero_spec(),
            Self::zero_spec().product(self) == Self::zero_spec(),
    {
        self.lemma_zero_value();
        assert(self.value() * 0 == 0);
        assert(0 * self.value() == 0);
    }

    /// A quotient is negative exactly when one of dividend and divisor is
    /// negative and the other is not.
    ///
    /// This is stated of quotients that are not zero. A dividend that is
    /// smaller in size than the divisor gives zero, which is not negative
    /// whatever the signs are; such a pair is left out where its signs
    /// differ.
    pub proof fn lemma_div_sign(self, divisor: Number<N>)
        requires
            self != Self::zero_spec(),
            divisor != Self::zero_spec(),
            magnitude(self.value()) >= magnitude(divisor.value())
                || (self.value() < 0) == (divisor.value() < 0),
        ensures
            self.quotient(divisor).value() < 0 <==> (self.value() < 0) != (divisor.value() < 0),
    {
        self.lemma_zero_value();
        divisor.lemma_zero_value();
        self.lemma_quotient_value(divisor);
        lemma_trunc_div(self.value(), divisor.value());
    }

    /// Zero divided by any number other than zero is zero.
    pub proof fn lemma_div_of_zero(divisor: Number<N>)
        requires
            divisor != Self::zero_spec(),
        ensures
            Self::zero_spec().quotient(divisor) == Self::zero_spec(),
    {
        divisor.lemma_zero_value();
        lemma_trunc_div(0, divisor.value());
    }

    /// Division rounds towards zero: the size of the quotient is how many
    /// times the size of the divisor fits in the size of the dividend.
    pub proof fn lemma_div_truncates(self, divisor: Number<N>)
        requires
            divisor != Self::zero_spec(),
        ensures
            magnitude(self.quotient(divisor).value()) * magnitude(divisor.value()) <= magnitude(
                self.value(),
            ),
            magnitude(self.value()) < (magnitude(self.quotient(divisor).value()) + 1) * magnitude(
                divisor.value(),
            ),
    {
        divisor.lemma_zero_value();
        self.lemma_quotient_value(divisor);
        lemma_trunc_div(self.value(), divisor.value());
    }
}

} // verus!
