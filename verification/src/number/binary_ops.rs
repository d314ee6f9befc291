//! Addition, subtraction, multiplication and division of numbers, each as an
//! operator that gives a new number and as one that works in place.
//!
//! A result that does not fit in `N` digits wraps around: the carry out of
//! the most significant position is dropped.

use vstd::prelude::*;
use vstd::arithmetic::div_mod::lemma_fundamental_div_mod_converse;
use std::ops::{Add, AddAssign, Div, DivAssign, Mul, MulAssign, Neg, ShlAssign, Sub, SubAssign};
use crate::number::Number;
use crate::ternary::{
    lemma_carry_step, lemma_digits_value_split, lemma_digits_value_zeros, lemma_pow3,
    lemma_product_step, lemma_tail_value_agree, lemma_tail_value_ends,
    lemma_wrap_in_range, lemma_wrap_mul, lemma_wrap_unique, magnitude, pow3, tail_value,
    trunc_div, wrap, zeros,
};
use crate::trit::Trit;

verus! {

impl<const N: usize> Add for Number<N> {
    type Output = Number<N>;

    /// Adds two numbers digit by digit from the least significant end, each
    /// position passing its carry on to the next more significant one.
    fn add(self, rhs: Number<N>) -> (r: Number<N>)
        ensures
            r.value() == wrap(self.value() + rhs.value(), N as nat),
            r == self.sum(rhs),
    {
        let mut out = Number::<N>::zero();
        let mut carry = Trit::ZERO;
        let mut i: usize = N;
        proof {
            lemma_tail_value_ends(self@);
            lemma_tail_value_ends(rhs@);
            lemma_tail_value_ends(out@);
        }
        while i > 0
            invariant
                i <= N,
                tail_value(out@, i as int) + carry.value() * pow3((N - i) as nat) == tail_value(
                    self@,
                    i as int,
                ) + tail_value(rhs@, i as int),
            decreases i,
        {
            i -= 1;
            let ghost before = out@;
            let ghost carry_in = carry;
            let sum = self.0[i].add_with_carry(&rhs.0[i], &carry);
            out.0[i] = sum.result;
            carry = sum.carry;
            proof {
                assert(out@ == before.update(i as int, sum.result));
                lemma_tail_value_agree(out@, before, i + 1);
                lemma_carry_step(self@, rhs@, out@, i as int, carry_in, carry, 0);
            }
        }
        proof {
            lemma_tail_value_ends(self@);
            lemma_tail_value_ends(rhs@);
            lemma_tail_value_ends(out@);
            lemma_sum_wraps(out, self.value() + rhs.value(), carry);
        }
        out
    }
}

impl<const N: usize> vstd::std_specs::ops::AddSpecImpl for Number<N> {
    open spec fn obeys_add_spec() -> bool {
        true
    }

    open spec fn add_req(self, rhs: Number<N>) -> bool {
        true
    }

    open spec fn add_spec(self, rhs: Number<N>) -> Number<N> {
        self.sum(rhs)
    }
}

impl<const N: usize> AddAssign for Number<N> {
    /// Adds `rhs` to the number in place: each digit is replaced by the
    /// result digit of its position as the carry passes through.
    fn add_assign(&mut self, rhs: Number<N>)
        ensures
            final(self).value() == wrap(old(self).value() + rhs.value(), N as nat),
            *final(self) == old(self).sum(rhs),
    {
        let mut carry = Trit::ZERO;
        let mut i: usize = N;
        proof {
            lemma_tail_value_ends(self@);
            lemma_tail_value_ends(rhs@);
        }
        while i > 0
            invariant
                i <= N,
                forall|j: int| 0 <= j < i ==> self@[j] == old(self)@[j],
                tail_value(self@, i as int) + carry.value() * pow3((N - i) as nat) == tail_value(
                    old(self)@,
                    i as int,
                ) + tail_value(rhs@, i as int),
            decreases i,
        {
            i -= 1;
            let ghost before = self@;
            let ghost carry_in = carry;
            let sum = self.0[i].add_with_carry(&rhs.0[i], &carry);
            self.0[i] = sum.result;
            carry = sum.carry;
            proof {
                assert(self@ == before.update(i as int, sum.result));
                lemma_tail_value_agree(self@, before, i + 1);
                lemma_carry_step(old(self)@, rhs@, self@, i as int, carry_in, carry, 0);
            }
        }
        proof {
            lemma_tail_value_ends(old(self)@);
            lemma_tail_value_ends(rhs@);
            lemma_tail_value_ends(self@);
            lemma_sum_wraps(*self, old(self).value() + rhs.value(), carry);
        }
    }
}

impl<const N: usize> AddAssign<Trit> for Number<N> {
    /// Adds a single digit at the least significant position. The carry moves
    /// towards the most significant end one position at a time, and the work
    /// ends as soon as there is nothing left to carry.
    fn add_assign(&mut self, rhs: Trit)
        ensures
            final(self).value() == wrap(old(self).value() + rhs.value(), N as nat),
            *final(self) == old(self).sum_with_trit(rhs),
    {
        let ghost zero_row = zeros(N as nat);
        let mut carry = rhs;
        let mut i: usize = N;
        proof {
            lemma_tail_value_ends(self@);
            lemma_tail_value_ends(zero_row);
        }
        while i > 0 && carry != Trit::ZERO
            invariant
                i <= N,
                zero_row == zeros(N as nat),
                forall|j: int| 0 <= j < i ==> self@[j] == old(self)@[j],
                tail_value(self@, i as int) + carry.value() * pow3((N - i) as nat) == tail_value(
                    old(self)@,
                    i as int,
                ) + tail_value(zero_row, i as int) + rhs.value(),
            decreases i,
        {
            i -= 1;
            let ghost before = self@;
            let ghost carry_in = carry;
            let sum = self.0[i].add(&carry);
            self.0[i] = sum.result;
            carry = sum.carry;
            proof {
                assert(self@ == before.update(i as int, sum.result));
                lemma_tail_value_agree(self@, before, i + 1);
                lemma_carry_step(old(self)@, zero_row, self@, i as int, carry_in, carry, rhs.value());
            }
        }
        proof {
            assert(zero_row.subrange(i as int, N as int) =~= zeros((N - i) as nat));
            lemma_digits_value_zeros((N - i) as nat);
            lemma_digits_value_split(self@, i as int);
            lemma_digits_value_split(old(self)@, i as int);
            assert(self@.subrange(0, i as int) =~= old(self)@.subrange(0, i as int));
            if i == 0 {
                lemma_tail_value_ends(self@);
                lemma_tail_value_ends(old(self)@);
            }
            lemma_sum_wraps(*self, old(self).value() + rhs.value(), carry);
        }
    }
}

impl<const N: usize> Number<N> {
    /// Adds one to the number in place.
    pub fn inc(&mut self)
        ensures
            final(self).value() == wrap(old(self).value() + 1, N as nat),
            *final(self) == old(self).sum_with_trit(Trit::POS),
    {
        self.add_assign(Trit::POS);
    }
}

impl<const N: usize> Sub for Number<N> {
    type Output = Number<N>;

    /// Subtracts by adding the negation of `rhs`.
    fn sub(self, rhs: Number<N>) -> (r: Number<N>)
        ensures
            r.value() == wrap(self.value() - rhs.value(), N as nat),
            r == self.difference(rhs),
    {
        self + rhs.neg()
    }
}

impl<const N: usize> vstd::std_specs::ops::SubSpecImpl for Number<N> {
    open spec fn obeys_sub_spec() -> bool {
        true
    }

    open spec fn sub_req(self, rhs: Number<N>) -> bool {
        true
    }

    open spec fn sub_spec(self, rhs: Number<N>) -> Number<N> {
        self.difference(rhs)
    }
}

impl<const N: usize> SubAssign for Number<N> {
    /// Subtracts `rhs` from the number in place, by adding its negation.
    fn sub_assign(&mut self, rhs: Number<N>)
        ensures
            final(self).value() == wrap(old(self).value() - rhs.value(), N as nat),
            *final(self) == old(self).difference(rhs),
    {
        self.add_assign(rhs.neg());
    }
}

impl<const N: usize> Mul for Number<N> {
    type Output = Number<N>;

    /// Multiplies by shifting and adding. The digits of `self` are taken from
    /// the least significant end, beside a copy of `rhs` that is moved one
    /// place further for each digit: a plus one adds the copy to the product,
    /// a minus one adds its negation, a zero adds nothing.
    fn mul(self, rhs: Number<N>) -> (r: Number<N>)
        ensures
            r.value() == wrap(self.value() * rhs.value(), N as nat),
            r == self.product(rhs),
    {
        let mut rhs_shifted = rhs;
        let mut product = Number::<N>::zero();
        let mut i: usize = N;
        proof {
            lemma_tail_value_ends(self@);
            rhs.lemma_value_in_range();
            assert(rhs.value() * 1 == rhs.value());
            assert(0 * rhs.value() == 0);
            lemma_wrap_in_range(0, N as nat);
        }
        while i > 0
            invariant
                i <= N,
                rhs_shifted.value() == wrap(rhs.value() * pow3((N - i) as nat), N as nat),
                product.value() == wrap(tail_value(self@, i as int) * rhs.value(), N as nat),
            decreases i,
        {
            i -= 1;
            let ghost copy = rhs_shifted.value();
            proof {
                lemma_product_step(self@, i as int, rhs.value(), product.value(), copy);
                product.lemma_value_in_range();
                assert(1 * copy == copy);
                assert((-1) * copy == -copy);
                assert(0 * copy == 0);
            }
            match self.0[i] {
                Trit::NEG => {
                    product = product + rhs_shifted.neg();
                },
                Trit::ZERO => {},
                Trit::POS => {
                    product = product + rhs_shifted;
                },
            }
            rhs_shifted.shl_assign(1);
            proof {
                lemma_pow3((N - i) as nat);
                let weight = pow3((N - i - 1) as nat);
                assert(pow3(1) == 3) by {
                    lemma_pow3(1);
                }
                lemma_wrap_mul(rhs.value() * weight, 3, N as nat);
                assert(rhs.value() * weight * 3 == rhs.value() * (3 * weight)) by (nonlinear_arith);
            }
        }
        proof {
            lemma_tail_value_ends(self@);
            product.lemma_is_from_value(self.value() * rhs.value());
        }
        product
    }
}

impl<const N: usize> vstd::std_specs::ops::MulSpecImpl for Number<N> {
    open spec fn obeys_mul_spec() -> bool {
        true
    }

    open spec fn mul_req(self, rhs: Number<N>) -> bool {
        true
    }

    open spec fn mul_spec(self, rhs: Number<N>) -> Number<N> {
        self.product(rhs)
    }
}

impl<const N: usize> MulAssign for Number<N> {
    /// Multiplies the number by `rhs` in place. The product is built in a
    /// number of its own and then copied over.
    fn mul_assign(&mut self, rhs: Number<N>)
        ensures
            final(self).value() == wrap(old(self).value() * rhs.value(), N as nat),
            *final(self) == old(self).product(rhs),
    {
        *self = *self * rhs;
    }
}

impl<const N: usize> Div for Number<N> {
    type Output = Number<N>;

    /// Divides by repeated subtraction, rounding towards zero. Both numbers
    /// are first made non-negative; the divisor is then taken off the
    /// dividend for as long as it fits, which is counted; and the count is
    /// negated where exactly one of the two was negative.
    ///
    /// The divisor must not be the zero number.
    fn div(self, divisor: Number<N>) -> (r: Number<N>)
        ensures
            r.value() == trunc_div(self.value(), divisor.value()),
            r == self.quotient(divisor),
    {
        proof {
            divisor.lemma_zero_value();
        }
        let zero = Number::<N>::zero();
        let numerator_is_negative = self < zero;
        let mut abs_remainder = if numerator_is_negative {
            self.neg()
        } else {
            self
        };

        let divisor_is_negative = divisor < zero;
        let abs_divisor = if divisor_is_negative {
            divisor.neg()
        } else {
            divisor
        };

        let mut quotient = Number::<N>::zero();
        proof {
            assert(0 * abs_divisor.value() == 0);
        }
        while abs_remainder >= abs_divisor
            invariant
                abs_divisor.value() > 0,
                abs_remainder.value() >= 0,
                quotient.value() >= 0,
                magnitude(self.value()) == quotient.value() * abs_divisor.value()
                    + abs_remainder.value(),
            decreases abs_remainder.value(),
        {
            proof {
                let q = quotient.value();
                let d = abs_divisor.value();
                let rest = abs_remainder.value();
                self.lemma_value_in_range();
                abs_remainder.lemma_value_in_range();
                lemma_wrap_in_range(rest - d, N as nat);
                assert((q + 1) * d == q * d + d && q + 1 <= q * d + d) by (nonlinear_arith)
                    requires
                        q >= 0,
                        d >= 1,
                ;
                lemma_wrap_in_range(q + 1, N as nat);
            }
            abs_remainder.sub_assign(abs_divisor);
            quotient.inc();
        }
        proof {
            lemma_fundamental_div_mod_converse(
                magnitude(self.value()),
                abs_divisor.value(),
                quotient.value(),
                abs_remainder.value(),
            );
        }

        let r = if numerator_is_negative ^ divisor_is_negative {
            quotient.neg()
        } else {
            quotient
        };
        proof {
            r.lemma_value_in_range();
            r.lemma_is_from_value(trunc_div(self.value(), divisor.value()));
        }
        r
    }
}

impl<const N: usize> vstd::std_specs::ops::DivSpecImpl for Number<N> {
    open spec fn obeys_div_spec() -> bool {
        true
    }

    open spec fn div_req(self, divisor: Number<N>) -> bool {
        divisor != Number::<N>::zero_spec()
    }

    open spec fn div_spec(self, divisor: Number<N>) -> Number<N> {
        self.quotient(divisor)
    }
}

impl<const N: usize> DivAssign for Number<N> {
    /// Divides the number by `divisor` in place, rounding towards zero.
    ///
    /// The divisor must not be the zero number.
    fn div_assign(&mut self, divisor: Number<N>)
        requires
            divisor != Number::<N>::zero_spec(),
        ensures
            final(self).value() == trunc_div(old(self).value(), divisor.value()),
            *final(self) == old(self).quotient(divisor),
    {
        *self = *self / divisor;
    }
}

/// The digits that a carry-propagating addition leaves behind stand for what
/// the true sum wraps to: they differ from it by the carry out of the most
/// significant position, which weighs `3^N`.
proof fn lemma_sum_wraps<const N: usize>(out: Number<N>, sum: int, carry: Trit)
    requires
        out.value() + carry.value() * pow3(N as nat) == sum,
    ensures
        out.value() == wrap(sum, N as nat),
        out == Number::<N>::from_value(sum),
{
    out.lemma_value_in_range();
    let m = pow3(N as nat);
    let c = carry.value();
    assert(out.value() == sum + (-c) * m) by (nonlinear_arith)
        requires
            out.value() + c * m == sum,
    ;
    lemma_wrap_unique(out.value(), sum, -c, N as nat);
    out.lemma_is_from_value(sum);
}

} // verus!
