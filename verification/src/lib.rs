//! Fixed-width balanced-ternary integers.
//!
//! A number is a row of `N` digits, each of which is minus one, zero or plus
//! one, with weights that are powers of three. Negation is a digit-wise flip,
//! so there is no sign bit and subtraction is addition of the negation.
//!
//! Every operator is total on the digits it is given: a result that does not
//! fit in `N` digits wraps around modulo `3^N` into the symmetric range
//! `-(3^N - 1) / 2 ..= (3^N - 1) / 2`, which is what dropping the carry out of
//! the most significant position amounts to. Division by zero is the one
//! operation that callers must rule out themselves.
//!
//! - [`trit`] holds the digit, its negation and its addition with carry.
//! - [`sum_result`] holds the digit and the carry that adding digits gives.
//! - [`ternary`] holds the arithmetic that the contracts are stated in: the
//!   integer that a row of digits stands for, and wrapping.
//! - [`number`] holds the number itself, its construction, negation, shift,
//!   order and operators, and the laws that the operators obey.

pub mod trit;
pub mod sum_result;
pub mod ternary;
pub mod number;
