//! The arithmetic behind balanced ternary: powers of three, the integer that
//! a row of digits stands for, and wrapping into the symmetric range.

use vstd::prelude::*;
use vstd::arithmetic::div_mod::{lemma_fundamental_div_mod, lemma_fundamental_div_mod_converse};
use crate::trit::Trit;

verus! {

/// Three to the power `n`.
pub open spec fn pow3(n: nat) -> int
    decreases n,
{
    if n == 0 {
        1
    } else {
        3 * pow3((n - 1) as nat)
    }
}

/// The largest integer that `n` digits can stand for, `(3^n - 1) / 2`.
pub open spec fn max_value(n: nat) -> int {
    (pow3(n) - 1) / 2
}

/// Whether `n` digits can stand for `v`.
pub open spec fn in_range(v: int, n: nat) -> bool {
    -max_value(n) <= v <= max_value(n)
}

/// The one integer that `n` digits can stand for and that differs from `v` by
/// a multiple of `3^n`.
pub open spec fn wrap(v: int, n: nat) -> int {
    (v + max_value(n)) % pow3(n) - max_value(n)
}

/// The integer that a row of digits stands for, most significant digit first.
pub open spec fn digits_value(s: Seq<Trit>) -> int
    decreases s.len(),
{
    if s.len() == 0 {
        0
    } else {
        3 * digits_value(s.drop_last()) + s.last().value()
    }
}

/// The value of the digits of a row from position `i` on: the row without its
/// `i` most significant digits.
pub open spec fn tail_value(s: Seq<Trit>, i: int) -> int {
    digits_value(s.subrange(i, s.len() as int))
}

/// The digits that a text writes on `n` positions. The text is read from its
/// end, so that its last character is the least significant digit; positions
/// that the text does not reach are zero, and characters that do not fit on
/// `n` positions are left out.
pub open spec fn text_digits(text: Seq<char>, n: nat) -> Seq<Trit> {
    Seq::new(
        n,
        |i: int|
            if text.len() - n + i >= 0 {
                Trit::from_char_spec(text[text.len() - n + i])
            } else {
                Trit::ZERO
            },
    )
}

/// A row of `n` zero digits.
pub open spec fn zeros(n: nat) -> Seq<Trit> {
    Seq::new(n, |i: int| Trit::ZERO)
}

/// The digit-wise negation of a row of digits.
pub open spec fn negated(s: Seq<Trit>) -> Seq<Trit> {
    Seq::new(s.len(), |i: int| s[i].flipped())
}

/// A row of digits moved `k` places towards the most significant end: the
/// first `k` digits fall off and `k` zeros come in at the other end.
pub open spec fn shifted(s: Seq<Trit>, k: nat) -> Seq<Trit> {
    Seq::new(
        s.len(),
        |i: int|
            if i + k < s.len() {
                s[i + k]
            } else {
                Trit::ZERO
            },
    )
}

/// The size of an integer, without its sign.
pub open spec fn magnitude(v: int) -> int {
    if v < 0 {
        -v
    } else {
        v
    }
}

/// The quotient of `a` by `b` rounded towards zero: the quotient of the sizes,
/// negative where exactly one of the two is negative.
pub open spec fn trunc_div(a: int, b: int) -> int {
    if (a < 0) == (b < 0) {
        magnitude(a) / magnitude(b)
    } else {
        -(magnitude(a) / magnitude(b))
    }
}

/// Powers of three are positive and odd, and each is three times the one
/// before it.
pub proof fn lemma_pow3(n: nat)
    ensures
        pow3(n) >= 1,
        pow3(n) == 2 * max_value(n) + 1,
        max_value(n) >= 0,
        n > 0 ==> pow3(n) == 3 * pow3((n - 1) as nat),
        n > 0 ==> max_value(n) == 3 * max_value((n - 1) as nat) + 1,
    decreases n,
{
    if n > 0 {
        lemma_pow3((n - 1) as nat);
    }
}

/// Exponents add where powers multiply.
pub proof fn lemma_pow3_add(a: nat, b: nat)
    ensures
        pow3(a + b) == pow3(a) * pow3(b),
    decreases b,
{
    if b == 0 {
        assert(pow3(a) * 1 == pow3(a));
    } else {
        lemma_pow3_add(a, (b - 1) as nat);
        let p = pow3(a);
        let q = pow3((b - 1) as nat);
        assert(3 * (p * q) == p * (3 * q)) by (nonlinear_arith);
    }
}

/// Appending a least significant digit triples the value and adds the digit.
pub proof fn lemma_digits_value_push(s: Seq<Trit>, d: Trit)
    ensures
        digits_value(s.push(d)) == 3 * digits_value(s) + d.value(),
{
    assert(s.push(d).drop_last() =~= s);
}

/// The value of two rows written one after the other.
pub proof fn lemma_digits_value_concat(a: Seq<Trit>, b: Seq<Trit>)
    ensures
        digits_value(a + b) == digits_value(a) * pow3(b.len()) + digits_value(b),
    decreases b.len(),
{
    if b.len() == 0 {
        assert(a + b =~= a);
        assert(digits_value(a) * 1 == digits_value(a));
    } else {
        let front = b.drop_last();
        lemma_digits_value_concat(a, front);
        assert((a + b).drop_last() =~= a + front);
        let x = digits_value(a);
        let p = pow3(front.len());
        assert(3 * (x * p) == x * (3 * p)) by (nonlinear_arith);
    }
}

/// The value of a row of digits from position `i` on, in terms of the digit
/// at `i` and the value of what follows it.
pub proof fn lemma_tail_value_step(s: Seq<Trit>, i: int)
    requires
        0 <= i < s.len(),
    ensures
        tail_value(s, i) == s[i].value() * pow3((s.len() - i - 1) as nat) + tail_value(s, i + 1),
{
    let head = seq![s[i]];
    let tail = s.subrange(i + 1, s.len() as int);
    assert(s.subrange(i, s.len() as int) =~= head + tail);
    lemma_digits_value_concat(head, tail);
    assert(digits_value(head.drop_last()) == 0);
}

/// The value of a row of digits split at position `i`.
pub proof fn lemma_digits_value_split(s: Seq<Trit>, i: int)
    requires
        0 <= i <= s.len(),
    ensures
        digits_value(s) == digits_value(s.subrange(0, i)) * pow3((s.len() - i) as nat)
            + tail_value(s, i),
{
    assert(s =~= s.subrange(0, i) + s.subrange(i, s.len() as int));
    lemma_digits_value_concat(s.subrange(0, i), s.subrange(i, s.len() as int));
}

/// `n` digits stand for an integer between `-(3^n - 1) / 2` and `(3^n - 1) / 2`.
pub proof fn lemma_digits_value_range(s: Seq<Trit>)
    ensures
        in_range(digits_value(s), s.len()),
    decreases s.len(),
{
    lemma_pow3(s.len());
    if s.len() > 0 {
        lemma_digits_value_range(s.drop_last());
    }
}

/// Two rows of the same length that stand for the same integer are the same
/// row.
pub proof fn lemma_digits_value_injective(s: Seq<Trit>, t: Seq<Trit>)
    requires
        s.len() == t.len(),
        digits_value(s) == digits_value(t),
    ensures
        s == t,
    decreases s.len(),
{
    if s.len() == 0 {
        assert(s =~= t);
    } else {
        lemma_digits_value_injective(s.drop_last(), t.drop_last());
        assert(s =~= s.drop_last().push(s.last()));
        assert(t =~= t.drop_last().push(t.last()));
    }
}

/// Every integer in the range of `n` digits is the value of some row of `n`
/// digits.
pub proof fn lemma_digits_exist(v: int, n: nat) -> (s: Seq<Trit>)
    requires
        in_range(v, n),
    ensures
        s.len() == n,
        digits_value(s) == v,
    decreases n,
{
    lemma_pow3(n);
    if n == 0 {
        Seq::empty()
    } else {
        let r = (v + 1) % 3 - 1;
        let u = (v - r) / 3;
        let front = lemma_digits_exist(u, (n - 1) as nat);
        lemma_digits_value_push(front, Trit::from_value(r));
        front.push(Trit::from_value(r))
    }
}

/// A row of zeros stands for zero.
pub proof fn lemma_digits_value_zeros(n: nat)
    ensures
        digits_value(zeros(n)) == 0,
    decreases n,
{
    if n > 0 {
        lemma_digits_value_zeros((n - 1) as nat);
        assert(zeros(n).drop_last() =~= zeros((n - 1) as nat));
    }
}

/// Flipping every digit negates the value.
pub proof fn lemma_digits_value_negated(s: Seq<Trit>)
    ensures
        digits_value(negated(s)) == -digits_value(s),
    decreases s.len(),
{
    if s.len() > 0 {
        lemma_digits_value_negated(s.drop_last());
        assert(negated(s).drop_last() =~= negated(s.drop_last()));
    }
}

/// Wrapping lands in the range and moves by a multiple of `3^n`; the multiple
/// is returned.
pub proof fn lemma_wrap(v: int, n: nat) -> (k: int)
    ensures
        in_range(wrap(v, n), n),
        wrap(v, n) == v + k * pow3(n),
{
    lemma_pow3(n);
    let m = pow3(n);
    let x = v + max_value(n);
    lemma_fundamental_div_mod(x, m);
    let k = -(x / m);
    assert(k * m == -(m * (x / m))) by (nonlinear_arith)
        requires
            k == -(x / m),
    ;
    k
}

/// An integer in the range that differs from `v` by a multiple of `3^n` is
/// what `v` wraps to.
pub proof fn lemma_wrap_unique(x: int, v: int, k: int, n: nat)
    requires
        in_range(x, n),
        x == v + k * pow3(n),
    ensures
        x == wrap(v, n),
{
    lemma_pow3(n);
    let m = pow3(n);
    let h = max_value(n);
    assert(v + h == (-k) * m + (x + h)) by (nonlinear_arith)
        requires
            x == v + k * m,
    ;
    lemma_fundamental_div_mod_converse(v + h, m, -k, x + h);
}

/// An integer in the range wraps to itself.
pub proof fn lemma_wrap_in_range(v: int, n: nat)
    requires
        in_range(v, n),
    ensures
        wrap(v, n) == v,
{
    assert(v == v + 0 * pow3(n));
    lemma_wrap_unique(v, v, 0, n);
}

/// Integers that differ by a multiple of `3^n` wrap to the same integer.
pub proof fn lemma_wrap_congruent(x: int, y: int, k: int, n: nat)
    requires
        x == y + k * pow3(n),
    ensures
        wrap(x, n) == wrap(y, n),
{
    let j = lemma_wrap(x, n);
    let m = pow3(n);
    assert(wrap(x, n) == y + (j + k) * m) by (nonlinear_arith)
        requires
            wrap(x, n) == x + j * m,
            x == y + k * m,
    ;
    lemma_wrap_unique(wrap(x, n), y, j + k, n);
}

/// Wrapping a factor first does not change what a product wraps to.
pub proof fn lemma_wrap_mul(x: int, c: int, n: nat)
    ensures
        wrap(wrap(x, n) * c, n) == wrap(x * c, n),
{
    let i = lemma_wrap(x, n);
    let m = pow3(n);
    assert(wrap(x, n) * c == x * c + (i * c) * m) by (nonlinear_arith)
        requires
            wrap(x, n) == x + i * m,
    ;
    lemma_wrap_congruent(wrap(x, n) * c, x * c, i * c, n);
}

/// The whole row is its own tail from position zero, and nothing is left from
/// its end on.
pub proof fn lemma_tail_value_ends(s: Seq<Trit>)
    ensures
        tail_value(s, 0) == digits_value(s),
        tail_value(s, s.len() as int) == 0,
{
    assert(s.subrange(0, s.len() as int) =~= s);
}

/// The tail of a row depends only on the digits from `i` on.
pub proof fn lemma_tail_value_agree(s: Seq<Trit>, t: Seq<Trit>, i: int)
    requires
        s.len() == t.len(),
        0 <= i <= s.len(),
        forall|j: int| i <= j < s.len() ==> s[j] == t[j],
    ensures
        tail_value(s, i) == tail_value(t, i),
{
    assert(s.subrange(i, s.len() as int) =~= t.subrange(i, t.len() as int));
}

/// One position of a carry-propagating addition. `carry0` is what entered at
/// the least significant position. Where the digits of `out` after position
/// `i`, with the carry into position `i`, account for the digits of `a` and
/// `b` after `i`, and the digit of `out` at `i` with the carry out of `i`
/// accounts for the two digits at `i` and the carry into it, the digits of
/// `out` from `i` on account for the digits of `a` and `b` from `i` on.
pub proof fn lemma_carry_step(
    a: Seq<Trit>,
    b: Seq<Trit>,
    out: Seq<Trit>,
    i: int,
    carry_in: Trit,
    carry_out: Trit,
    carry0: int,
)
    requires
        a.len() == b.len(),
        a.len() == out.len(),
        0 <= i < a.len(),
        3 * carry_out.value() + out[i].value() == a[i].value() + b[i].value() + carry_in.value(),
        tail_value(out, i + 1) + carry_in.value() * pow3((a.len() - i - 1) as nat) == tail_value(
            a,
            i + 1,
        ) + tail_value(b, i + 1) + carry0,
    ensures
        tail_value(out, i) + carry_out.value() * pow3((a.len() - i) as nat) == tail_value(a, i)
            + tail_value(b, i) + carry0,
{
    lemma_tail_value_step(a, i);
    lemma_tail_value_step(b, i);
    lemma_tail_value_step(out, i);
    lemma_pow3((a.len() - i) as nat);
    let p = pow3((a.len() - i - 1) as nat);
    let co = carry_out.value();
    let ci = carry_in.value();
    let x = a[i].value();
    let y = b[i].value();
    let z = out[i].value();
    assert(z * p + co * (3 * p) == x * p + y * p + ci * p) by (nonlinear_arith)
        requires
            3 * co + z == x + y + ci,
    ;
}

/// One position of a shift-and-add multiplication. Where the accumulator
/// holds the product of `b` and the digits of `a` after position `i`, and the
/// running copy holds `b` times the weight of position `i`, both up to
/// wrapping, adding the copy times the digit at `i` gives the product of `b`
/// and the digits of `a` from `i` on.
pub proof fn lemma_product_step(a: Seq<Trit>, i: int, b: int, acc: int, copy: int)
    requires
        0 <= i < a.len(),
        acc == wrap(tail_value(a, i + 1) * b, a.len()),
        copy == wrap(b * pow3((a.len() - i - 1) as nat), a.len()),
    ensures
        wrap(acc + a[i].value() * copy, a.len()) == wrap(tail_value(a, i) * b, a.len()),
{
    let n = a.len();
    let m = pow3(n);
    let p = pow3((n - i - 1) as nat);
    let d = a[i].value();
    let x = tail_value(a, i + 1);
    lemma_tail_value_step(a, i);
    let j = lemma_wrap(x * b, n);
    let k = lemma_wrap(b * p, n);
    assert((p + x) * b == b * p + x * b && (x - p) * b == x * b - b * p) by (nonlinear_arith);
    assert((j + k) * m == j * m + k * m && (j - k) * m == j * m - k * m) by (nonlinear_arith);
    lemma_wrap_congruent(acc + d * copy, tail_value(a, i) * b, j + d * k, n);
}

/// Where the first `i` digits of two rows agree and the next digit of the
/// first row is the smaller one, the first row stands for the smaller integer:
/// the most significant difference decides.
pub proof fn lemma_first_difference_decides(a: Seq<Trit>, b: Seq<Trit>, i: int)
    requires
        a.len() == b.len(),
        0 <= i < a.len(),
        forall|j: int| 0 <= j < i ==> a[j] == b[j],
        a[i].value() < b[i].value(),
    ensures
        digits_value(a) < digits_value(b),
    decreases a.len(),
{
    if i == a.len() - 1 {
        assert(a.drop_last() =~= b.drop_last());
    } else {
        lemma_first_difference_decides(a.drop_last(), b.drop_last(), i);
    }
}

/// Moving a row of digits `k` places multiplies its value by `3^k`, up to
/// wrapping.
pub proof fn lemma_digits_value_shifted(s: Seq<Trit>, k: nat)
    ensures
        digits_value(shifted(s, k)) == wrap(digits_value(s) * pow3(k), s.len()),
{
    let n = s.len();
    let t = shifted(s, k);
    lemma_digits_value_range(t);
    if k >= n {
        assert(t =~= zeros(n));
        lemma_digits_value_zeros(n);
        lemma_pow3_add(n, (k - n) as nat);
        let f = digits_value(s) * pow3((k - n) as nat);
        assert(0 == digits_value(s) * pow3(k) + (-f) * pow3(n)) by (nonlinear_arith)
            requires
                pow3(k) == pow3(n) * pow3((k - n) as nat),
                f == digits_value(s) * pow3((k - n) as nat),
        ;
        lemma_wrap_unique(0, digits_value(s) * pow3(k), -f, n);
    } else {
        let lost = s.subrange(0, k as int);
        let kept = s.subrange(k as int, n as int);
        assert(t =~= kept + zeros(k));
        lemma_digits_value_concat(kept, zeros(k));
        lemma_digits_value_zeros(k);
        lemma_digits_value_split(s, k as int);
        lemma_pow3_add((n - k) as nat, k);
        let x = digits_value(lost);
        let y = digits_value(kept);
        let p = pow3((n - k) as nat);
        let q = pow3(k);
        assert(y * q == (x * p + y) * q + (-x) * (p * q)) by (nonlinear_arith);
        lemma_wrap_unique(digits_value(t), digits_value(s) * pow3(k), -x, n);
    }
}

/// Rounding towards zero leaves a remainder that is smaller in size than the
/// divisor, and never gives a quotient that is larger in size than the
/// dividend.
pub proof fn lemma_trunc_div(a: int, b: int)
    requires
        b != 0,
    ensures
        magnitude(trunc_div(a, b)) == magnitude(a) / magnitude(b),
        magnitude(trunc_div(a, b)) * magnitude(b) <= magnitude(a),
        magnitude(a) < (magnitude(trunc_div(a, b)) + 1) * magnitude(b),
        magnitude(trunc_div(a, b)) <= magnitude(a),
{
    let x = magnitude(a);
    let d = magnitude(b);
    let q = x / d;
    lemma_fundamental_div_mod(x, d);
    assert(q >= 0 && q * d <= x && x < (q + 1) * d && q <= x) by (nonlinear_arith)
        requires
            x == d * q + x % d,
            0 <= x % d < d,
            x >= 0,
    ;
}

} // verus!
