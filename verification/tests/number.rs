use balanced_ternary::number::Number;
use balanced_ternary::trit::Trit;

const N: Trit = Trit::NEG;
const Z: Trit = Trit::ZERO;
const P: Trit = Trit::POS;

#[test]
fn zero_has_only_zero_digits() {
    assert_eq!(Number::<5>::zero(), Number([Z, Z, Z, Z, Z]));
    assert_eq!(Number::<0>::zero(), Number([]));
}

#[test]
fn from_text_aligns_at_the_least_significant_end() {
    assert_eq!(Number::<8>::from("+0--"), Number([Z, Z, Z, Z, P, Z, N, N]));
    assert_eq!(Number::<8>::from("++-0"), Number([Z, Z, Z, Z, P, P, N, Z]));
    assert_eq!(Number::<4>::from("+0--"), Number([P, Z, N, N]));
    assert_eq!(Number::<3>::from("-"), Number([Z, Z, N]));
}

#[test]
fn from_empty_text_is_zero() {
    assert_eq!(Number::<4>::from(""), Number::<4>::zero());
}

#[test]
fn from_text_longer_than_the_width_keeps_the_last_digits() {
    assert_eq!(Number::<3>::from("+-+0-"), Number([P, Z, N]));
    assert_eq!(Number::<0>::from("+-"), Number([]));
}

#[test]
fn from_text_reads_other_characters_as_zero() {
    assert_eq!(Number::<4>::from("+x 0"), Number([P, Z, Z, Z]));
    assert_eq!(Number::<4>::from("é-"), Number([Z, Z, Z, N]));
}

#[test]
fn negation_flips_every_digit() {
    assert_eq!(-Number::<4>::from("+0--"), Number([N, Z, P, P]));
    assert_eq!(-Number::<4>::zero(), Number::<4>::zero());
    assert_eq!(-(-Number::<4>::from("+-0+")), Number::<4>::from("+-0+"));
}

#[test]
fn equality_is_equality_of_digits() {
    assert!(Number::<4>::from("+0--") == Number::<4>::from("+0--"));
    assert!(Number::<4>::from("+0--") != Number::<4>::from("+0-0"));
    assert!(Number::<4>::from("0") == Number::<4>::zero());
    assert!(Number::<0>::zero() == Number::<0>::from("+"));
}

#[test]
fn order_is_the_order_of_the_integers() {
    let zero = Number::<4>::zero();
    let two = Number::<4>::from("+-");
    let three = Number::<4>::from("+0");
    let minus_two = Number::<4>::from("-+");
    let minus_forty = Number::<4>::from("----");
    let forty = Number::<4>::from("++++");

    assert!(two < three);
    assert!(three > two);
    assert!(minus_two < zero);
    assert!(zero < two);
    assert!(minus_forty < minus_two);
    assert!(minus_forty < forty);
    assert!(two <= two);
    assert!(two >= two);
    assert!(!(two < two));
    // The most significant difference decides, whatever follows it.
    assert!(Number::<4>::from("0+--") < Number::<4>::from("+---"));
    assert!(Number::<4>::from("0+++") < Number::<4>::from("+---"));
    assert_eq!(two.partial_cmp(&three), Some(std::cmp::Ordering::Less));
    assert_eq!(three.partial_cmp(&two), Some(std::cmp::Ordering::Greater));
    assert_eq!(two.partial_cmp(&two), Some(std::cmp::Ordering::Equal));
}

#[test]
fn shift_moves_digits_towards_the_most_significant_end() {
    let mut n = Number::<5>::from("+0-");
    n <<= 1;
    assert_eq!(n, Number::<5>::from("+0-0"));
    n <<= 0;
    assert_eq!(n, Number::<5>::from("+0-0"));
    n <<= 2;
    // The leading plus one falls off.
    assert_eq!(n, Number::<5>::from("0-000"));
    n <<= 5;
    assert_eq!(n, Number::<5>::zero());
    let mut m = Number::<5>::from("+++++");
    m <<= 7;
    assert_eq!(m, Number::<5>::zero());
    let mut k = Number::<5>::from("+-+-+");
    k <<= 4;
    assert_eq!(k, Number::<5>::from("+0000"));
}

#[test]
fn increment_carries_as_far_as_needed() {
    let mut n = Number::<4>::from("0");
    n.inc();
    assert_eq!(n, Number::<4>::from("+"));
    n.inc();
    assert_eq!(n, Number::<4>::from("+-"));
    n.inc();
    assert_eq!(n, Number::<4>::from("+0"));
    n.inc();
    assert_eq!(n, Number::<4>::from("++"));
    n.inc();
    assert_eq!(n, Number::<4>::from("+--"));

    let mut m = Number::<4>::from("0+++");
    m.inc();
    assert_eq!(m, Number::<4>::from("+---"));
}

#[test]
fn increment_wraps_at_the_largest_number() {
    let mut n = Number::<3>::from("+++");
    n.inc();
    assert_eq!(n, Number::<3>::from("---"));
}

#[test]
fn adding_a_single_digit() {
    let mut n = Number::<4>::from("+0--");
    n += Trit::ZERO;
    assert_eq!(n, Number::<4>::from("+0--"));
    n += Trit::NEG;
    assert_eq!(n, Number::<4>::from("+-++"));
    n += Trit::POS;
    assert_eq!(n, Number::<4>::from("+0--"));

    let mut low = Number::<2>::from("--");
    low += Trit::NEG;
    assert_eq!(low, Number::<2>::from("++"));

    let mut empty = Number::<0>::zero();
    empty += Trit::POS;
    assert_eq!(empty, Number::<0>::zero());
}
