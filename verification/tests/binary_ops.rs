use balanced_ternary::number::Number;

#[test]
fn binary_operations() {
    let num_23 = Number::<8>::from("+0--");
    let num_33 = Number::<8>::from("++-0");

    assert_eq!(num_23 + num_33, Number::<8>::from("+-0+-")); // Sum to 56
    assert_eq!(num_23 - num_33, Number::<8>::from("-0-")); // Difference is -10
    assert_eq!(num_33 - num_23, Number::<8>::from("+0+")); // Difference is 10
    assert_eq!(num_23 * num_33, Number::<8>::from("+00+0+0")); // Product is 759
}

#[test]
fn in_place_binary_operations() {
    let num_23 = Number::<8>::from("+0--");
    let num_33 = Number::<8>::from("++-0");

    let mut temp = num_23;
    temp += num_33;
    assert_eq!(temp, Number::<8>::from("+-0+-")); // Sum to 56

    temp = num_23;
    temp -= num_33;
    assert_eq!(temp, Number::<8>::from("-0-")); // Difference is -10

    temp = num_33;
    temp -= num_23;
    assert_eq!(temp, Number::<8>::from("+0+")); // Difference is 10

    temp = num_23;
    temp *= num_33;
    assert_eq!(temp, Number::<8>::from("+00+0+0")); // Product is 759
}

#[test]
fn integer_division() {
    let num_59 = Number::<8>::from("+-+--");
    let num_60 = Number::<8>::from("+-+-0");
    let num_61 = Number::<8>::from("+-+-+");
    let num_12 = Number::<8>::from("++0");

    // Integral division with remainders discarded
    assert_eq!(num_59 / num_12, Number::<8>::from("0++")); // 59 / 12 = 4
    assert_eq!(num_60 / num_12, Number::<8>::from("+--")); // 60 / 12 = 5
    assert_eq!(num_61 / num_12, Number::<8>::from("+--")); // 61 / 12 = 5

    // Negatively signed numerators and divisors, results rounded towards zero
    assert_eq!(-num_59 / num_12, Number::<8>::from("0--")); // -59 /  12 = -4
    assert_eq!(num_59 / -num_12, Number::<8>::from("0--")); //  59 / -12 = -4
    assert_eq!(-num_59 / -num_12, Number::<8>::from("0++")); // -59 / -12 =  4

    // Dividing zero by any number results in zero
    let num_0: Number<8> = Number::<8>::zero();

    assert_eq!(num_0 / num_60, num_0); // 0 /  60 = 0
    assert_eq!(num_0 / (-num_60), num_0); // 0 / -60 = 0
}

#[test]
fn negative_dividend_divides() {
    let num_neg_61 = Number::<8>::from("-+-+-");
    let num_12 = Number::<8>::from("++0");

    assert_eq!(num_neg_61 / num_12, Number::<8>::from("-++")); // -61 / 12 = -5
    assert_eq!(num_neg_61 / -num_12, Number::<8>::from("+--")); // -61 / -12 = 5

    let mut temp = num_neg_61;
    temp /= num_12;
    assert_eq!(temp, Number::<8>::from("-++"));
}

#[test]
fn zero_divided_by_a_negative_number() {
    let num_0 = Number::<8>::zero();
    let num_neg_61 = Number::<8>::from("-+-+-");

    assert_eq!(num_0 / num_neg_61, num_0);
}

#[test]
fn eight_digits_wrap_at_3280() {
    let largest = Number::<8>::from("++++++++"); // 3280
    let one = Number::<8>::from("+");

    assert_eq!(largest + one, Number::<8>::from("--------")); // -3280
    assert_eq!(-largest - one, largest);
    // 3280 * 3280 = 10758400 = 1640 * 6561 - 1640.
    assert_eq!(largest * largest, Number::<8>::from("-+-+-+-+"));
}
