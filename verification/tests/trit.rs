use balanced_ternary::sum_result::SumResult;
use balanced_ternary::trit::Trit;

const ALL: [Trit; 3] = [Trit::NEG, Trit::ZERO, Trit::POS];

#[test]
fn trit_values() {
    assert_eq!(Trit::NEG.to_i8(), -1);
    assert_eq!(Trit::ZERO.to_i8(), 0);
    assert_eq!(Trit::POS.to_i8(), 1);
}

#[test]
fn trit_negation_swaps_the_signed_digits() {
    assert_eq!(-Trit::NEG, Trit::POS);
    assert_eq!(-Trit::ZERO, Trit::ZERO);
    assert_eq!(-Trit::POS, Trit::NEG);
}

#[test]
fn trit_from_char() {
    assert_eq!(Trit::from_char('+'), Trit::POS);
    assert_eq!(Trit::from_char('-'), Trit::NEG);
    assert_eq!(Trit::from_char('0'), Trit::ZERO);
    assert_eq!(Trit::from_char('x'), Trit::ZERO);
    assert_eq!(Trit::from_char(' '), Trit::ZERO);
}

#[test]
fn add_with_carry_accounts_for_every_sum() {
    for a in ALL {
        for b in ALL {
            for c in ALL {
                let sum = a.add_with_carry(&b, &c);
                let raw = a.to_i8() + b.to_i8() + c.to_i8();
                assert_eq!(3 * sum.carry.to_i8() + sum.result.to_i8(), raw);
                assert!((-1..=1).contains(&sum.result.to_i8()));
                assert!((-1..=1).contains(&sum.carry.to_i8()));
            }
        }
    }
}

#[test]
fn add_with_carry_exact_results() {
    // -3, the smallest sum: nothing stays, minus one moves on.
    assert_eq!(
        Trit::NEG.add_with_carry(&Trit::NEG, &Trit::NEG),
        SumResult { result: Trit::ZERO, carry: Trit::NEG }
    );
    // -2 is -3 + 1.
    assert_eq!(
        Trit::NEG.add_with_carry(&Trit::NEG, &Trit::ZERO),
        SumResult { result: Trit::POS, carry: Trit::NEG }
    );
    assert_eq!(
        Trit::NEG.add_with_carry(&Trit::ZERO, &Trit::ZERO),
        SumResult { result: Trit::NEG, carry: Trit::ZERO }
    );
    assert_eq!(
        Trit::POS.add_with_carry(&Trit::NEG, &Trit::ZERO),
        SumResult { result: Trit::ZERO, carry: Trit::ZERO }
    );
    assert_eq!(
        Trit::ZERO.add_with_carry(&Trit::ZERO, &Trit::POS),
        SumResult { result: Trit::POS, carry: Trit::ZERO }
    );
    // 2 is 3 - 1.
    assert_eq!(
        Trit::POS.add_with_carry(&Trit::POS, &Trit::ZERO),
        SumResult { result: Trit::NEG, carry: Trit::POS }
    );
    assert_eq!(
        Trit::POS.add_with_carry(&Trit::POS, &Trit::POS),
        SumResult { result: Trit::ZERO, carry: Trit::POS }
    );
}

#[test]
fn add_without_carry() {
    for a in ALL {
        for b in ALL {
            assert_eq!(a.add(&b), a.add_with_carry(&b, &Trit::ZERO));
        }
    }
    assert_eq!(Trit::POS.add(&Trit::POS), SumResult { result: Trit::NEG, carry: Trit::POS });
    assert_eq!(Trit::NEG.add(&Trit::NEG), SumResult { result: Trit::POS, carry: Trit::NEG });
    assert_eq!(Trit::NEG.add(&Trit::POS), SumResult { result: Trit::ZERO, carry: Trit::ZERO });
}
