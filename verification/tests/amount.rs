use k_exercise::amount::Amount;
use k_exercise::record::Record;
use k_exercise::transaction::Transaction;
use rust_decimal::Decimal;

/// The decimal with the parts of `amount`.
fn to_decimal(amount: &Amount) -> Decimal {
    let (negative, magnitude, scale) = amount.parts();
    let mut d = Decimal::from_i128_with_scale(magnitude as i128, scale);
    d.set_sign_negative(negative);
    d
}

/// An amount read from text the way a deposit reads it.
fn parsed(text: &str) -> Amount {
    let record = Record {
        transaction_type: "deposit".to_string(),
        client: 1,
        tx: 1,
        amount: text.to_string(),
    };
    match Transaction::try_from(&record) {
        Ok(Transaction::Deposit { amount, .. }) => amount,
        other => panic!("expected a deposit, got {:?}", other),
    }
}

#[test]
fn new_keeps_sign_magnitude_and_scale() {
    assert_eq!(Amount::new(-15, 1).parts(), (true, 15, 1));
    assert_eq!(Amount::new(15000, 4).parts(), (false, 15000, 4));
    assert_eq!(Amount::new(15000, 4).scale(), 4);
    assert_eq!(Amount::zero().parts(), (false, 0, 0));
}

#[test]
fn to_text_renders_as_decimal_display() {
    assert_eq!(Amount::new(15, 1).to_text(), "1.5");
    assert_eq!(Amount::new(-15000, 4).to_text(), "-1.5000");
    assert_eq!(Amount::new(7, 0).to_text(), "7");
    assert_eq!(Amount::zero().to_text(), "0");
}

#[test]
fn plus_adds_and_keeps_the_wider_scale() {
    let r = Amount::new(15, 1).plus(&Amount::new(25, 2));
    assert_eq!(r.parts(), (false, 175, 2));
    assert_eq!(r.to_text(), "1.75");
}

#[test]
fn minus_subtracts_below_zero() {
    let r = Amount::new(15, 1).minus(&Amount::new(225, 2));
    assert_eq!(r.parts(), (true, 75, 2));
    assert_eq!(r.to_text(), "-0.75");
}

#[test]
fn plus_rounds_the_result_to_four_places() {
    let r = Amount::new(123456, 5).plus(&Amount::zero());
    assert_eq!(r.to_text(), "1.2346");
    assert_eq!(to_decimal(&r), Decimal::new(123456, 5).round_dp(4));
}

#[test]
fn rounding_goes_half_to_even() {
    assert_eq!(Amount::new(123445, 5).plus(&Amount::zero()).to_text(), "1.2344");
    assert_eq!(Amount::new(123455, 5).plus(&Amount::zero()).to_text(), "1.2346");
    assert_eq!(Amount::new(-123455, 5).minus(&Amount::zero()).to_text(), "-1.2346");
    assert_eq!(Amount::new(-4, 5).plus(&Amount::zero()).to_text(), "0.0000");
    assert_eq!(
        Amount::new(123445, 5).plus(&Amount::zero()).to_text(),
        Decimal::new(123445, 5).round_dp(4).to_string()
    );
}

#[test]
fn to_text_pads_small_magnitudes_with_zeros() {
    assert_eq!(Amount::new(5, 3).to_text(), "0.005");
    assert_eq!(Amount::new(-5, 3).to_text(), "-0.005");
    assert_eq!(Amount::new(0, 2).to_text(), "0.00");
    assert_eq!(Amount::new(1234, 2).to_text(), "12.34");
}

#[test]
fn sum_does_not_round() {
    let r = Amount::new(123456, 5).sum(&Amount::zero());
    assert_eq!(r.to_text(), "1.23456");
}

#[test]
fn results_match_rust_decimal_including_the_sign_of_zero() {
    let a = Amount::new(-5, 1);
    let b = Amount::new(5, 1);
    let expected = (Decimal::new(-5, 1) + Decimal::new(5, 1)).round_dp(4);
    assert_eq!(a.plus(&b).to_text(), expected.to_string());
    let expected = (Decimal::new(5, 1) - Decimal::new(5, 1)).round_dp(4);
    assert_eq!(b.minus(&b).to_text(), expected.to_string());
}

#[test]
fn less_than_and_equality_compare_values() {
    assert!(Amount::new(14, 1).less_than(&Amount::new(15, 1)));
    assert!(!Amount::new(15, 1).less_than(&Amount::new(150, 2)));
    assert!(Amount::new(-1, 0).less_than(&Amount::zero()));
    assert!(Amount::new(15, 1) == Amount::new(150, 2));
    assert!(Amount::new(15, 1) != Amount::new(16, 1));
}

#[test]
fn range_checks_report_overflow() {
    let max = parsed("79228162514264337593543950335");
    assert_eq!(max.parts(), (false, 79228162514264337593543950335, 0));
    assert!(!max.can_add(&max));
    assert!(max.can_add(&Amount::zero()));
    assert!(Amount::zero().can_subtract(&max));
    assert!(!Amount::new(-1, 0).can_subtract(&max));
}

#[test]
fn plain_amounts_parse_to_their_digits() {
    assert_eq!(parsed("+.5").parts(), (false, 5, 1));
    assert_eq!(parsed("5.").parts(), (false, 5, 0));
    assert_eq!(parsed("007.10").parts(), (false, 710, 2));
    assert_eq!(parsed("1.5000").parts(), (false, 15000, 4));
    for rejected in ["-0", "0.0000", "-1.5", "1.50000", "+", "."] {
        let record = Record {
            transaction_type: "withdrawal".to_string(),
            client: 1,
            tx: 1,
            amount: rejected.to_string(),
        };
        assert!(Transaction::try_from(&record).is_err(), "{rejected} was accepted");
    }
}
