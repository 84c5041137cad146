use validator_deposit::amount::{parse_amount, AmountError, UNITS_PER_WHOLE};

#[test]
fn half_a_unit_is_exact() {
    assert_eq!(parse_amount("0.5"), Ok(500_000_000));
    assert_eq!(parse_amount(".5"), Ok(UNITS_PER_WHOLE / 2));
}

#[test]
fn whole_and_fractional_amounts() {
    assert_eq!(parse_amount("1"), Ok(1_000_000_000));
    assert_eq!(parse_amount("12."), Ok(12_000_000_000));
    assert_eq!(parse_amount("2.25"), Ok(2_250_000_000));
    assert_eq!(parse_amount("0.000000001"), Ok(1));
    assert_eq!(parse_amount("007.100000000"), Ok(7_100_000_000));
}

#[test]
fn rounds_to_nearest_unit() {
    assert_eq!(parse_amount("0.0000000005"), Ok(1));
    assert_eq!(parse_amount("0.0000000014999"), Ok(1));
    assert_eq!(parse_amount("0.0000000015"), Ok(2));
    assert_eq!(parse_amount("1.9999999995"), Ok(2_000_000_000));
    assert_eq!(parse_amount("1.9999999994999999"), Ok(1_999_999_999));
}

#[test]
fn zero_amount_is_refused() {
    assert_eq!(parse_amount("0"), Err(AmountError::NotPositive));
    assert_eq!(parse_amount("0.0"), Err(AmountError::NotPositive));
    assert_eq!(parse_amount("0.0000000004"), Err(AmountError::NotPositive));
    assert_eq!(parse_amount("0.00000000049"), Err(AmountError::NotPositive));
}

#[test]
fn malformed_amounts_are_refused() {
    assert_eq!(parse_amount(""), Err(AmountError::Malformed));
    assert_eq!(parse_amount("."), Err(AmountError::Malformed));
    assert_eq!(parse_amount("-0.5"), Err(AmountError::Malformed));
    assert_eq!(parse_amount("1.2.3"), Err(AmountError::Malformed));
    assert_eq!(parse_amount("1e9"), Err(AmountError::Malformed));
    assert_eq!(parse_amount(" 1"), Err(AmountError::Malformed));
}

#[test]
fn largest_amount_and_beyond() {
    assert_eq!(parse_amount("18446744073.709551615"), Ok(u64::MAX));
    assert_eq!(parse_amount("18446744073.7095516155"), Err(AmountError::TooLarge));
    assert_eq!(parse_amount("18446744073.709551616"), Err(AmountError::TooLarge));
    assert_eq!(parse_amount("18446744074"), Err(AmountError::TooLarge));
    assert_eq!(parse_amount("99999999999999999999999999"), Err(AmountError::TooLarge));
}
