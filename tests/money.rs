use exchange_bot::money::{
    format_units_to_decimal, parse_units_from_decimal, Amount8Decimals, DecimalError, Price4Decimals,
};
use std::str::FromStr;

fn price_roundtrip(s: &str, expected_units: u128) {
    let result = Price4Decimals::from_str(s).unwrap();
    assert_eq!(result.units(), expected_units);
    assert_eq!(result.to_string().as_str(), s);
}

fn amount_roundtrip(s: &str, expected_units: u128) {
    let result = Amount8Decimals::from_str(s).unwrap();
    assert_eq!(result.units(), expected_units);
    assert_eq!(result.to_string().as_str(), s);
}

#[test]
fn price_roundtrip_table() {
    price_roundtrip("0.1234", 1234);
    price_roundtrip("1.234", 12340);
    price_roundtrip("123.4567", 1234567);
    price_roundtrip("1234", 12340000);
}

#[test]
fn amount_roundtrip_table() {
    amount_roundtrip("0.1234", 12340000);
    amount_roundtrip("1.234", 123400000);
    amount_roundtrip("123.45678901", 12345678901);
    amount_roundtrip("1234", 123400000000);
}

#[test]
fn format_gives_canonical_text() {
    assert_eq!(Price4Decimals::from_str("1.2000").unwrap().to_string(), "1.2");
    assert_eq!(Price4Decimals::from_str("7.").unwrap().to_string(), "7");
    assert_eq!(Price4Decimals::from_str("3.0").unwrap().to_string(), "3");
    assert_eq!(Amount8Decimals::from_str("0.00000001").unwrap().to_string(), "0.00000001");
}

#[test]
fn small_fractions_keep_leading_zeros() {
    assert_eq!(Price4Decimals::from_units(5).to_string(), "0.0005");
    assert_eq!(Price4Decimals::from_units(10050).to_string(), "1.005");
    assert_eq!(format_units_to_decimal(0, 4), "0");
}

#[test]
fn long_fractions_are_truncated() {
    assert_eq!(Price4Decimals::from_str("1.23456789").unwrap().units(), 12345);
    assert_eq!(parse_units_from_decimal("0.99999", 4), Ok(9999));
}

#[test]
fn malformed_text_is_refused() {
    for s in ["", ".5", "1.2.3", "-1", "+1", "1a", "a", " 1", "1,5"] {
        assert_eq!(Price4Decimals::from_str(s), Err(DecimalError::Malformed), "{s}");
    }
}

#[test]
fn overflow_is_refused() {
    let max = u128::MAX.to_string();
    assert_eq!(parse_units_from_decimal(&max, 0), Ok(u128::MAX));
    assert_eq!(Amount8Decimals::from_str(&max), Err(DecimalError::Overflow));
    assert_eq!(
        parse_units_from_decimal("340282366920938463463374607431768211456", 0),
        Err(DecimalError::Overflow)
    );
}

#[test]
fn parse_of_format_gives_back_the_value() {
    for units in [0u128, 1, 9, 10, 12340000, 1234567, 100000001, u128::MAX] {
        let p = Price4Decimals::from_units(units);
        assert_eq!(Price4Decimals::from_str(&p.to_string()).unwrap(), p);
        let a = Amount8Decimals::from_units(units);
        assert_eq!(Amount8Decimals::from_str(&a.to_string()).unwrap(), a);
    }
}

#[test]
fn amount_times_price() {
    let amount = Amount8Decimals::from_str("2").unwrap();
    let price = Price4Decimals::from_str("1.25").unwrap();
    assert_eq!(amount.mul_price(price).to_string(), "2.5");
    assert_eq!(amount.mul_price(price).units(), 250000000);
    // one unit at a price below one whole rounds down to zero
    let tiny = Amount8Decimals::from_units(1);
    assert_eq!(tiny.mul_price(Price4Decimals::from_units(9999)).units(), 0);
}

#[test]
fn whole_amounts_and_arithmetic() {
    assert_eq!(Amount8Decimals::from_whole(3).units(), 300000000);
    let a = Amount8Decimals::from_units(700);
    let b = Amount8Decimals::from_units(200);
    assert_eq!(a.add(b).units(), 900);
    assert_eq!(a.sub(b).units(), 500);
    assert_eq!(Amount8Decimals::from_whole(100).percent(), Amount8Decimals::from_whole(1));
}
