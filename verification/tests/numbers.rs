use fortress::numbers::{decimal_string, parse_i32, ParseNumberError};

#[test]
fn renders_decimal_ids() {
    assert_eq!(decimal_string(0), "0");
    assert_eq!(decimal_string(5), "5");
    assert_eq!(decimal_string(10), "10");
    assert_eq!(decimal_string(1000), "1000");
    assert_eq!(decimal_string(-12), "-12");
    assert_eq!(decimal_string(i32::MAX), "2147483647");
    assert_eq!(decimal_string(i32::MIN), "-2147483648");
}

#[test]
fn parses_plain_numbers() {
    assert_eq!(parse_i32("0"), Ok(0));
    assert_eq!(parse_i32("123"), Ok(123));
    assert_eq!(parse_i32("-45"), Ok(-45));
    assert_eq!(parse_i32("+7"), Ok(7));
    assert_eq!(parse_i32("007"), Ok(7));
}

#[test]
fn parses_the_full_range() {
    assert_eq!(parse_i32("2147483647"), Ok(i32::MAX));
    assert_eq!(parse_i32("-2147483648"), Ok(i32::MIN));
    assert_eq!(parse_i32("2147483648"), Err(ParseNumberError::OutOfRange));
    assert_eq!(parse_i32("-2147483649"), Err(ParseNumberError::OutOfRange));
    assert_eq!(
        parse_i32("99999999999999999999"),
        Err(ParseNumberError::OutOfRange)
    );
}

#[test]
fn rejects_empty_and_sign_only() {
    assert_eq!(parse_i32(""), Err(ParseNumberError::Empty));
    assert_eq!(parse_i32("-"), Err(ParseNumberError::Empty));
    assert_eq!(parse_i32("+"), Err(ParseNumberError::Empty));
}

#[test]
fn reports_the_first_bad_digit() {
    assert_eq!(
        parse_i32("12a"),
        Err(ParseNumberError::InvalidDigit { symbol: 'a', position: 2 })
    );
    assert_eq!(
        parse_i32("-x1"),
        Err(ParseNumberError::InvalidDigit { symbol: 'x', position: 1 })
    );
    assert_eq!(
        parse_i32(" 1"),
        Err(ParseNumberError::InvalidDigit { symbol: ' ', position: 0 })
    );
}

#[test]
fn decimal_round_trip() {
    for n in [0, 1, -1, 42, -999, 1_000_000, i32::MAX, i32::MIN] {
        assert_eq!(parse_i32(&decimal_string(n)), Ok(n));
    }
}
