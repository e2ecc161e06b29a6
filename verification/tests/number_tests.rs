use metaquery::numbers::{i64_to_dec_string, parse_i32_str, parse_i64_str};

#[test]
fn reads_plain_and_signed_integers() {
    assert_eq!(parse_i32_str("30"), Some(30));
    assert_eq!(parse_i32_str("+7"), Some(7));
    assert_eq!(parse_i32_str("-12"), Some(-12));
    assert_eq!(parse_i32_str("0"), Some(0));
    assert_eq!(parse_i32_str("007"), Some(7));
}

#[test]
fn rejects_malformed_integers() {
    assert_eq!(parse_i32_str(""), None);
    assert_eq!(parse_i32_str("+"), None);
    assert_eq!(parse_i32_str("-"), None);
    assert_eq!(parse_i32_str("abc"), None);
    assert_eq!(parse_i32_str("1a"), None);
    assert_eq!(parse_i32_str(" 1"), None);
    assert_eq!(parse_i32_str("1 "), None);
    assert_eq!(parse_i32_str("12.5"), None);
    assert_eq!(parse_i32_str("--1"), None);
}

#[test]
fn respects_the_32_bit_range() {
    assert_eq!(parse_i32_str("2147483647"), Some(2147483647));
    assert_eq!(parse_i32_str("2147483648"), None);
    assert_eq!(parse_i32_str("-2147483648"), Some(-2147483648));
    assert_eq!(parse_i32_str("-2147483649"), None);
}

#[test]
fn respects_the_64_bit_range() {
    assert_eq!(parse_i64_str("9223372036854775807"), Some(9223372036854775807));
    assert_eq!(parse_i64_str("9223372036854775808"), None);
    assert_eq!(parse_i64_str("-9223372036854775808"), Some(i64::MIN));
    assert_eq!(parse_i64_str("-9223372036854775809"), None);
    assert_eq!(parse_i64_str("99999999999999999999999999"), None);
}

#[test]
fn writes_decimal_like_display() {
    assert_eq!(i64_to_dec_string(0), "0".to_string());
    assert_eq!(i64_to_dec_string(7), "7".to_string());
    assert_eq!(i64_to_dec_string(10), "10".to_string());
    assert_eq!(i64_to_dec_string(123456), "123456".to_string());
    assert_eq!(i64_to_dec_string(-45), "-45".to_string());
    assert_eq!(i64_to_dec_string(i64::MAX), "9223372036854775807".to_string());
    assert_eq!(i64_to_dec_string(i64::MIN), "-9223372036854775808".to_string());
}

#[test]
fn reading_matches_the_standard_parser() {
    for s in ["30", "-12", "+7", "2147483648", "umur", "", "9999999999"] {
        assert_eq!(parse_i32_str(s), s.parse::<i32>().ok());
        assert_eq!(parse_i64_str(s), s.parse::<i64>().ok());
    }
}
