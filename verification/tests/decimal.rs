use tcgscan::decimal::{format_i32, format_u64, parse_i32};

#[test]
fn format_u64_writes_plain_decimal() {
    assert_eq!(format_u64(0), "0");
    assert_eq!(format_u64(7), "7");
    assert_eq!(format_u64(10), "10");
    assert_eq!(format_u64(478139), "478139");
    assert_eq!(format_u64(u64::MAX), "18446744073709551615");
}

#[test]
fn format_i32_matches_std_formatting() {
    for x in [0, 1, -1, 9, -10, 417, -417, i32::MAX, i32::MIN] {
        assert_eq!(format_i32(x), format!("{}", x));
    }
}

#[test]
fn parse_i32_accepts_signed_digits() {
    assert_eq!(parse_i32("42"), Some(42));
    assert_eq!(parse_i32("+7"), Some(7));
    assert_eq!(parse_i32("-0"), Some(0));
    assert_eq!(parse_i32("007"), Some(7));
    assert_eq!(parse_i32("2147483647"), Some(i32::MAX));
    assert_eq!(parse_i32("-2147483648"), Some(i32::MIN));
}

#[test]
fn parse_i32_rejects_what_std_rejects() {
    for s in ["", "-", "+", " 1", "1 ", "1a", "Next", "2147483648", "-2147483649", "1_000", "+-1", "99999999999999999999"] {
        assert_eq!(parse_i32(s), None, "{:?}", s);
    }
}

#[test]
fn parse_i32_agrees_with_std_parse() {
    for s in ["", "0", "12", "-12", "+12", "--1", "3.5", "٣", "4294967296", "-2147483648", "abc", "1e3"] {
        assert_eq!(parse_i32(s), s.parse::<i32>().ok(), "{:?}", s);
    }
}

#[test]
fn parse_of_format_gives_back_the_number() {
    for x in [0, 5, -5, 123456, -987654, i32::MAX, i32::MIN] {
        assert_eq!(parse_i32(&format_i32(x)), Some(x));
    }
}
