use squish::numbers::{format_signed, format_unsigned, parse_i32, parse_u64, parse_usize, push_decimal};

#[test]
fn format_unsigned_numbers() {
    assert_eq!(format_unsigned(0), "0");
    assert_eq!(format_unsigned(7), "7");
    assert_eq!(format_unsigned(10), "10");
    assert_eq!(format_unsigned(1234567890), "1234567890");
    assert_eq!(format_unsigned(u64::MAX), "18446744073709551615");
}

#[test]
fn format_signed_numbers() {
    assert_eq!(format_signed(0), "0");
    assert_eq!(format_signed(-1), "-1");
    assert_eq!(format_signed(127), "127");
    assert_eq!(format_signed(i32::MIN), "-2147483648");
    assert_eq!(format_signed(i32::MAX), "2147483647");
}

#[test]
fn push_decimal_appends() {
    let mut s = String::from("job ");
    push_decimal(&mut s, 42);
    assert_eq!(s, "job 42");
}

#[test]
fn parse_unsigned_numbers() {
    assert_eq!(parse_usize("0"), Some(0));
    assert_eq!(parse_usize("12"), Some(12));
    assert_eq!(parse_usize("+12"), Some(12));
    assert_eq!(parse_usize("007"), Some(7));
    assert_eq!(parse_usize(""), None);
    assert_eq!(parse_usize("+"), None);
    assert_eq!(parse_usize("-1"), None);
    assert_eq!(parse_usize("1 "), None);
    assert_eq!(parse_usize(" 1"), None);
    assert_eq!(parse_usize("1a"), None);
    assert_eq!(parse_usize("++1"), None);
}

#[test]
fn parse_unsigned_limits() {
    assert_eq!(parse_u64("255", 255), Some(255));
    assert_eq!(parse_u64("256", 255), None);
    assert_eq!(parse_u64("18446744073709551615", u64::MAX), Some(u64::MAX));
    assert_eq!(parse_u64("18446744073709551616", u64::MAX), None);
    assert_eq!(parse_u64("99999999999999999999999", u64::MAX), None);
    assert_eq!(parse_u64("9a", 5), None);
}

#[test]
fn parse_signed_numbers() {
    assert_eq!(parse_i32("0"), Some(0));
    assert_eq!(parse_i32("-0"), Some(0));
    assert_eq!(parse_i32("+3"), Some(3));
    assert_eq!(parse_i32("-3"), Some(-3));
    assert_eq!(parse_i32("2147483647"), Some(i32::MAX));
    assert_eq!(parse_i32("2147483648"), None);
    assert_eq!(parse_i32("-2147483648"), Some(i32::MIN));
    assert_eq!(parse_i32("-2147483649"), None);
    assert_eq!(parse_i32("-"), None);
    assert_eq!(parse_i32("--1"), None);
    assert_eq!(parse_i32("-+1"), None);
    assert_eq!(parse_i32("1.0"), None);
}

#[test]
fn parse_agrees_with_the_standard_library() {
    for text in ["", "+", "-", "0", "-0", "+0", "12", "0012", "4294967296", "-4294967296", "1e3", "٣", " 1", "1_0"] {
        assert_eq!(parse_i32(text), text.parse::<i32>().ok(), "{:?}", text);
        assert_eq!(parse_usize(text), text.parse::<usize>().ok(), "{:?}", text);
    }
}
