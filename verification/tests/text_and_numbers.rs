use botofgreed::decimal::{decimal_string, parse_nonzero_u64, parse_u64};
use botofgreed::text::{split_text, starts_with, string_of, text_eq};

#[test]
fn parse_u64_accepts_plain_digits() {
    assert_eq!(parse_u64("0"), Some(0));
    assert_eq!(parse_u64("42"), Some(42));
    assert_eq!(parse_u64("007"), Some(7));
    assert_eq!(parse_u64("18446744073709551615"), Some(u64::MAX));
}

#[test]
fn parse_u64_accepts_leading_plus() {
    assert_eq!(parse_u64("+7"), Some(7));
    assert_eq!(parse_u64("+"), None);
    assert_eq!(parse_u64("++7"), None);
}

#[test]
fn parse_u64_rejects_bad_text() {
    assert_eq!(parse_u64(""), None);
    assert_eq!(parse_u64("-1"), None);
    assert_eq!(parse_u64("12a"), None);
    assert_eq!(parse_u64(" 12"), None);
    assert_eq!(parse_u64("18446744073709551616"), None);
    assert_eq!(parse_u64("99999999999999999999x"), None);
}

#[test]
fn parse_u64_agrees_with_std() {
    for s in ["0", "1", "+1", "+", "", "-0", "00", "123456789012345678901", "18446744073709551615", "a"] {
        assert_eq!(parse_u64(s), s.parse::<u64>().ok(), "text {:?}", s);
    }
}

#[test]
fn parse_nonzero_rejects_zero() {
    assert_eq!(parse_nonzero_u64("0"), None);
    assert_eq!(parse_nonzero_u64("+0"), None);
    assert_eq!(parse_nonzero_u64("5"), Some(5));
}

#[test]
fn decimal_string_writes_numbers() {
    assert_eq!(decimal_string(0), "0");
    assert_eq!(decimal_string(9), "9");
    assert_eq!(decimal_string(10), "10");
    assert_eq!(decimal_string(1234567890), "1234567890");
    assert_eq!(decimal_string(u64::MAX), u64::MAX.to_string());
}

#[test]
fn decimal_round_trip() {
    for n in [0u64, 1, 9, 10, 99, 100, 65535, 1 << 40, u64::MAX] {
        assert_eq!(parse_u64(&decimal_string(n)), Some(n));
    }
}

#[test]
fn split_text_keeps_empty_fields() {
    assert_eq!(split_text("a__b", '_'), vec!["a", "", "b"]);
    assert_eq!(split_text("", '_'), vec![""]);
    assert_eq!(split_text("_", '_'), vec!["", ""]);
    assert_eq!(split_text("op_1_2_3", '_'), vec!["op", "1", "2", "3"]);
}

#[test]
fn split_text_agrees_with_std() {
    for s in ["a,b,c", ",", "", "abc", ",,x,", "é,ü"] {
        let expected: Vec<String> = s.split(',').map(|f| f.to_string()).collect();
        assert_eq!(split_text(s, ','), expected);
    }
}

#[test]
fn text_comparisons() {
    assert!(text_eq("abc", "abc"));
    assert!(!text_eq("abc", "abd"));
    assert!(!text_eq("abc", "ab"));
    assert!(starts_with("image/png", "image"));
    assert!(!starts_with("ima", "image"));
    assert!(starts_with("x", ""));
    assert_eq!(string_of("héllo"), "héllo");
}
