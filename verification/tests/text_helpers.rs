use roundhouse::text::{
    div60_toward_zero, ends_with, join_on, parse_i64, parse_u64, push_int_decimal, split_on,
    starts_with, str_eq, to_ascii_lowercase, to_ascii_uppercase,
};

#[test]
fn parse_i64_accepts_signs_and_bounds() {
    assert_eq!(parse_i64("42"), Some(42));
    assert_eq!(parse_i64("-42"), Some(-42));
    assert_eq!(parse_i64("+42"), Some(42));
    assert_eq!(parse_i64("-0"), Some(0));
    assert_eq!(parse_i64("9223372036854775807"), Some(i64::MAX));
    assert_eq!(parse_i64("-9223372036854775808"), Some(i64::MIN));
    assert_eq!(parse_i64("9223372036854775808"), None);
    assert_eq!(parse_i64("-9223372036854775809"), None);
    assert_eq!(parse_i64("-"), None);
    assert_eq!(parse_i64(""), None);
    assert_eq!(parse_i64("1 2"), None);
}

#[test]
fn parse_u64_rejects_minus() {
    assert_eq!(parse_u64("0"), Some(0));
    assert_eq!(parse_u64("-0"), None);
    assert_eq!(parse_u64("99999999999999999999"), None);
}

#[test]
fn decimal_formatting_matches_display() {
    for v in [0i64, 7, -7, 10, 123456, i64::MAX, i64::MIN] {
        let mut s = String::new();
        push_int_decimal(&mut s, v);
        assert_eq!(s, v.to_string());
    }
}

#[test]
fn division_rounds_toward_zero() {
    for v in [0i64, 59, 60, 61, -59, -60, -61, i64::MAX, i64::MIN] {
        assert_eq!(div60_toward_zero(v), v / 60);
    }
}

#[test]
fn ascii_case_mapping_leaves_other_characters() {
    assert_eq!(to_ascii_uppercase("Five Points é"), "FIVE POINTS é");
    assert_eq!(to_ascii_lowercase("FIVE POINTS É"), "five points É");
}

#[test]
fn prefix_suffix_equality() {
    assert!(starts_with("five points", "five"));
    assert!(starts_with("five", ""));
    assert!(!starts_with("five", "fives"));
    assert!(ends_with("west end station", " station"));
    assert!(!ends_with("station", " station"));
    assert!(str_eq("a", "a"));
    assert!(!str_eq("a", "b"));
}

#[test]
fn split_then_join_gives_the_text_back() {
    for text in ["", ",", "a", "a,b", ",a,,b,"] {
        let parts = split_on(text, ',');
        assert_eq!(parts, text.split(',').map(String::from).collect::<Vec<_>>());
        assert_eq!(join_on(&parts, ','), text);
    }
}
