use zenith::number::{decimal_chars, parse_i32_chars, parse_u32_chars, parse_u64_chars, signed_chars};

fn format_u64(n: u64) -> String {
    decimal_chars(n).into_iter().collect()
}

fn format_i64(n: i64) -> String {
    signed_chars(n).into_iter().collect()
}

fn chars(s: &str) -> Vec<char> {
    s.chars().collect()
}

#[test]
fn parse_u64_accepts_plain_and_plus_signed_digits() {
    assert_eq!(parse_u64_chars(&chars("0")), Some(0));
    assert_eq!(parse_u64_chars(&chars("12345")), Some(12345));
    assert_eq!(parse_u64_chars(&chars("+42")), Some(42));
    assert_eq!(parse_u64_chars(&chars("007")), Some(7));
    assert_eq!(parse_u64_chars(&chars("18446744073709551615")), Some(u64::MAX));
}

#[test]
fn parse_u64_rejects_what_str_parse_rejects() {
    for bad in ["", "+", "-", "-1", "12a", " 1", "1 ", "18446744073709551616", "99999999999999999999999", "+-1", "１"] {
        assert_eq!(parse_u64_chars(&chars(bad)), None, "input {:?}", bad);
        assert!(bad.parse::<u64>().is_err());
    }
}

#[test]
fn parse_u32_bounds() {
    assert_eq!(parse_u32_chars(&chars("4294967295")), Some(u32::MAX));
    assert_eq!(parse_u32_chars(&chars("4294967296")), None);
    assert_eq!(parse_u32_chars(&chars("1000")), Some(1000));
}

#[test]
fn parse_i32_signs_and_bounds() {
    assert_eq!(parse_i32_chars(&chars("-2147483648")), Some(i32::MIN));
    assert_eq!(parse_i32_chars(&chars("2147483647")), Some(i32::MAX));
    assert_eq!(parse_i32_chars(&chars("2147483648")), None);
    assert_eq!(parse_i32_chars(&chars("-2147483649")), None);
    assert_eq!(parse_i32_chars(&chars("-")), None);
    assert_eq!(parse_i32_chars(&chars("+17")), Some(17));
    assert_eq!(parse_i32_chars(&chars("-0")), Some(0));
}

#[test]
fn parse_agrees_with_std_on_samples() {
    for s in ["0", "1", "+1", "-1", "65535", "4294967295", "4294967296", "-2147483648", "abc", "", "2147483647", "+"] {
        assert_eq!(parse_u64_chars(&chars(s)), s.parse::<u64>().ok(), "u64 {:?}", s);
        assert_eq!(parse_u32_chars(&chars(s)), s.parse::<u32>().ok(), "u32 {:?}", s);
        assert_eq!(parse_i32_chars(&chars(s)), s.parse::<i32>().ok(), "i32 {:?}", s);
    }
}

#[test]
fn formatting_matches_display() {
    for n in [0u64, 7, 10, 99, 100, 12345, u64::MAX] {
        assert_eq!(format_u64(n), n.to_string());
    }
    for n in [0i64, -1, 42, -2147483648, i64::MIN, i64::MAX] {
        assert_eq!(format_i64(n), n.to_string());
    }
}

#[test]
fn format_then_parse_round_trips() {
    for n in [0u64, 5, 1000, 18446744073709551615] {
        assert_eq!(parse_u64_chars(&chars(&format_u64(n))), Some(n));
    }
    for n in [i32::MIN, -1, 0, 1, i32::MAX] {
        assert_eq!(parse_i32_chars(&chars(&format_i64(n as i64))), Some(n));
    }
}
