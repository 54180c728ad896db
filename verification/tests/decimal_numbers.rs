use redis_lite::decimal::{parse_u16, parse_u64, push_decimal, push_signed_decimal};

fn written(n: u64) -> Vec<u8> {
    let mut out = Vec::new();
    push_decimal(&mut out, n);
    out
}

fn written_signed(i: i32) -> Vec<u8> {
    let mut out = Vec::new();
    push_signed_decimal(&mut out, i);
    out
}

#[test]
fn parse_u64_reads_plain_digits() {
    assert_eq!(parse_u64(b"0"), Some(0));
    assert_eq!(parse_u64(b"123"), Some(123));
    assert_eq!(parse_u64(b"007"), Some(7));
}

#[test]
fn parse_u64_takes_one_plus_sign() {
    assert_eq!(parse_u64(b"+5"), Some(5));
    assert_eq!(parse_u64(b"++5"), None);
    assert_eq!(parse_u64(b"+"), None);
}

#[test]
fn parse_u64_refuses_what_is_no_number() {
    assert_eq!(parse_u64(b""), None);
    assert_eq!(parse_u64(b"-1"), None);
    assert_eq!(parse_u64(b"1a"), None);
    assert_eq!(parse_u64(b" 1"), None);
    assert_eq!(parse_u64(b"1 "), None);
}

#[test]
fn parse_u64_stops_at_the_largest_value() {
    assert_eq!(parse_u64(b"18446744073709551615"), Some(u64::MAX));
    assert_eq!(parse_u64(b"18446744073709551616"), None);
    assert_eq!(parse_u64(b"99999999999999999999999"), None);
    assert_eq!(parse_u64(b"000000000000000000000000000001"), Some(1));
}

#[test]
fn parse_u64_agrees_with_std() {
    for text in ["", "+", "-", "0", "+0", "-0", "12", "+12", "1_000", "١٢", "18446744073709551615", "18446744073709551616"] {
        assert_eq!(parse_u64(text.as_bytes()), text.parse::<u64>().ok(), "{text:?}");
    }
}

#[test]
fn parse_u16_stops_at_the_largest_port() {
    assert_eq!(parse_u16(b"6379"), Some(6379));
    assert_eq!(parse_u16(b"65535"), Some(65535));
    assert_eq!(parse_u16(b"65536"), None);
    assert_eq!(parse_u16(b"+80"), Some(80));
    assert_eq!(parse_u16(b""), None);
    assert_eq!(parse_u16(b"port"), None);
}

#[test]
fn push_decimal_writes_the_shortest_form() {
    assert_eq!(written(0), b"0");
    assert_eq!(written(9), b"9");
    assert_eq!(written(10), b"10");
    assert_eq!(written(6379), b"6379");
    assert_eq!(written(u64::MAX), b"18446744073709551615");
}

#[test]
fn push_decimal_appends() {
    let mut out = b"$".to_vec();
    push_decimal(&mut out, 42);
    assert_eq!(out, b"$42");
}

#[test]
fn push_signed_decimal_writes_the_sign() {
    assert_eq!(written_signed(-1), b"-1");
    assert_eq!(written_signed(0), b"0");
    assert_eq!(written_signed(17), b"17");
    assert_eq!(written_signed(i32::MIN), b"-2147483648");
    assert_eq!(written_signed(i32::MAX), b"2147483647");
}

#[test]
fn written_numbers_parse_back() {
    for n in [0u64, 1, 9, 10, 99, 100, 12345, u64::MAX - 1, u64::MAX] {
        assert_eq!(parse_u64(&written(n)), Some(n));
    }
}
