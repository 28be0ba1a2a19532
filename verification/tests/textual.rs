use brightctl::text::{parse_brightness, render_brightness};

#[test]
fn parse_plain_number() {
    assert_eq!(parse_brightness(b"1000"), Some(1000));
    assert_eq!(parse_brightness(b"0"), Some(0));
    assert_eq!(parse_brightness(b"7500"), Some(7500));
    assert_eq!(parse_brightness(b"007"), Some(7));
}

#[test]
fn parse_trims_trailing_whitespace() {
    assert_eq!(parse_brightness(b"1000\n"), Some(1000));
    assert_eq!(parse_brightness(b"42 \t\r\n"), Some(42));
}

#[test]
fn parse_rejects_empty_and_blank() {
    assert_eq!(parse_brightness(b""), None);
    assert_eq!(parse_brightness(b"\n"), None);
    assert_eq!(parse_brightness(b"   "), None);
}

#[test]
fn parse_rejects_non_digits() {
    assert_eq!(parse_brightness(b"12a3"), None);
    assert_eq!(parse_brightness(b"-5"), None);
    assert_eq!(parse_brightness(b" 5"), None);
    assert_eq!(parse_brightness(b"5 5"), None);
}

#[test]
fn parse_handles_the_largest_value() {
    assert_eq!(parse_brightness(b"18446744073709551615"), Some(u64::MAX));
    assert_eq!(parse_brightness(b"18446744073709551616"), None);
    assert_eq!(parse_brightness(b"99999999999999999999999"), None);
}

#[test]
fn render_decimal_form() {
    assert_eq!(render_brightness(0), b"0".to_vec());
    assert_eq!(render_brightness(7), b"7".to_vec());
    assert_eq!(render_brightness(1500), b"1500".to_vec());
    assert_eq!(render_brightness(u64::MAX), b"18446744073709551615".to_vec());
}

#[test]
fn render_then_parse_round_trips() {
    for v in [0, 1, 9, 10, 499, 500, 7500, 123456789, u64::MAX] {
        assert_eq!(parse_brightness(&render_brightness(v)), Some(v));
    }
}
