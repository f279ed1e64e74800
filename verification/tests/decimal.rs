use termcursor::decimal::{parse_field, push_decimal};

#[test]
fn push_decimal_appends_to_what_is_there() {
    let mut out = String::from("n=");
    push_decimal(&mut out, 42);
    assert_eq!(out, "n=42");
    push_decimal(&mut out, 0);
    assert_eq!(out, "n=420");
}

#[test]
fn push_decimal_writes_no_leading_zero() {
    for (n, text) in [(0u16, "0"), (7, "7"), (10, "10"), (105, "105"), (1000, "1000"), (65535, "65535")] {
        let mut out = String::new();
        push_decimal(&mut out, n);
        assert_eq!(out, text);
    }
}

#[test]
fn parse_field_reads_plain_numbers() {
    assert_eq!(parse_field(b"0"), 0);
    assert_eq!(parse_field(b"7"), 7);
    assert_eq!(parse_field(b"12"), 12);
    assert_eq!(parse_field(b"34"), 34);
    assert_eq!(parse_field(b"65535"), 65535);
}

#[test]
fn parse_field_accepts_leading_zeros() {
    assert_eq!(parse_field(b"007"), 7);
    assert_eq!(parse_field(b"0000065535"), 65535);
    assert_eq!(parse_field(b"00"), 0);
}

#[test]
fn parse_field_reads_empty_as_zero() {
    assert_eq!(parse_field(b""), 0);
}

#[test]
fn parse_field_reads_too_large_as_zero() {
    assert_eq!(parse_field(b"65536"), 0);
    assert_eq!(parse_field(b"70000"), 0);
    assert_eq!(parse_field(b"99999"), 0);
    assert_eq!(parse_field(b"100000"), 0);
    assert_eq!(parse_field(b"4294967296"), 0);
    assert_eq!(parse_field(b"99999999999999999999999999"), 0);
}

#[test]
fn parse_field_reads_malformed_as_zero() {
    assert_eq!(parse_field(b"1a"), 0);
    assert_eq!(parse_field(b"a1"), 0);
    assert_eq!(parse_field(b"-1"), 0);
    assert_eq!(parse_field(b" 1"), 0);
    assert_eq!(parse_field(b"1;2"), 0);
    assert_eq!(parse_field(b"12/"), 0);
    assert_eq!(parse_field(b"12:"), 0);
}

#[test]
fn parse_field_agrees_with_the_standard_parser_on_digits() {
    for text in ["", "0", "1", "9", "10", "255", "256", "9999", "65535", "65536", "123456", "0042"] {
        let expected = text.parse::<u16>().unwrap_or(0);
        assert_eq!(parse_field(text.as_bytes()), expected, "{:?}", text);
    }
}

#[test]
fn written_numbers_are_read_back() {
    for n in [0u16, 1, 9, 10, 99, 100, 12345, 65534, 65535] {
        let mut out = String::new();
        push_decimal(&mut out, n);
        assert_eq!(parse_field(out.as_bytes()), n);
    }
}
