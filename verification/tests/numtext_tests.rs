use supercontracts::numtext::parse_i64;

#[test]
fn parses_plain_digits() {
    assert_eq!(parse_i64(b"123"), Some(123));
    assert_eq!(parse_i64(b"0"), Some(0));
    assert_eq!(parse_i64(b"007"), Some(7));
}

#[test]
fn parses_signs() {
    assert_eq!(parse_i64(b"+7"), Some(7));
    assert_eq!(parse_i64(b"-45"), Some(-45));
    assert_eq!(parse_i64(b"-0"), Some(0));
}

#[test]
fn rejects_empty_and_bare_signs() {
    assert_eq!(parse_i64(b""), None);
    assert_eq!(parse_i64(b"+"), None);
    assert_eq!(parse_i64(b"-"), None);
}

#[test]
fn rejects_stray_characters() {
    assert_eq!(parse_i64(b"12x"), None);
    assert_eq!(parse_i64(b" 12"), None);
    assert_eq!(parse_i64(b"1 2"), None);
    assert_eq!(parse_i64(b"--1"), None);
}

#[test]
fn handles_the_i64_bounds() {
    assert_eq!(parse_i64(b"9223372036854775807"), Some(i64::MAX));
    assert_eq!(parse_i64(b"9223372036854775808"), None);
    assert_eq!(parse_i64(b"-9223372036854775808"), Some(i64::MIN));
    assert_eq!(parse_i64(b"-9223372036854775809"), None);
    assert_eq!(parse_i64(b"99999999999999999999999"), None);
}

#[test]
fn agrees_with_the_standard_parser_on_samples() {
    for s in ["42", "-17", "+0", "890", "32767", "-2147483648"] {
        assert_eq!(parse_i64(s.as_bytes()), s.parse::<i64>().ok());
    }
}
