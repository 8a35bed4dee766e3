//! Tests for the count-argument validation.

use headr::config::parse_positive_int;
use headr::config::validate_byte_count;
use headr::config::validate_line_count;
use headr::config::Config;

#[test]
fn test_parse_positive_int() {
    // 3 is an OK integer
    let res = parse_positive_int("3");
    assert!(res.is_ok());
    assert_eq!(res.unwrap(), 3);

    // Any string is an error
    let res = parse_positive_int("foo");
    assert!(res.is_err());

    // A zero is an error
    let res = parse_positive_int("0");
    assert!(res.is_err());
    assert_eq!(res.unwrap_err().to_string(), "0".to_string());
}

#[test]
fn parse_accepts_leading_plus() {
    assert_eq!(parse_positive_int("+3").unwrap(), 3);
}

#[test]
fn parse_rejects_empty_and_sign_only() {
    assert_eq!(parse_positive_int("").unwrap_err(), "");
    assert_eq!(parse_positive_int("+").unwrap_err(), "+");
}

#[test]
fn parse_rejects_negative_and_spaced() {
    assert!(parse_positive_int("-1").is_err());
    assert!(parse_positive_int(" 3").is_err());
    assert!(parse_positive_int("3 ").is_err());
}

#[test]
fn parse_rejects_overflow() {
    assert!(parse_positive_int("99999999999999999999999999").is_err());
    assert_eq!(
        parse_positive_int("99999999999999999999999999").unwrap_err(),
        "99999999999999999999999999"
    );
}

#[test]
fn parse_accepts_large_value() {
    assert_eq!(parse_positive_int("18446744073709551615").unwrap(), usize::MAX);
}

#[test]
fn line_count_message_quotes_the_text() {
    assert_eq!(validate_line_count("5").unwrap(), 5);
    assert_eq!(
        validate_line_count("foo").unwrap_err(),
        "illegal line count -- foo"
    );
    assert_eq!(validate_line_count("0").unwrap_err(), "illegal line count -- 0");
}

#[test]
fn byte_count_message_quotes_the_text() {
    assert_eq!(validate_byte_count("12").unwrap(), 12);
    assert_eq!(
        validate_byte_count("bar").unwrap_err(),
        "illegal byte count -- bar"
    );
}

#[test]
fn config_carries_the_validated_counts() {
    let cfg = Config { files: vec![String::from("-")], lines: 10, bytes: None };
    assert_eq!(cfg.files.len(), 1);
    assert_eq!(cfg.lines, 10);
    assert!(cfg.bytes.is_none());
}
