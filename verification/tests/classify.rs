use letlang::classify::determine_kind;
use letlang::token::TokenKind;

#[test]
fn classify_keywords() {
    assert_eq!(determine_kind("let".to_string()), TokenKind::Keyword);
    assert_eq!(determine_kind("be".to_string()), TokenKind::Keyword);
    assert_eq!(determine_kind("fn".to_string()), TokenKind::Keyword);
}

#[test]
fn classify_operators() {
    assert_eq!(determine_kind("=".to_string()), TokenKind::Operator);
    assert_eq!(determine_kind("+".to_string()), TokenKind::Operator);
    assert_eq!(determine_kind("-".to_string()), TokenKind::Operator);
    assert_eq!(determine_kind("(".to_string()), TokenKind::Operator);
    assert_eq!(determine_kind(")".to_string()), TokenKind::Operator);
}

#[test]
fn classify_decimal_numeric() {
    assert_eq!(determine_kind("42".to_string()), TokenKind::Numeric);
    assert_eq!(determine_kind("0.654876418768547946".to_string()), TokenKind::Numeric);
    assert_eq!(determine_kind("1.".to_string()), TokenKind::Numeric);
    assert_eq!(determine_kind(".5".to_string()), TokenKind::Numeric);
    assert_eq!(determine_kind("1e5".to_string()), TokenKind::Numeric);
    assert_eq!(determine_kind("-3.5E-7".to_string()), TokenKind::Numeric);
    assert_eq!(determine_kind("+1.e2".to_string()), TokenKind::Numeric);
}

#[test]
fn classify_special_floats_numeric() {
    assert_eq!(determine_kind("inf".to_string()), TokenKind::Numeric);
    assert_eq!(determine_kind("-Infinity".to_string()), TokenKind::Numeric);
    assert_eq!(determine_kind("NaN".to_string()), TokenKind::Numeric);
}

#[test]
fn classify_hex_numeric() {
    assert_eq!(determine_kind("0x1A".to_string()), TokenKind::Numeric);
    assert_eq!(determine_kind("0xfb00be".to_string()), TokenKind::Numeric);
    // boundary case: a bare `0x` has an empty digit suffix and still counts
    assert_eq!(determine_kind("0x".to_string()), TokenKind::Numeric);
}

#[test]
fn classify_words() {
    assert_eq!(determine_kind("0xg1".to_string()), TokenKind::Word);
    assert_eq!(determine_kind("foo".to_string()), TokenKind::Word);
    assert_eq!(determine_kind("x".to_string()), TokenKind::Word);
    assert_eq!(determine_kind("".to_string()), TokenKind::Word);
    assert_eq!(determine_kind("1e".to_string()), TokenKind::Word);
    assert_eq!(determine_kind("5e+".to_string()), TokenKind::Word);
    assert_eq!(determine_kind(".".to_string()), TokenKind::Word);
    assert_eq!(determine_kind("1_000".to_string()), TokenKind::Word);
    assert_eq!(determine_kind("1.2.3".to_string()), TokenKind::Word);
}
