use txledger::decimal::CheckedDecimal;
use txledger::error::Error;

fn decimal(value: &str) -> CheckedDecimal {
    CheckedDecimal::parse(value).unwrap()
}

#[test]
fn test_parse_normalizes_scale() {
    // The same value written with different scales parses to one value; a
    // parser that handed the text back unchanged could not satisfy this.
    assert_eq!(decimal("1.5"), decimal("1.5000"));
    assert_eq!(decimal("0"), decimal("0.0000"));
    assert_ne!(decimal("1.5"), decimal("15"));
    assert_ne!(decimal("2.5"), decimal("25"));
}

#[test]
fn test_parse_rounds_to_four_places() {
    // Rounded at the fourth fractional digit.
    assert_eq!(decimal("1.23456"), decimal("1.2346"));
    assert_eq!(decimal("0.00006"), decimal("0.0001"));
    // Bankers' rounding: a half goes to the even neighbour.
    assert_eq!(decimal("0.00025"), decimal("0.0002"));
    assert_eq!(decimal("0.00035"), decimal("0.0004"));
}

#[test]
fn test_parse_rejects_malformed_text() {
    assert!(matches!(
        CheckedDecimal::parse("abc"),
        Err(Error::ParseDecimal(_))
    ));
    assert!(matches!(
        CheckedDecimal::parse(""),
        Err(Error::ParseDecimal(_))
    ));
    assert!(matches!(
        CheckedDecimal::parse("1.2.3"),
        Err(Error::ParseDecimal(_))
    ));
}

#[test]
fn test_sign_and_order() {
    assert!(decimal("-0.0001").is_sign_negative());
    assert!(!decimal("0").is_sign_negative());
    assert!(!decimal("3.5").is_sign_negative());
    assert!(decimal("1.0").lt(&decimal("1.0001")));
    assert!(!decimal("2.0").lt(&decimal("2.0")));
}

#[test]
fn test_checked_arithmetic() {
    let a = decimal("1.5");
    let b = decimal("2.25");
    assert_eq!(a.checked_add(b).unwrap(), decimal("3.75"));
    assert_eq!(a.checked_sub(b).unwrap(), decimal("-0.75"));

    let max = decimal("79228162514264337593543950335");
    assert!(matches!(
        max.checked_add(decimal("0.0001")),
        Err(Error::DecimalOverflow)
    ));
    assert!(matches!(
        decimal("-79228162514264337593543950335").checked_sub(decimal("0.0001")),
        Err(Error::DecimalUnderflow)
    ));
}

#[test]
fn test_to_text_fixed_four_places() {
    assert_eq!(decimal("1.5").to_text(), "1.5000");
    assert_eq!(decimal("0").to_text(), "0.0000");
    assert_eq!(decimal("-2.5").to_text(), "-2.5000");
    assert_eq!(decimal("123.4567").to_text(), "123.4567");
    assert_eq!(decimal("10").to_text(), "10.0000");
    assert_eq!(decimal("-0.0001").to_text(), "-0.0001");
}
