//! Tests for the argument value coercion.

use wikidot_path::value::ArgumentValue;

fn check(input: &str, expected: ArgumentValue) {
    let actual = ArgumentValue::from(input);

    assert_eq!(
        actual, expected,
        "Actual parsed option value doesn't match expected",
    );
}

#[test]
fn test_option_value() {
    check("", ArgumentValue::Null);
    check("t", ArgumentValue::Boolean(true));
    check("f", ArgumentValue::Boolean(false));
    check("true", ArgumentValue::Boolean(true));
    check("false", ArgumentValue::Boolean(false));
    check("T", ArgumentValue::Boolean(true));
    check("F", ArgumentValue::Boolean(false));
    check("TRUE", ArgumentValue::Boolean(true));
    check("False", ArgumentValue::Boolean(false));
    check("1", ArgumentValue::Integer(1));
    check("-1", ArgumentValue::Integer(-1));
    check("9000", ArgumentValue::Integer(9000));
    check("alpha", ArgumentValue::String("alpha"));
    check("beta", ArgumentValue::String("beta"));
}

#[test]
fn test_coercion_totality() {
    // The coercion orders every literal into exactly one class.
    check("", ArgumentValue::Null);
    check("true", ArgumentValue::Boolean(true));
    check("TRUE", ArgumentValue::Boolean(true));
    check("t", ArgumentValue::Boolean(true));
    check("9000", ArgumentValue::Integer(9000));
    // Overflows 32 bits, so it stays a string.
    check("9000000000", ArgumentValue::String("9000000000"));
}

#[test]
fn test_integer_bounds() {
    check("2147483647", ArgumentValue::Integer(2147483647));
    check("-2147483648", ArgumentValue::Integer(-2147483648));
    check("2147483648", ArgumentValue::String("2147483648"));
    check("-2147483649", ArgumentValue::String("-2147483649"));
    check("007", ArgumentValue::Integer(7));
    check("-0", ArgumentValue::Integer(0));
    // A leading `+` is not part of the integer grammar.
    check("+5", ArgumentValue::String("+5"));
    check("-", ArgumentValue::String("-"));
    check("12a", ArgumentValue::String("12a"));
}

#[test]
fn test_from_other_types() {
    assert_eq!(ArgumentValue::from(None), ArgumentValue::Null);
    assert_eq!(ArgumentValue::from(Some("4")), ArgumentValue::Integer(4));
    assert_eq!(ArgumentValue::from(true), ArgumentValue::Boolean(true));
    assert_eq!(ArgumentValue::from(7), ArgumentValue::Integer(7));
    assert_eq!(ArgumentValue::from(()), ArgumentValue::Null);
}
