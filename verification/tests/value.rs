use rlox::errors::InterpretError;
use rlox::object::{objects_equal, LoxObject};
use rlox::value::{bits_are_nan, negate_number, numbers_equal, numbers_less, Value};
use rlox::virtual_machine::{is_falsey, values_equal};

fn samples() -> Vec<f64> {
    vec![
        0.0,
        -0.0,
        1.0,
        -1.0,
        0.5,
        -0.5,
        2.0,
        1e300,
        -1e300,
        5e-324,
        -5e-324,
        f64::MIN_POSITIVE,
        f64::MAX,
        f64::MIN,
        f64::INFINITY,
        f64::NEG_INFINITY,
        f64::NAN,
        -f64::NAN,
        f64::from_bits(0x7ff0_0000_0000_0001),
        f64::from_bits(0xfff8_0000_0000_0000),
        3.25,
        -3.25,
    ]
}

#[test]
fn test_number_comparisons_agree_with_doubles() {
    for a in samples() {
        for b in samples() {
            assert_eq!(numbers_equal(a.to_bits(), b.to_bits()), a == b, "{} == {}", a, b);
            assert_eq!(numbers_less(a.to_bits(), b.to_bits()), a < b, "{} < {}", a, b);
        }
    }
}

#[test]
fn test_negation_agrees_with_doubles() {
    for a in samples() {
        assert_eq!(negate_number(a.to_bits()), (-a).to_bits());
        assert_eq!(bits_are_nan(a.to_bits()), a.is_nan());
    }
    assert_eq!(negate_number(1.5f64.to_bits()), (-1.5f64).to_bits());
}

#[test]
fn test_values_equal_itself_unless_nan() {
    let values = vec![
        Value::nil(),
        Value::bool(true),
        Value::bool(false),
        Value::number(0.0f64.to_bits()),
        Value::number(12.5f64.to_bits()),
        Value::number(f64::INFINITY.to_bits()),
        Value::string("lox".to_string()),
        Value::string(String::new()),
    ];
    for value in values {
        assert!(values_equal(value.duplicate(), value));
    }
    let nan = Value::number(f64::NAN.to_bits());
    assert!(!values_equal(nan.duplicate(), nan));
}

#[test]
fn test_values_of_different_kinds_are_unequal() {
    assert!(!values_equal(Value::nil(), Value::bool(false)));
    assert!(!values_equal(Value::number(0.0f64.to_bits()), Value::bool(false)));
    assert!(!values_equal(Value::number(0.0f64.to_bits()), Value::nil()));
    assert!(!values_equal(Value::string("1".to_string()), Value::number(1.0f64.to_bits())));
    assert!(values_equal(Value::number(0.0f64.to_bits()), Value::number((-0.0f64).to_bits())));
    assert!(values_equal(Value::string("a".to_string()), Value::string("a".to_string())));
    assert!(!values_equal(Value::string("a".to_string()), Value::string("b".to_string())));
    assert!(!values_equal(Value::bool(true), Value::bool(false)));
}

#[test]
fn test_falsey_values() {
    assert!(is_falsey(Value::nil()));
    assert!(is_falsey(Value::bool(false)));
    assert!(!is_falsey(Value::bool(true)));
    assert!(!is_falsey(Value::number(0.0f64.to_bits())));
    assert!(!is_falsey(Value::string(String::new())));
}

#[test]
fn test_value_kinds() {
    assert!(Value::number(7.0f64.to_bits()).is_number());
    assert!(!Value::nil().is_number());
    assert!(Value::string("s".to_string()).is_string());
    assert!(!Value::bool(true).is_string());
    assert_eq!(f64::from_bits(Value::number(7.0f64.to_bits()).as_number()), 7.0);
}

#[test]
fn test_objects() {
    let a = LoxObject::String("same".to_string());
    let b = LoxObject::String("same".to_string());
    let c = LoxObject::String("other".to_string());
    assert!(objects_equal(&a, &b));
    assert!(!objects_equal(&a, &c));
    assert_eq!(a.to_display_string(), "\"same\"");
}

#[test]
fn test_error_texts() {
    let compile = InterpretError::CompileError("bad".to_string());
    let runtime = InterpretError::RuntimeError("worse".to_string());
    assert_eq!(compile.to_display_string(), "Compile error: bad");
    assert_eq!(runtime.to_display_string(), "Runtime error: worse");
    assert_eq!(compile.description(), "bad");
    assert_eq!(runtime.description(), "worse");
}
