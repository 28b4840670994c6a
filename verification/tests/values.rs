use ensemble::text_map::TextMap;
use ensemble::values::{FloatValue, Value};

fn float(x: f64) -> FloatValue {
    FloatValue::new(x.to_bits())
}

#[test]
fn map_ordering_does_not_affect_equality() {
    // Fields are kept by key, so insertion order does not matter.
    let mut m1 = TextMap::new();
    m1.insert("a".into(), Value::Integer(1));
    m1.insert("b".into(), Value::Integer(2));

    let mut m2 = TextMap::new();
    m2.insert("b".into(), Value::Integer(2));
    m2.insert("a".into(), Value::Integer(1));

    assert_eq!(Value::Dict(m1), Value::Dict(m2));
}

#[test]
fn different_types_are_not_equal() {
    let int_val = Value::Integer(42);
    let float_val = Value::Float(float(42.0));
    let string_val = Value::String("42".into());

    assert_ne!(int_val, float_val);
    assert_ne!(int_val, string_val);
    assert_ne!(float_val, string_val);
}

#[test]
fn null_is_distinct_from_other_types() {
    assert_ne!(Value::Null, Value::Bool(false));
    assert_ne!(Value::Null, Value::Integer(0));
    assert_ne!(Value::Null, Value::String("".into()));
}


#[test]
fn floats_compare_by_bit_pattern() {
    assert_eq!(Value::Float(float(f64::NAN)), Value::Float(float(f64::NAN)));
    assert_ne!(Value::Float(float(0.0)), Value::Float(float(-0.0)));
    assert_eq!(FloatValue::zero().value(), 0.0f64.to_bits());
}

#[test]
fn a_clone_is_an_equal_value() {
    let mut m = TextMap::new();
    m.insert("x".into(), Value::Tuple(vec![Value::Null, Value::Bool(true)]));
    m.insert("y".into(), Value::Binary(vec![0, 255]));
    let nested = Value::List(vec![Value::Dict(m), Value::String("s".into())]);
    assert_eq!(nested.clone(), nested);
    assert_ne!(Value::Tuple(vec![Value::Null]), Value::List(vec![Value::Null]));
    assert_ne!(Value::Binary(vec![1]), Value::Binary(vec![1, 2]));
}
