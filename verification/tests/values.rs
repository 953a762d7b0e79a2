//! Tests of the tagged boundary values: shape conformance and the
//! conversions to host types.

use sapphillon::Shape;
use sapphillon::Value;

#[test]
fn scalar_tags_must_match() {
    assert!(Value::Integer(7).fits(&Shape::Integer));
    assert!(!Value::Integer(7).fits(&Shape::Text));
    assert!(Value::Boolean(false).fits(&Shape::Boolean));
    assert!(Value::Text("x".to_string()).fits(&Shape::Text));
    assert!(Value::Unit.fits(&Shape::Unit));
    assert!(!Value::Unit.fits(&Shape::Integer));
    // A float is carried as its bit pattern and checked by tag only.
    let one_half = Value::Float(0x3FE0000000000000);
    assert!(one_half.fits(&Shape::Float));
    assert!(!one_half.fits(&Shape::Integer));
}

#[test]
fn sequences_check_every_element() {
    let ints = Shape::Sequence(Box::new(Shape::Integer));
    assert!(Value::Sequence(vec![]).fits(&ints));
    assert!(Value::Sequence(vec![Value::Integer(1), Value::Integer(2)]).fits(&ints));
    assert!(!Value::Sequence(vec![Value::Integer(1), Value::Boolean(true)]).fits(&ints));
    assert!(!Value::Integer(1).fits(&ints));

    let nested = Shape::Sequence(Box::new(Shape::Sequence(Box::new(Shape::Integer))));
    assert!(Value::Sequence(vec![Value::Sequence(vec![Value::Integer(3)])]).fits(&nested));
    assert!(!Value::Sequence(vec![Value::Integer(3)]).fits(&nested));
}

#[test]
fn records_check_names_order_and_shapes() {
    let point = Shape::Record(vec![
        ("x".to_string(), Shape::Integer),
        ("y".to_string(), Shape::Integer),
    ]);
    let good = Value::Record(vec![
        ("x".to_string(), Value::Integer(1)),
        ("y".to_string(), Value::Integer(2)),
    ]);
    assert!(good.fits(&point));

    let wrong_name = Value::Record(vec![
        ("x".to_string(), Value::Integer(1)),
        ("z".to_string(), Value::Integer(2)),
    ]);
    assert!(!wrong_name.fits(&point));

    let wrong_shape = Value::Record(vec![
        ("x".to_string(), Value::Integer(1)),
        ("y".to_string(), Value::Text("2".to_string())),
    ]);
    assert!(!wrong_shape.fits(&point));

    let too_short = Value::Record(vec![("x".to_string(), Value::Integer(1))]);
    assert!(!too_short.fits(&point));
}

#[test]
fn conversions_succeed_exactly_on_their_variant() {
    assert_eq!(Value::Integer(-3).as_integer(), Some(-3));
    assert_eq!(Value::Boolean(true).as_integer(), None);
    assert_eq!(Value::Boolean(true).as_boolean(), Some(true));
    assert_eq!(Value::Integer(1).as_boolean(), None);
    assert_eq!(Value::Text("hi".to_string()).as_text(), Some("hi".to_string()));
    assert_eq!(Value::Unit.as_text(), None);
}

#[test]
fn integer_sequence_conversion_is_exact() {
    let seq = Value::Sequence(vec![
        Value::Integer(10),
        Value::Integer(-20),
        Value::Integer(30),
    ]);
    assert_eq!(seq.as_integer_sequence(), Some(vec![10, -20, 30]));
    assert_eq!(Value::Sequence(vec![]).as_integer_sequence(), Some(vec![]));
    assert_eq!(Value::Integer(1).as_integer_sequence(), None);
    let mixed = Value::Sequence(vec![Value::Integer(1), Value::Float(0)]);
    assert_eq!(mixed.as_integer_sequence(), None);
}
