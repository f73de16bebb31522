//! Tests for Ferrix value display, debug formatting, and equality semantics.

use ferrix::value::FloatTexts;
use ferrix::{ObjRef, Value};

fn float(number: f64) -> Value {
    Value::Float(number.to_bits())
}

fn texts(numbers: &[f64]) -> FloatTexts {
    let mut texts = FloatTexts::new();
    for number in numbers {
        texts = texts.with_text(
            number.to_bits(),
            &format!("{number}"),
            &format!("{number:?}"),
        );
    }
    texts
}

#[test]
fn displays_user_facing_values() {
    assert_eq!(Value::Int(42).to_string(&texts(&[3.5])), "42");
    assert_eq!(float(3.5).to_string(&texts(&[3.5])), "3.5");
    assert_eq!(Value::Bool(true).to_string(&texts(&[3.5])), "true");
    assert_eq!(Value::Nil.to_string(&texts(&[3.5])), "nil");
    assert_eq!(Value::Obj(ObjRef::new(2, 0)).to_string(&texts(&[3.5])), "<object #2:0>");
}

#[test]
fn displays_developer_debug_values() {
    assert_eq!(Value::Int(42).debug_display().to_string(&texts(&[3.5])), "Int(42)");
    assert_eq!(
        Value::Bool(false).debug_display().to_string(&texts(&[3.5])),
        "Bool(false)"
    );
    assert_eq!(
        Value::Obj(ObjRef::new(2, 0)).debug_display().to_string(&texts(&[3.5])),
        "Obj(#2:0)"
    );
}

#[test]
fn primitive_equality_is_content_based() {
    assert_eq!(Value::Int(1), Value::Int(1));
    assert_eq!(float(1.0), float(1.0));
    assert_ne!(Value::Int(1), float(1.0));
}

#[test]
fn object_equality_is_reference_based() {
    assert_eq!(Value::Obj(ObjRef::new(1, 0)), Value::Obj(ObjRef::new(1, 0)));
    assert_ne!(Value::Obj(ObjRef::new(1, 0)), Value::Obj(ObjRef::new(2, 0)));
}
