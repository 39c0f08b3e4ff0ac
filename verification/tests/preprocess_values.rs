//! Scenarios of the value preprocessors.

use mdvs::field_type::FieldType;
use mdvs::json::{JsonNumber, JsonValue};
use mdvs::preprocess::{coerce_to_string, strict_subtype_check, ValueStage};
use mdvs::schema::config::TomlField;
use mdvs::schema::shared::FieldTypeSerde;
use mdvs::schema::toml_value::TomlFloat;
use serde_json::Value;

fn tf(x: f64) -> TomlFloat {
    TomlFloat {
        bits: x.to_bits(),
        text: toml::Value::Float(x).to_string(),
        display: format!("{x}"),
        json: serde_json::to_string(&x).unwrap(),
    }
}

fn sv(v: &JsonValue) -> Value {
    match v {
        JsonValue::Null => Value::Null,
        JsonValue::Bool(b) => Value::Bool(*b),
        JsonValue::Number(JsonNumber::Int(i)) => Value::from(*i),
        JsonValue::Number(JsonNumber::BigUint(u, _)) => Value::from(*u),
        JsonValue::Number(JsonNumber::Float(f)) => Value::from(f64::from_bits(f.bits)),
        JsonValue::String(s) => Value::String(s.clone()),
        JsonValue::Array(items) => Value::Array(items.iter().map(sv).collect()),
        JsonValue::Object(members) => {
            Value::Object(members.iter().map(|(k, v)| (k.clone(), sv(v))).collect())
        }
    }
}

fn jv(v: &Value) -> JsonValue {
    match v {
        Value::Null => JsonValue::Null,
        Value::Bool(b) => JsonValue::Bool(*b),
        Value::Number(n) => {
            if let Some(i) = n.as_i64() {
                JsonValue::Number(JsonNumber::Int(i))
            } else if let Some(u) = n.as_u64() {
                JsonValue::Number(JsonNumber::BigUint(u, Some(tf(u as f64))))
            } else {
                JsonValue::Number(JsonNumber::Float(tf(n.as_f64().unwrap())))
            }
        }
        Value::String(s) => JsonValue::String(s.clone()),
        Value::Array(items) => JsonValue::Array(items.iter().map(jv).collect()),
        Value::Object(members) => {
            JsonValue::Object(members.iter().map(|(k, v)| (k.clone(), jv(v))).collect())
        }
    }
}

fn js(text: &str) -> Value {
    serde_json::from_str(text).unwrap()
}


fn coerce(v: &Value, ft: &FieldType) -> Option<Value> {
    coerce_to_string(&jv(v), ft).map(|r| sv(&r))
}

fn strict(field: &TomlField, ft: &FieldType, v: &Value) -> Option<String> {
    strict_subtype_check(&field.preprocess, ft, &jv(v))
}

fn string_field(name: &str, preprocess: Vec<ValueStage>) -> TomlField {
    TomlField {
        name: name.into(),
        field_type: FieldTypeSerde::Scalar("String".into()),
        allowed: vec!["**".into()],
        required: vec![],
        nullable: false,
        constraints: None,
        preprocess,
    }
}

fn float_field(name: &str, preprocess: Vec<ValueStage>) -> TomlField {
    TomlField {
        name: name.into(),
        field_type: FieldTypeSerde::Scalar("Float".into()),
        allowed: vec!["**".into()],
        required: vec![],
        nullable: false,
        constraints: None,
        preprocess,
    }
}

fn array_string_field(name: &str, preprocess: Vec<ValueStage>) -> TomlField {
    TomlField {
        name: name.into(),
        field_type: FieldTypeSerde::Array {
            array: Box::new(FieldTypeSerde::Scalar("String".into())),
        },
        allowed: vec!["**".into()],
        required: vec![],
        nullable: false,
        constraints: None,
        preprocess,
    }
}

// -----------------------------------------------------------------------
// ValueStage::applies_to / applicable_types
// -----------------------------------------------------------------------

// -----------------------------------------------------------------------
// coerce_to_string
// -----------------------------------------------------------------------

#[test]
fn coerce_to_string_preserves_string_value() {
    let r = coerce(&js(r##""hello""##), &FieldType::String);
    assert!(r.is_none()); // no-op
}

#[test]
fn coerce_to_string_serializes_integer() {
    let r = coerce(&js(r##"42"##), &FieldType::String).unwrap();
    assert_eq!(r, js(r##""42""##));
}

#[test]
fn coerce_to_string_serializes_array_for_string_field() {
    let r = coerce(&js(r##"["internal"]"##), &FieldType::String).unwrap();
    assert_eq!(r, Value::String(r#"["internal"]"#.to_string()));
}

#[test]
fn coerce_to_string_preserves_null() {
    let r = coerce(&js(r##"null"##), &FieldType::String);
    assert!(r.is_none());
}

#[test]
fn coerce_to_string_per_element_for_array_string() {
    let arr_str = FieldType::Array(Box::new(FieldType::String));
    let r = coerce(&js(r##"["ok", 42, true]"##), &arr_str).unwrap();
    assert_eq!(r, js(r##"["ok", "42", "true"]"##));
}

#[test]
fn coerce_to_string_no_op_for_integer_field() {
    let r = coerce(&js(r##"42"##), &FieldType::Integer);
    assert!(r.is_none());
}

// -----------------------------------------------------------------------
// widen_int_to_float
// -----------------------------------------------------------------------

// -----------------------------------------------------------------------
// Pipeline
// -----------------------------------------------------------------------

// -----------------------------------------------------------------------
// infer_value_stages
// -----------------------------------------------------------------------

// -----------------------------------------------------------------------
// strict_subtype_check
// -----------------------------------------------------------------------

fn array_float_field(name: &str, preprocess: Vec<ValueStage>) -> TomlField {
    TomlField {
        name: name.into(),
        field_type: FieldTypeSerde::Array {
            array: Box::new(FieldTypeSerde::Scalar("Float".into())),
        },
        allowed: vec!["**".into()],
        required: vec![],
        nullable: false,
        constraints: None,
        preprocess,
    }
}

#[test]
fn strict_check_rejects_integer_on_strict_float() {
    let field = float_field("score", vec![]);
    let result = strict(&field, &FieldType::Float, &js(r##"5"##));
    assert_eq!(result.as_deref(), Some("got Integer"));
}

#[test]
fn strict_check_accepts_integer_when_widen_int_to_float_set() {
    let field = float_field("score", vec![ValueStage::WidenIntToFloat]);
    let result = strict(&field, &FieldType::Float, &js(r##"5"##));
    assert!(result.is_none());
}

#[test]
fn strict_check_accepts_float_on_strict_float() {
    let field = float_field("score", vec![]);
    let result = strict(&field, &FieldType::Float, &js(r##"5.0"##));
    assert!(result.is_none());
}

#[test]
fn strict_check_ignores_null_on_strict_float() {
    // Null handling is jsonschema's job (NullNotAllowed). Precheck stays out.
    let field = float_field("score", vec![]);
    let result = strict(&field, &FieldType::Float, &Value::Null);
    assert!(result.is_none());
}

#[test]
fn strict_check_ignores_string_on_strict_float() {
    // Wrong primitive type is jsonschema's job (WrongType from "number").
    let field = float_field("score", vec![]);
    let result = strict(&field, &FieldType::Float, &js(r##""hi""##));
    assert!(result.is_none());
}

#[test]
fn strict_check_rejects_integer_element_in_strict_array_float() {
    let field = array_float_field("scores", vec![]);
    let arr_type = FieldType::Array(Box::new(FieldType::Float));
    let result = strict(&field, &arr_type, &js(r##"[1.0, 2, 3.0]"##));
    assert_eq!(result.as_deref(), Some("got Integer at index 1"));
}

#[test]
fn strict_check_accepts_integer_element_in_array_float_with_widen() {
    let field = array_float_field("scores", vec![ValueStage::WidenIntToFloat]);
    let arr_type = FieldType::Array(Box::new(FieldType::Float));
    let result = strict(&field, &arr_type, &js(r##"[1.0, 2, 3.0]"##));
    assert!(result.is_none());
}

#[test]
fn strict_check_accepts_uniform_float_array() {
    let field = array_float_field("scores", vec![]);
    let arr_type = FieldType::Array(Box::new(FieldType::Float));
    let result = strict(&field, &arr_type, &js(r##"[1.0, 2.5, 3.0]"##));
    assert!(result.is_none());
}

#[test]
fn strict_check_does_not_apply_to_non_float_fields() {
    // String, Integer, Boolean, Array(String) — no strict subtype check.
    let s = string_field("title", vec![]);
    assert!(strict(&s, &FieldType::String, &js(r##"5"##)).is_none());

    let arr_s = array_string_field("tags", vec![]);
    let arr_string_type = FieldType::Array(Box::new(FieldType::String));
    assert!(strict(&arr_s, &arr_string_type, &js(r##"[1, 2]"##)).is_none());
}
