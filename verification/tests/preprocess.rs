use mdvs::field_type::FieldType;
use mdvs::json::{JsonNumber, JsonValue};
use mdvs::preprocess::{ValueStage, coerce_to_string, infer_value_stages, strict_subtype_check};

#[test]
fn coerce_to_string_applies_to_string_and_array_string() {
    assert!(ValueStage::CoerceToString.applies_to(&FieldType::String));
    assert!(ValueStage::CoerceToString.applies_to(&FieldType::Array(Box::new(FieldType::String))));
}

#[test]
fn coerce_to_string_does_not_apply_to_other_types() {
    assert!(!ValueStage::CoerceToString.applies_to(&FieldType::Integer));
    assert!(!ValueStage::CoerceToString.applies_to(&FieldType::Float));
    assert!(!ValueStage::CoerceToString.applies_to(&FieldType::Boolean));
    assert!(!ValueStage::CoerceToString.applies_to(&FieldType::Array(Box::new(FieldType::Integer))));
}

#[test]
fn widen_int_to_float_applies_to_float_and_array_float() {
    assert!(ValueStage::WidenIntToFloat.applies_to(&FieldType::Float));
    assert!(ValueStage::WidenIntToFloat.applies_to(&FieldType::Array(Box::new(FieldType::Float))));
}

#[test]
fn widen_int_to_float_does_not_apply_to_other_types() {
    assert!(!ValueStage::WidenIntToFloat.applies_to(&FieldType::String));
    assert!(!ValueStage::WidenIntToFloat.applies_to(&FieldType::Integer));
    assert!(!ValueStage::WidenIntToFloat.applies_to(&FieldType::Boolean));
    assert!(!ValueStage::WidenIntToFloat.applies_to(&FieldType::Array(Box::new(FieldType::String))));
}

#[test]
fn applicable_types_strings_describe_each_variant() {
    assert_eq!(ValueStage::CoerceToString.applicable_types(), "String, Array(String)");
    assert_eq!(ValueStage::WidenIntToFloat.applicable_types(), "Float, Array(Float)");
}

#[test]
fn display_renders_snake_case_for_each_variant() {
    assert_eq!(ValueStage::CoerceToString.to_string(), "coerce_to_string");
    assert_eq!(ValueStage::WidenIntToFloat.to_string(), "widen_int_to_float");
}

#[test]
fn infer_uniform_string_no_preprocess() {
    let stages = infer_value_stages(
        &[FieldType::String, FieldType::String, FieldType::String],
        &FieldType::String,
    );
    assert!(stages.is_empty());
}

#[test]
fn infer_int_string_widens_with_coerce() {
    let stages = infer_value_stages(&[FieldType::Integer, FieldType::String], &FieldType::String);
    assert_eq!(stages, vec![ValueStage::CoerceToString]);
}

#[test]
fn infer_int_float_widens_with_widen_int_to_float() {
    let stages = infer_value_stages(&[FieldType::Integer, FieldType::Float], &FieldType::Float);
    assert_eq!(stages, vec![ValueStage::WidenIntToFloat]);
}

#[test]
fn infer_array_int_array_float_widens_with_widen() {
    let observed = vec![
        FieldType::Array(Box::new(FieldType::Integer)),
        FieldType::Array(Box::new(FieldType::Float)),
    ];
    let final_type = FieldType::Array(Box::new(FieldType::Float));
    let stages = infer_value_stages(&observed, &final_type);
    assert_eq!(stages, vec![ValueStage::WidenIntToFloat]);
}

#[test]
fn infer_string_scalar_plus_array_widens_with_coerce() {
    let observed = vec![FieldType::String, FieldType::Array(Box::new(FieldType::String))];
    let stages = infer_value_stages(&observed, &FieldType::String);
    assert_eq!(stages, vec![ValueStage::CoerceToString]);
}

#[test]
fn infer_uniform_array_string_no_preprocess() {
    let observed = vec![FieldType::Array(Box::new(FieldType::String))];
    let final_type = FieldType::Array(Box::new(FieldType::String));
    let stages = infer_value_stages(&observed, &final_type);
    assert!(stages.is_empty());
}

#[test]
fn infer_array_mixed_inner_type_coerces() {
    let observed = vec![
        FieldType::Array(Box::new(FieldType::Integer)),
        FieldType::Array(Box::new(FieldType::String)),
    ];
    let final_type = FieldType::Array(Box::new(FieldType::String));
    let stages = infer_value_stages(&observed, &final_type);
    assert_eq!(stages, vec![ValueStage::CoerceToString]);
}

fn num(i: i64) -> JsonValue {
    JsonValue::Number(JsonNumber::Int(i))
}

fn s(x: &str) -> JsonValue {
    JsonValue::String(x.into())
}

#[test]
fn coerce_turns_scalars_into_json_text() {
    assert_eq!(coerce_to_string(&num(42), &FieldType::String), Some(s("42")));
    assert_eq!(coerce_to_string(&JsonValue::Bool(true), &FieldType::String), Some(s("true")));
    assert_eq!(coerce_to_string(&s("x"), &FieldType::String), None);
    assert_eq!(coerce_to_string(&JsonValue::Null, &FieldType::String), None);
    assert_eq!(coerce_to_string(&num(1), &FieldType::Integer), None);
    let arr = JsonValue::Array(vec![num(1), s("a"), JsonValue::Null]);
    let out = coerce_to_string(&arr, &FieldType::Array(Box::new(FieldType::String)));
    assert_eq!(out, Some(JsonValue::Array(vec![s("1"), s("a"), JsonValue::Null])));
    let obj = JsonValue::Object(vec![("k".into(), s("v\"q"))]);
    assert_eq!(coerce_to_string(&obj, &FieldType::String), Some(s("{\"k\":\"v\\\"q\"}")));
}

#[test]
fn strict_check_rejects_integers_for_floats() {
    let none: Vec<ValueStage> = vec![];
    assert_eq!(strict_subtype_check(&none, &FieldType::Float, &num(5)).as_deref(), Some("got Integer"));
    let widen = vec![ValueStage::WidenIntToFloat];
    assert_eq!(strict_subtype_check(&widen, &FieldType::Float, &num(5)), None);
    let arr = JsonValue::Array(vec![s("x"), num(2), num(3)]);
    let af = FieldType::Array(Box::new(FieldType::Float));
    assert_eq!(
        strict_subtype_check(&none, &af, &arr).as_deref(),
        Some("got Integer at index 1")
    );
    assert_eq!(strict_subtype_check(&widen, &af, &arr), None);
    assert_eq!(strict_subtype_check(&none, &FieldType::String, &num(5)), None);
}
