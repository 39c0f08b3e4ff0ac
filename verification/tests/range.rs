//! Scenarios of the range constraint.

use mdvs::field_type::FieldType;
use mdvs::schema::constraints::range::validate_for_type;
use mdvs::schema::toml_value::{TomlFloat, TomlValue};

fn tf(x: f64) -> TomlFloat {
    TomlFloat {
        bits: x.to_bits(),
        text: toml::Value::Float(x).to_string(),
        display: format!("{x}"),
        json: serde_json::to_string(&x).unwrap(),
    }
}


#[allow(dead_code)]
fn clone_tf(f: &TomlFloat) -> TomlFloat {
    TomlFloat { bits: f.bits, text: f.text.clone(), display: f.display.clone(), json: f.json.clone() }
}

fn clone_tv(v: &TomlValue) -> TomlValue {
    match v {
        TomlValue::String(s) => TomlValue::String(s.clone()),
        TomlValue::Integer(i) => TomlValue::Integer(*i),
        TomlValue::Float(f) => TomlValue::Float(clone_tf(f)),
        TomlValue::Boolean(b) => TomlValue::Boolean(*b),
        TomlValue::Datetime(s) => TomlValue::Datetime(s.clone()),
        TomlValue::Array(items) => TomlValue::Array(items.iter().map(clone_tv).collect()),
        TomlValue::Table(items) => {
            TomlValue::Table(items.iter().map(|(k, v)| (k.clone(), clone_tv(v))).collect())
        }
    }
}


// -- helpers --

fn int_min(n: i64) -> Option<TomlValue> {
    Some(TomlValue::Integer(n))
}

fn int_max(n: i64) -> Option<TomlValue> {
    Some(TomlValue::Integer(n))
}

fn float_min(f: f64) -> Option<TomlValue> {
    Some(TomlValue::Float(tf(f)))
}

fn float_max(f: f64) -> Option<TomlValue> {
    Some(TomlValue::Float(tf(f)))
}

// -----------------------------------------------------------------------
// validate_for_type — type applicability
// -----------------------------------------------------------------------

#[test]
fn type_integer_accepts() {
    assert!(validate_for_type("f", &FieldType::Integer, &int_min(0), &int_max(10)).is_none());
}

#[test]
fn type_float_accepts() {
    assert!(
        validate_for_type("f", &FieldType::Float, &float_min(0.0), &float_max(1.0)).is_none()
    );
}

#[test]
fn type_float_accepts_integer_bounds() {
    assert!(validate_for_type("f", &FieldType::Float, &int_min(0), &int_max(100)).is_none());
}

#[test]
fn type_array_integer_accepts() {
    let ft = FieldType::Array(Box::new(FieldType::Integer));
    assert!(validate_for_type("f", &ft, &int_min(1), &int_max(10)).is_none());
}

#[test]
fn type_array_float_accepts() {
    let ft = FieldType::Array(Box::new(FieldType::Float));
    assert!(validate_for_type("f", &ft, &float_min(0.0), &float_max(1.0)).is_none());
}

#[test]
fn type_boolean_rejects() {
    let err = validate_for_type("f", &FieldType::Boolean, &int_min(0), &int_max(1)).unwrap();
    assert!(err.contains("Boolean"));
    assert!(err.contains("does not apply"));
}

#[test]
fn type_string_rejects() {
    let err = validate_for_type("f", &FieldType::String, &int_min(0), &int_max(1)).unwrap();
    assert!(err.contains("String"));
}

#[test]
fn type_date_rejects() {
    let err = validate_for_type("f", &FieldType::Date, &int_min(0), &int_max(1)).unwrap();
    assert!(err.contains("Date"));
    assert!(err.contains("does not apply"));
}

#[test]
fn type_object_rejects() {
    let ft = FieldType::Object(Vec::new());
    let err = validate_for_type("f", &ft, &int_min(0), &int_max(1)).unwrap();
    assert!(err.contains("Object"));
}

#[test]
fn type_array_string_rejects() {
    let ft = FieldType::Array(Box::new(FieldType::String));
    let err = validate_for_type("f", &ft, &int_min(0), &int_max(1)).unwrap();
    assert!(err.contains("Array(String)"));
}

#[test]
fn type_array_boolean_rejects() {
    let ft = FieldType::Array(Box::new(FieldType::Boolean));
    let err = validate_for_type("f", &ft, &int_min(0), &int_max(1)).unwrap();
    assert!(err.contains("Array(Boolean)"));
}

// -----------------------------------------------------------------------
// validate_for_type — bound type validation
// -----------------------------------------------------------------------

#[test]
fn integer_field_float_bound_rejects() {
    let err = validate_for_type("f", &FieldType::Integer, &float_min(0.5), &None).unwrap();
    assert!(err.contains("float"));
    assert!(err.contains("Integer"));
}

#[test]
fn integer_field_float_max_rejects() {
    let err = validate_for_type("f", &FieldType::Integer, &None, &float_max(10.5)).unwrap();
    assert!(err.contains("float"));
}

#[test]
fn float_field_mixed_bounds_accepts() {
    // Integer min, float max on a float field — widening.
    assert!(validate_for_type("f", &FieldType::Float, &int_min(0), &float_max(1.0)).is_none());
}

#[test]
fn string_bound_rejects() {
    let bad = Some(TomlValue::String("hello".into()));
    let err = validate_for_type("f", &FieldType::Integer, &bad, &None).unwrap();
    assert!(err.contains("numeric"));
}

// -----------------------------------------------------------------------
// validate_for_type — min > max
// -----------------------------------------------------------------------

#[test]
fn min_greater_than_max_rejects() {
    let err = validate_for_type("f", &FieldType::Integer, &int_min(10), &int_max(5)).unwrap();
    assert!(err.contains("greater than"));
}

#[test]
fn min_equals_max_accepts() {
    assert!(validate_for_type("f", &FieldType::Integer, &int_min(5), &int_max(5)).is_none());
}

#[test]
fn min_only_accepts() {
    assert!(validate_for_type("f", &FieldType::Integer, &int_min(0), &None).is_none());
}

#[test]
fn max_only_accepts() {
    assert!(validate_for_type("f", &FieldType::Integer, &None, &int_max(100)).is_none());
}
