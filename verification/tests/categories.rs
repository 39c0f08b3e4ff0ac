//! Scenarios of the categories constraint.

use mdvs::field_type::FieldType;
use mdvs::schema::constraints::ConstraintKind;
use mdvs::schema::toml_value::{TomlFloat, TomlValue};

fn tf(x: f64) -> TomlFloat {
    TomlFloat {
        bits: x.to_bits(),
        text: toml::Value::Float(x).to_string(),
        display: format!("{x}"),
        json: serde_json::to_string(&x).unwrap(),
    }
}


#[allow(dead_code)]
fn clone_tf(f: &TomlFloat) -> TomlFloat {
    TomlFloat { bits: f.bits, text: f.text.clone(), display: f.display.clone(), json: f.json.clone() }
}

fn clone_tv(v: &TomlValue) -> TomlValue {
    match v {
        TomlValue::String(s) => TomlValue::String(s.clone()),
        TomlValue::Integer(i) => TomlValue::Integer(*i),
        TomlValue::Float(f) => TomlValue::Float(clone_tf(f)),
        TomlValue::Boolean(b) => TomlValue::Boolean(*b),
        TomlValue::Datetime(s) => TomlValue::Datetime(s.clone()),
        TomlValue::Array(items) => TomlValue::Array(items.iter().map(clone_tv).collect()),
        TomlValue::Table(items) => {
            TomlValue::Table(items.iter().map(|(k, v)| (k.clone(), clone_tv(v))).collect())
        }
    }
}


// -- helpers --

fn str_cats(vals: &[&str]) -> Vec<TomlValue> {
    vals.iter()
        .map(|s| TomlValue::String(s.to_string()))
        .collect()
}

fn int_cats(vals: &[i64]) -> Vec<TomlValue> {
    vals.iter().map(|&n| TomlValue::Integer(n)).collect()
}

fn cats_kind(cats: Vec<TomlValue>) -> ConstraintKind {
    ConstraintKind::Categories(cats)
}

// -----------------------------------------------------------------------
// validate_for_type — type applicability
// -----------------------------------------------------------------------

#[test]
fn validate_for_type_string_accepts() {
    let k = cats_kind(str_cats(&["a", "b"]));
    assert!(k.validate_for_type("f", &FieldType::String).is_none());
}

#[test]
fn validate_for_type_integer_accepts() {
    let k = cats_kind(int_cats(&[1, 2]));
    assert!(k.validate_for_type("f", &FieldType::Integer).is_none());
}

#[test]
fn validate_for_type_array_string_accepts() {
    let k = cats_kind(str_cats(&["a", "b"]));
    let ft = FieldType::Array(Box::new(FieldType::String));
    assert!(k.validate_for_type("f", &ft).is_none());
}

#[test]
fn validate_for_type_array_integer_accepts() {
    let k = cats_kind(int_cats(&[1, 2]));
    let ft = FieldType::Array(Box::new(FieldType::Integer));
    assert!(k.validate_for_type("f", &ft).is_none());
}

#[test]
fn validate_for_type_date_accepts_string_categories() {
    // Date categorical values are TOML strings on disk; jsonschema's
    // format:date validator catches invalid ones at runtime.
    let k = cats_kind(str_cats(&["2024-01-01", "2024-12-31"]));
    assert!(k.validate_for_type("f", &FieldType::Date).is_none());
}

#[test]
fn validate_for_type_array_date_accepts_string_categories() {
    let k = cats_kind(str_cats(&["2024-01-01", "2024-12-31"]));
    let ft = FieldType::Array(Box::new(FieldType::Date));
    assert!(k.validate_for_type("f", &ft).is_none());
}

#[test]
fn validate_for_type_datetime_accepts_string_categories() {
    let k = cats_kind(str_cats(&["2024-01-01T00:00:00Z", "2024-12-31T23:59:59Z"]));
    assert!(k.validate_for_type("f", &FieldType::DateTime).is_none());
}

#[test]
fn validate_for_type_array_datetime_accepts_string_categories() {
    let k = cats_kind(str_cats(&["2024-01-01T00:00:00Z", "2024-12-31T23:59:59Z"]));
    let ft = FieldType::Array(Box::new(FieldType::DateTime));
    assert!(k.validate_for_type("f", &ft).is_none());
}

#[test]
fn validate_for_type_boolean_rejects() {
    let k = cats_kind(str_cats(&["a"]));
    let err = k.validate_for_type("f", &FieldType::Boolean).unwrap();
    assert!(err.contains("Boolean"));
    assert!(err.contains("does not apply"));
}

#[test]
fn validate_for_type_float_rejects() {
    let k = cats_kind(str_cats(&["a"]));
    let err = k.validate_for_type("f", &FieldType::Float).unwrap();
    assert!(err.contains("Float"));
}

#[test]
fn validate_for_type_object_rejects() {
    let k = cats_kind(str_cats(&["a"]));
    let ft = FieldType::Object(Vec::new());
    let err = k.validate_for_type("f", &ft).unwrap();
    assert!(err.contains("Object"));
}

#[test]
fn validate_for_type_array_float_rejects() {
    let k = cats_kind(str_cats(&["a"]));
    let ft = FieldType::Array(Box::new(FieldType::Float));
    let err = k.validate_for_type("f", &ft).unwrap();
    assert!(err.contains("Array(Float)"));
}

#[test]
fn validate_for_type_array_boolean_rejects() {
    let k = cats_kind(str_cats(&["a"]));
    let ft = FieldType::Array(Box::new(FieldType::Boolean));
    let err = k.validate_for_type("f", &ft).unwrap();
    assert!(err.contains("Array(Boolean)"));
}

#[test]
fn validate_for_type_array_object_rejects() {
    let k = cats_kind(str_cats(&["a"]));
    let ft = FieldType::Array(Box::new(FieldType::Object(Vec::new())));
    let err = k.validate_for_type("f", &ft).unwrap();
    assert!(err.contains("Array(Object)"));
}

// -----------------------------------------------------------------------
// validate_for_type — category value validation
// -----------------------------------------------------------------------

#[test]
fn validate_for_type_string_field_integer_values_rejects() {
    let k = cats_kind(int_cats(&[1, 2]));
    let err = k.validate_for_type("f", &FieldType::String).unwrap();
    assert!(err.contains("index 0"));
    assert!(err.contains("String"));
}

#[test]
fn validate_for_type_integer_field_string_values_rejects() {
    let k = cats_kind(str_cats(&["a", "b"]));
    let err = k.validate_for_type("f", &FieldType::Integer).unwrap();
    assert!(err.contains("index 0"));
    assert!(err.contains("Integer"));
}

#[test]
fn validate_for_type_mixed_category_values_rejects() {
    let cats = vec![
        TomlValue::String("draft".into()),
        TomlValue::Integer(42),
    ];
    let k = cats_kind(cats);
    let err = k.validate_for_type("f", &FieldType::String).unwrap();
    assert!(err.contains("index 1"));
}

#[test]
fn validate_for_type_empty_categories_rejects() {
    let k = cats_kind(vec![]);
    let err = k.validate_for_type("f", &FieldType::String).unwrap();
    assert!(err.contains("must not be empty"));
}
