//! Scenarios of the constraint set.

use mdvs::field_type::FieldType;
use mdvs::schema::constraints::{ConstraintKind, Constraints};
use mdvs::schema::toml_value::{TomlFloat, TomlValue};

fn tf(x: f64) -> TomlFloat {
    TomlFloat {
        bits: x.to_bits(),
        text: toml::Value::Float(x).to_string(),
        display: format!("{x}"),
        json: serde_json::to_string(&x).unwrap(),
    }
}


#[allow(dead_code)]
fn clone_tf(f: &TomlFloat) -> TomlFloat {
    TomlFloat { bits: f.bits, text: f.text.clone(), display: f.display.clone(), json: f.json.clone() }
}

fn clone_tv(v: &TomlValue) -> TomlValue {
    match v {
        TomlValue::String(s) => TomlValue::String(s.clone()),
        TomlValue::Integer(i) => TomlValue::Integer(*i),
        TomlValue::Float(f) => TomlValue::Float(clone_tf(f)),
        TomlValue::Boolean(b) => TomlValue::Boolean(*b),
        TomlValue::Datetime(s) => TomlValue::Datetime(s.clone()),
        TomlValue::Array(items) => TomlValue::Array(items.iter().map(clone_tv).collect()),
        TomlValue::Table(items) => {
            TomlValue::Table(items.iter().map(|(k, v)| (k.clone(), clone_tv(v))).collect())
        }
    }
}


fn str_cats(vals: &[&str]) -> Vec<TomlValue> {
    vals.iter()
        .map(|s| TomlValue::String(s.to_string()))
        .collect()
}

fn int_cats(vals: &[i64]) -> Vec<TomlValue> {
    vals.iter().map(|&n| TomlValue::Integer(n)).collect()
}

fn cats_constraint(cats: Vec<TomlValue>) -> Constraints {
    Constraints {
        categories: Some(cats),
        ..Default::default()
    }
}

fn cats_kind(cats: Vec<TomlValue>) -> ConstraintKind {
    ConstraintKind::Categories(cats)
}

// -----------------------------------------------------------------------
// Serde roundtrip
// -----------------------------------------------------------------------

// -----------------------------------------------------------------------
// active()
// -----------------------------------------------------------------------

#[test]
fn active_empty_constraints() {
    assert!(Constraints::default().active().is_empty());
}

#[test]
fn active_with_categories() {
    let cats = str_cats(&["a", "b"]);
    let c = cats_constraint(cats.iter().map(clone_tv).collect::<Vec<TomlValue>>());
    assert_eq!(c.active(), vec![ConstraintKind::Categories(cats)]);
}

// -----------------------------------------------------------------------
// validate_config integration
// -----------------------------------------------------------------------

#[test]
fn validate_config_valid_string_categories() {
    let c = cats_constraint(str_cats(&["a", "b"]));
    assert!(c.validate_config("f", &FieldType::String).is_empty());
}

#[test]
fn validate_config_invalid_type_for_categories() {
    let c = cats_constraint(str_cats(&["a", "b"]));
    let errors = c.validate_config("f", &FieldType::Boolean);
    assert!(!errors.is_empty());
}

#[test]
fn validate_config_mismatched_category_values() {
    let c = cats_constraint(int_cats(&[1, 2]));
    let errors = c.validate_config("f", &FieldType::String);
    assert!(!errors.is_empty());
}

#[test]
fn validate_config_no_constraints() {
    let c = Constraints::default();
    assert!(c.validate_config("f", &FieldType::String).is_empty());
}

// -----------------------------------------------------------------------
// conflicts_with
// -----------------------------------------------------------------------

#[test]
fn conflicts_with_duplicate_categories() {
    let a = cats_kind(str_cats(&["a"]));
    let b = cats_kind(str_cats(&["b"]));
    let err = a.conflicts_with(&b, "f", &FieldType::String).unwrap();
    assert!(err.contains("duplicate"));
}

#[test]
fn conflicts_with_duplicate_length() {
    let a = ConstraintKind::Length {
        min: Some(1),
        max: None,
    };
    let b = ConstraintKind::Length {
        min: None,
        max: Some(10),
    };
    let err = a.conflicts_with(&b, "f", &FieldType::String).unwrap();
    assert!(err.contains("duplicate length"));
}

#[test]
fn conflicts_with_duplicate_pattern() {
    let a = ConstraintKind::Pattern("^a$".into());
    let b = ConstraintKind::Pattern("^b$".into());
    let err = a.conflicts_with(&b, "f", &FieldType::String).unwrap();
    assert!(err.contains("duplicate pattern"));
}

#[test]
fn conflicts_with_categories_and_length() {
    let a = cats_kind(str_cats(&["a"]));
    let b = ConstraintKind::Length {
        min: Some(1),
        max: None,
    };
    let err = a.conflicts_with(&b, "f", &FieldType::String).unwrap();
    assert!(err.contains("categories cannot be combined"));
}

#[test]
fn conflicts_with_categories_and_pattern() {
    let a = cats_kind(str_cats(&["a"]));
    let b = ConstraintKind::Pattern("^a$".into());
    let err = a.conflicts_with(&b, "f", &FieldType::String).unwrap();
    assert!(err.contains("categories cannot be combined"));
}

#[test]
fn length_and_pattern_compatible() {
    let a = ConstraintKind::Length {
        min: Some(1),
        max: Some(10),
    };
    let b = ConstraintKind::Pattern("^[A-Z]+$".into());
    assert!(a.conflicts_with(&b, "f", &FieldType::String).is_none());
    assert!(b.conflicts_with(&a, "f", &FieldType::String).is_none());
}

#[test]
fn validate_config_rejects_categories_with_length() {
    let c = Constraints {
        categories: Some(str_cats(&["a", "b"])),
        min_length: Some(1),
        ..Default::default()
    };
    let errors = c.validate_config("f", &FieldType::String);
    assert!(
        errors.iter().any(|e| e.contains("cannot be combined")),
        "expected cannot-be-combined error, got: {errors:?}"
    );
}

#[test]
fn validate_config_accepts_length_plus_pattern() {
    let c = Constraints {
        min_length: Some(3),
        max_length: Some(64),
        pattern: Some("^[A-Z]".into()),
        ..Default::default()
    };
    assert!(c.validate_config("f", &FieldType::String).is_empty());
}

#[test]
fn validate_config_rejects_length_on_integer() {
    let c = Constraints {
        min_length: Some(3),
        ..Default::default()
    };
    let errors = c.validate_config("f", &FieldType::Integer);
    assert!(!errors.is_empty());
}

#[test]
fn validate_config_rejects_invalid_regex() {
    let c = Constraints {
        pattern: Some("[unclosed".into()),
        ..Default::default()
    };
    let errors = c.validate_config("f", &FieldType::String);
    assert!(errors.iter().any(|e| e.contains("not a valid regex")));
}

#[test]
fn active_with_length_and_pattern() {
    let c = Constraints {
        min_length: Some(1),
        max_length: Some(10),
        pattern: Some("^a$".into()),
        ..Default::default()
    };
    let active = c.active();
    assert_eq!(active.len(), 2);
    assert!(matches!(active[0], ConstraintKind::Length { .. }));
    assert!(matches!(active[1], ConstraintKind::Pattern(_)));
}
