use mdvs::field_type::FieldType;
use mdvs::schema::constraints::pattern::validate_for_type;

#[test]
fn validate_for_type_string_accepts_valid_regex() {
    assert!(validate_for_type("f", &FieldType::String, "^[A-Z]+$").is_none());
}

#[test]
fn pattern_validate_for_type_array_string_accepts() {
    let ft = FieldType::Array(Box::new(FieldType::String));
    assert!(validate_for_type("f", &ft, r"\d+").is_none());
}

#[test]
fn validate_for_type_invalid_regex_rejects() {
    let err = validate_for_type("f", &FieldType::String, "[unclosed").unwrap();
    assert!(err.contains("not a valid regex"));
}

#[test]
fn pattern_validate_for_type_integer_rejects() {
    let err = validate_for_type("f", &FieldType::Integer, "^[A-Z]+$").unwrap();
    assert!(err.contains("Integer"));
    assert!(err.contains("does not apply"));
}

#[test]
fn pattern_validate_for_type_float_rejects() {
    let err = validate_for_type("f", &FieldType::Float, "^[A-Z]+$").unwrap();
    assert!(err.contains("Float"));
}

#[test]
fn pattern_validate_for_type_boolean_rejects() {
    let err = validate_for_type("f", &FieldType::Boolean, "^[A-Z]+$").unwrap();
    assert!(err.contains("Boolean"));
}

#[test]
fn pattern_validate_for_type_array_integer_rejects() {
    let ft = FieldType::Array(Box::new(FieldType::Integer));
    let err = validate_for_type("f", &ft, "^[A-Z]+$").unwrap();
    assert!(err.contains("does not apply"));
}

#[test]
fn validate_for_type_empty_pattern_compiles() {
    assert!(validate_for_type("f", &FieldType::String, "").is_none());
}
