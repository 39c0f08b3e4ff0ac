use mdvs::field_type::FieldType;
use mdvs::schema::constraints::length::validate_for_type;

#[test]
fn length_validate_for_type_string_accepts() {
    assert!(validate_for_type("f", &FieldType::String, Some(1), Some(64)).is_none());
}

#[test]
fn length_validate_for_type_array_string_accepts() {
    let ft = FieldType::Array(Box::new(FieldType::String));
    assert!(validate_for_type("f", &ft, Some(3), Some(10)).is_none());
}

#[test]
fn validate_for_type_only_min_accepts() {
    assert!(validate_for_type("f", &FieldType::String, Some(3), None).is_none());
}

#[test]
fn validate_for_type_only_max_accepts() {
    assert!(validate_for_type("f", &FieldType::String, None, Some(64)).is_none());
}

#[test]
fn length_validate_for_type_integer_rejects() {
    let err = validate_for_type("f", &FieldType::Integer, Some(0), Some(10)).unwrap();
    assert!(err.contains("Integer"));
    assert!(err.contains("does not apply"));
}

#[test]
fn length_validate_for_type_float_rejects() {
    let err = validate_for_type("f", &FieldType::Float, Some(0), Some(10)).unwrap();
    assert!(err.contains("Float"));
}

#[test]
fn length_validate_for_type_boolean_rejects() {
    let err = validate_for_type("f", &FieldType::Boolean, Some(0), Some(10)).unwrap();
    assert!(err.contains("Boolean"));
}

#[test]
fn length_validate_for_type_array_integer_rejects() {
    let ft = FieldType::Array(Box::new(FieldType::Integer));
    let err = validate_for_type("f", &ft, Some(0), Some(10)).unwrap();
    assert!(err.contains("does not apply"));
}

#[test]
fn validate_for_type_neither_bound_rejects() {
    let err = validate_for_type("f", &FieldType::String, None, None).unwrap();
    assert!(err.contains("must have"));
}

#[test]
fn validate_for_type_min_greater_than_max_rejects() {
    let err = validate_for_type("f", &FieldType::String, Some(10), Some(5)).unwrap();
    assert!(err.contains("greater than"));
}

#[test]
fn validate_for_type_min_equal_max_accepts() {
    assert!(validate_for_type("f", &FieldType::String, Some(5), Some(5)).is_none());
}
