use mdvs::field_type::FieldType;
use mdvs::schema::shared::FieldTypeSerde;

fn scalar(s: &str) -> FieldTypeSerde {
    FieldTypeSerde::Scalar(s.into())
}

fn array(inner: FieldTypeSerde) -> FieldTypeSerde {
    FieldTypeSerde::Array {
        array: Box::new(inner),
    }
}

#[test]
fn unknown_scalar_type_error() {
    let bad = scalar("Date");
    let result = FieldType::try_from(&bad);
    assert!(result.is_err());
    assert!(result.unwrap_err().contains("unknown type"));
}

#[test]
fn display_scalar() {
    assert_eq!(scalar("String").to_string(), "String");
}

#[test]
fn display_array() {
    assert_eq!(array(scalar("String")).to_string(), "Array(String)");
}

#[test]
fn display_nested_array() {
    assert_eq!(array(array(scalar("Integer"))).to_string(), "Array(Array(Integer))");
}

#[test]
fn display_object_for_diagnostics() {
    let ft = FieldTypeSerde::Object {
        object: vec![
            ("author".into(), scalar("String")),
            ("count".into(), scalar("Integer")),
        ],
    };
    assert_eq!(ft.to_string(), "Object{author: String, count: Integer}");
    assert!(FieldTypeSerde::parse(&ft.to_string()).is_err());
}

#[test]
fn display_array_of_object_for_diagnostics() {
    let ft = array(FieldTypeSerde::Object {
        object: vec![
            ("time".into(), scalar("String")),
            ("value".into(), scalar("Float")),
        ],
    });
    assert_eq!(ft.to_string(), "Array(Object{time: String, value: Float})");
    assert!(FieldTypeSerde::parse(&ft.to_string()).is_err());
}

#[test]
fn parse_scalar_all_four() {
    for name in &["String", "Integer", "Float", "Boolean"] {
        let ft = FieldTypeSerde::parse(name).unwrap();
        assert_eq!(ft, scalar(name));
    }
}

#[test]
fn parse_array_of_each_scalar() {
    for name in &["String", "Integer", "Float", "Boolean"] {
        let s = format!("Array({name})");
        let ft = FieldTypeSerde::parse(&s).unwrap();
        assert_eq!(ft, array(scalar(name)));
    }
}

#[test]
fn parse_whitespace_tolerant() {
    let ft = FieldTypeSerde::parse("  Array(  String  )  ").unwrap();
    assert_eq!(ft, array(scalar("String")));
}

#[test]
fn parse_rejects_array_of_object_points_at_object() {
    let err = FieldTypeSerde::parse("Array(Object{x: String})").unwrap_err();
    assert!(err.message.contains("Array(Object"));
    assert!(err.message.contains("TODO-0156"));
    assert_eq!(err.column, 7);
}

#[test]
fn parse_rejects_array_of_array() {
    let err = FieldTypeSerde::parse("Array(Array(String))").unwrap_err();
    assert!(err.message.contains("Array of Array"));
    assert_eq!(err.column, 7);
}

#[test]
fn parse_rejects_object_top_level() {
    let err = FieldTypeSerde::parse("Object{x: String}").unwrap_err();
    assert!(err.message.contains("Object types are not supported"));
    assert!(err.message.contains("dotted-name leaves"));
    assert_eq!(err.column, 1);
}

#[test]
fn parse_rejects_at_ref_mentions_todo_0156() {
    let err = FieldTypeSerde::parse("@SensorReading").unwrap_err();
    assert!(err.message.contains("@Name"));
    assert!(err.message.contains("TODO-0156"));
    assert_eq!(err.column, 1);
}

#[test]
fn parse_rejects_at_ref_inside_array() {
    let err = FieldTypeSerde::parse("Array(@SensorReading)").unwrap_err();
    assert!(err.message.contains("@Name"));
    assert!(err.message.contains("TODO-0156"));
    assert_eq!(err.column, 7);
}

#[test]
fn parse_rejects_unknown_scalar() {
    let err = FieldTypeSerde::parse("Date").unwrap_err();
    assert!(err.message.contains("unknown type `Date`"));
    assert_eq!(err.column, 1);
}

#[test]
fn parse_rejects_trailing_content() {
    let err = FieldTypeSerde::parse("String foo").unwrap_err();
    assert!(err.message.contains("unexpected content"));
}

#[test]
fn parse_rejects_missing_open_paren() {
    let err = FieldTypeSerde::parse("Array String").unwrap_err();
    assert!(err.message.contains("expected '('"));
}

#[test]
fn parse_rejects_missing_close_paren() {
    let err = FieldTypeSerde::parse("Array(String").unwrap_err();
    assert!(err.message.contains("expected ')'"));
}

#[test]
fn parse_rejects_empty_input() {
    let err = FieldTypeSerde::parse("").unwrap_err();
    assert!(err.message.contains("expected a type name"));
}

#[test]
fn parse_rejects_empty_array() {
    let err = FieldTypeSerde::parse("Array()").unwrap_err();
    assert!(err.message.contains("expected a type name"));
}

#[test]
fn roundtrip_parse_display() {
    let cases = vec![
        scalar("String"),
        scalar("Integer"),
        scalar("Float"),
        scalar("Boolean"),
        array(scalar("String")),
        array(scalar("Float")),
    ];
    for ft in cases {
        let s = ft.to_string();
        let parsed = FieldTypeSerde::parse(&s).expect(&s);
        assert_eq!(parsed, ft);
    }
}

#[test]
fn field_type_serde_conversions() {
    let ft = FieldType::Array(Box::new(FieldType::Integer));
    let serde = FieldTypeSerde::from(&ft);
    assert_eq!(serde, array(scalar("Integer")));
    assert!(matches!(FieldType::try_from(&serde), Ok(FieldType::Array(_))));
    assert_eq!(FieldTypeSerde::from(&FieldType::Date), scalar("Date"));
}
