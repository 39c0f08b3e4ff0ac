//! Scenarios of choosing a schema file's reader by its extension.

use mdvs::schema::load::{schema_format, to_ascii_lower, SchemaFormat};

#[test]
fn schema_format_by_extension() {
    assert_eq!(schema_format("s.json", Some("json")), Ok(SchemaFormat::Json));
    assert_eq!(schema_format("s.toml", Some("toml")), Ok(SchemaFormat::Toml));
}

#[test]
fn schema_format_ignores_ascii_case() {
    assert_eq!(schema_format("schema.JSON", Some("JSON")), Ok(SchemaFormat::Json));
    assert_eq!(schema_format("schema.Toml", Some("Toml")), Ok(SchemaFormat::Toml));
}

#[test]
fn schema_format_rejects_yaml() {
    let err = schema_format("schema.yaml", Some("yaml")).unwrap_err();
    assert!(err.contains("unsupported schema format"), "got: {err}");
    assert!(err.contains(".yaml"), "got: {err}");
    assert_eq!(
        err,
        "unsupported schema format '.yaml' for 'schema.yaml' — only .json and .toml are supported"
    );
}

#[test]
fn schema_format_rejects_no_extension() {
    let err = schema_format("schema", None).unwrap_err();
    assert!(err.contains("no extension"), "got: {err}");
    assert_eq!(err, "schema file 'schema' has no extension — append .json or .toml");
}

#[test]
fn ascii_lower_keeps_non_ascii() {
    assert_eq!(to_ascii_lower("AbC-Ä"), "abc-Ä");
}
