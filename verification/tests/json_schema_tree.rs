//! Scenarios of the translation between `mdvs.toml` and canonical JSON
//! Schema, and of the subset check.

use mdvs::json::{JsonNumber, JsonValue};
use mdvs::preprocess::ValueStage;
use mdvs::schema::config::{FieldsConfig, MdvsToml, TomlField, UpdateConfig};
use mdvs::schema::constraints::Constraints;
use mdvs::schema::json_schema::from_canonical::{canonical_to_dsl, CanonicalImport};
use mdvs::schema::json_schema::to_canonical::{dsl_to_canonical, JSON_SCHEMA_DRAFT};
use mdvs::schema::json_schema::validate::validate_mdvs_schema;
use mdvs::schema::shared::{FieldTypeSerde, ScanConfig};
use mdvs::schema::toml_value::{TomlFloat, TomlValue};
use serde_json::Value;

fn tf(x: f64) -> TomlFloat {
    TomlFloat {
        bits: x.to_bits(),
        text: toml::Value::Float(x).to_string(),
        display: format!("{x}"),
        json: serde_json::to_string(&x).unwrap(),
    }
}

fn sv(v: &JsonValue) -> Value {
    match v {
        JsonValue::Null => Value::Null,
        JsonValue::Bool(b) => Value::Bool(*b),
        JsonValue::Number(JsonNumber::Int(i)) => Value::from(*i),
        JsonValue::Number(JsonNumber::BigUint(u, _)) => Value::from(*u),
        JsonValue::Number(JsonNumber::Float(f)) => Value::from(f64::from_bits(f.bits)),
        JsonValue::String(s) => Value::String(s.clone()),
        JsonValue::Array(items) => Value::Array(items.iter().map(sv).collect()),
        JsonValue::Object(members) => {
            Value::Object(members.iter().map(|(k, v)| (k.clone(), sv(v))).collect())
        }
    }
}

fn jv(v: &Value) -> JsonValue {
    match v {
        Value::Null => JsonValue::Null,
        Value::Bool(b) => JsonValue::Bool(*b),
        Value::Number(n) => {
            if let Some(i) = n.as_i64() {
                JsonValue::Number(JsonNumber::Int(i))
            } else if let Some(u) = n.as_u64() {
                JsonValue::Number(JsonNumber::BigUint(u, Some(tf(u as f64))))
            } else {
                JsonValue::Number(JsonNumber::Float(tf(n.as_f64().unwrap())))
            }
        }
        Value::String(s) => JsonValue::String(s.clone()),
        Value::Array(items) => JsonValue::Array(items.iter().map(jv).collect()),
        Value::Object(members) => {
            JsonValue::Object(members.iter().map(|(k, v)| (k.clone(), jv(v))).collect())
        }
    }
}

fn js(text: &str) -> Value {
    serde_json::from_str(text).unwrap()
}

fn check_subset(v: &Value) -> Result<(), String> {
    validate_mdvs_schema(&jv(v))
}

fn import(v: &Value) -> Result<CanonicalImport, String> {
    canonical_to_dsl(&jv(v))
}

fn sorted_pairs(mut v: Vec<(String, FieldTypeSerde)>) -> Vec<(String, FieldTypeSerde)> {
    v.sort_by(|a, b| a.0.cmp(&b.0));
    v
}

fn clone_fts(t: &FieldTypeSerde) -> FieldTypeSerde {
    match t {
        FieldTypeSerde::Scalar(s) => FieldTypeSerde::Scalar(s.clone()),
        FieldTypeSerde::Array { array } => FieldTypeSerde::Array { array: Box::new(clone_fts(array)) },
        FieldTypeSerde::Object { object } => FieldTypeSerde::Object {
            object: object.iter().map(|(k, v)| (k.clone(), clone_fts(v))).collect(),
        },
    }
}

fn clone_tf(f: &TomlFloat) -> TomlFloat {
    TomlFloat { bits: f.bits, text: f.text.clone(), display: f.display.clone(), json: f.json.clone() }
}

fn clone_tv(v: &TomlValue) -> TomlValue {
    match v {
        TomlValue::String(s) => TomlValue::String(s.clone()),
        TomlValue::Integer(i) => TomlValue::Integer(*i),
        TomlValue::Float(f) => TomlValue::Float(clone_tf(f)),
        TomlValue::Boolean(b) => TomlValue::Boolean(*b),
        TomlValue::Datetime(s) => TomlValue::Datetime(s.clone()),
        TomlValue::Array(items) => TomlValue::Array(items.iter().map(clone_tv).collect()),
        TomlValue::Table(items) => {
            TomlValue::Table(items.iter().map(|(k, v)| (k.clone(), clone_tv(v))).collect())
        }
    }
}

fn clone_constraints(c: &Constraints) -> Constraints {
    Constraints {
        categories: c.categories.as_ref().map(|v| v.iter().map(clone_tv).collect()),
        min: c.min.as_ref().map(clone_tv),
        max: c.max.as_ref().map(clone_tv),
        min_length: c.min_length,
        max_length: c.max_length,
        pattern: c.pattern.clone(),
    }
}

fn clone_field(f: &TomlField) -> TomlField {
    TomlField {
        name: f.name.clone(),
        field_type: clone_fts(&f.field_type),
        allowed: f.allowed.clone(),
        required: f.required.clone(),
        nullable: f.nullable,
        constraints: f.constraints.as_ref().map(clone_constraints),
        preprocess: f.preprocess.clone(),
    }
}

fn clone_fields(v: &Vec<TomlField>) -> Vec<TomlField> {
    v.iter().map(clone_field).collect()
}

fn empty_toml() -> MdvsToml {
    MdvsToml {
        scan: ScanConfig {
            glob: "**".into(),
            include_bare_files: false,
            skip_gitignore: false,
        },
        update: UpdateConfig::default(),
        check: None,
        fields: FieldsConfig {
            ignore: vec![],
            field: vec![],
            max_categories: 10,
            min_category_repetition: 3,
        },
        embedding_model: None,
        chunking: None,
        build: None,
        search: None,
    }
}

fn with_fields(fields: Vec<TomlField>) -> MdvsToml {
    let mut t = empty_toml();
    t.fields.field = fields;
    t
}

fn field(name: &str, ft: FieldTypeSerde) -> TomlField {
    TomlField {
        name: name.into(),
        field_type: ft,
        allowed: vec!["**".into()],
        required: vec![],
        nullable: false,
        constraints: None,
        preprocess: vec![],
    }
}

// ------------------------------------------------------------------------
// Group A — dsl_to_canonical happy path
// ------------------------------------------------------------------------

#[test]
fn mod_empty_config_produces_empty_object_schema() {
    let out = sv(&dsl_to_canonical(&empty_toml()));
    assert_eq!(out["$schema"], JSON_SCHEMA_DRAFT);
    assert_eq!(out["type"], "object");
    assert_eq!(out["additionalProperties"], true);
    assert_eq!(out["properties"], js(r##"{}"##));
}

#[test]
fn mod_string_field_simple_strict() {
    // String fields emit strict `{"type": "string"}` — coercion is the
    // preprocessor's job, not the schema's.
    let toml = with_fields(vec![field(
        "title",
        FieldTypeSerde::Scalar("String".into()),
    )]);
    let out = sv(&dsl_to_canonical(&toml));
    assert_eq!(out["properties"]["title"], js(r##"{"type": "string"}"##));
}

#[test]
fn mod_integer_field_simple() {
    let toml = with_fields(vec![field(
        "count",
        FieldTypeSerde::Scalar("Integer".into()),
    )]);
    let out = sv(&dsl_to_canonical(&toml));
    assert_eq!(out["properties"]["count"], js(r##"{"type": "integer"}"##));
}

#[test]
fn mod_float_field_simple() {
    let toml = with_fields(vec![field("score", FieldTypeSerde::Scalar("Float".into()))]);
    let out = sv(&dsl_to_canonical(&toml));
    assert_eq!(out["properties"]["score"], js(r##"{"type": "number"}"##));
}

#[test]
fn mod_boolean_field_simple() {
    let toml = with_fields(vec![field(
        "draft",
        FieldTypeSerde::Scalar("Boolean".into()),
    )]);
    let out = sv(&dsl_to_canonical(&toml));
    assert_eq!(out["properties"]["draft"], js(r##"{"type": "boolean"}"##));
}

#[test]
fn mod_canonical_to_dsl_recognises_format_date() {
    // Build a canonical schema by hand, run canonical_to_dsl, expect Date.
    let schema = js(r##"{
        "$schema": "https://json-schema.org/draft/2020-12/schema",
        "type": "object",
        "additionalProperties": true,
        "properties": {
            "birthday": {"type": "string", "format": "date"}
        }
    }"##);
    let imported = import(&schema).unwrap();
    let fields = &imported.fields;
    assert_eq!(fields.len(), 1);
    assert_eq!(fields[0].name, "birthday");
    assert_eq!(fields[0].field_type, FieldTypeSerde::Scalar("Date".into()));
}

#[test]
fn nullable_datetime_emits_union_with_format() {
    let mut f = field("synced_at", FieldTypeSerde::Scalar("DateTime".into()));
    f.nullable = true;
    let toml = with_fields(vec![f]);
    let out = sv(&dsl_to_canonical(&toml));
    assert_eq!(
        out["properties"]["synced_at"],
        js(r##"{"type": ["string", "null"], "format": "date-time"}"##)
    );
}

#[test]
fn canonical_to_dsl_recognises_format_date_time() {
    let schema = js(r##"{
        "$schema": "https://json-schema.org/draft/2020-12/schema",
        "type": "object",
        "additionalProperties": true,
        "properties": {
            "synced_at": {"type": "string", "format": "date-time"}
        }
    }"##);
    let imported = import(&schema).unwrap();
    let fields = &imported.fields;
    assert_eq!(fields.len(), 1);
    assert_eq!(fields[0].name, "synced_at");
    assert_eq!(
        fields[0].field_type,
        FieldTypeSerde::Scalar("DateTime".into())
    );
}

#[test]
fn mod_nullable_string_field_emits_union_type() {
    // String + nullable=true: standard `["string", "null"]` union.
    let mut f = field("title", FieldTypeSerde::Scalar("String".into()));
    f.nullable = true;
    let out = sv(&dsl_to_canonical(&with_fields(vec![f])));
    assert_eq!(
        out["properties"]["title"],
        js(r##"{"type": ["string", "null"]}"##)
    );
}

#[test]
fn mod_nullable_integer_field_emits_union_type() {
    // Non-String types follow the standard union-with-null pattern.
    let mut f = field("count", FieldTypeSerde::Scalar("Integer".into()));
    f.nullable = true;
    let out = sv(&dsl_to_canonical(&with_fields(vec![f])));
    assert_eq!(
        out["properties"]["count"],
        js(r##"{"type": ["integer", "null"]}"##)
    );
}

#[test]
fn mod_array_of_strings_field_strict() {
    let toml = with_fields(vec![field(
        "tags",
        FieldTypeSerde::Array {
            array: Box::new(FieldTypeSerde::Scalar("String".into())),
        },
    )]);
    let out = sv(&dsl_to_canonical(&toml));
    assert_eq!(
        out["properties"]["tags"],
        js(r##"{"type": "array", "items": {"type": "string"}}"##)
    );
}

#[test]
fn mod_array_of_object_emits_items_properties() {
    // After TODO-0097 step 3, Object as a top-level type is rejected by
    // MdvsToml::validate invariant 6 (top-level structure is expressed
    // via dotted-name leaves). Object survives only as an Array inner
    // type — and now the translator emits proper `items.properties`
    // children rather than the pre-Wave-C `additionalProperties: true`
    // placeholder.
    let toml = with_fields(vec![field(
        "readings",
        FieldTypeSerde::Array {
            array: Box::new(FieldTypeSerde::Object {
                object: sorted_pairs(vec![
                    ("author".into(), FieldTypeSerde::Scalar("String".into())),
                    ("version".into(), FieldTypeSerde::Scalar("Integer".into())),
                ]),
            }),
        },
    )]);
    let out = sv(&dsl_to_canonical(&toml));
    assert_eq!(
        out["properties"]["readings"],
        js(r##"{
            "type": "array",
            "items": {
                "type": "object",
                "additionalProperties": true,
                "properties": {
                    "author": {"type": "string"},
                    "version": {"type": "integer"}
                }
            }
        }"##)
    );
}

#[test]
fn mod_categories_constraint_emits_enum() {
    let mut f = field("status", FieldTypeSerde::Scalar("String".into()));
    f.constraints = Some(Constraints {
        categories: Some(vec![
            TomlValue::String("draft".into()),
            TomlValue::String("published".into()),
        ]),
        ..Default::default()
    });
    let out = sv(&dsl_to_canonical(&with_fields(vec![f])));
    assert_eq!(
        out["properties"]["status"],
        js(r##"{"type": "string", "enum": ["draft", "published"]}"##)
    );
}

#[test]
fn mod_nullable_categorical_appends_null_to_enum() {
    // nullable=true + categories appends null to enum so null passes the
    // categorical check (matches the existing semantic).
    let mut f = field("status", FieldTypeSerde::Scalar("String".into()));
    f.nullable = true;
    f.constraints = Some(Constraints {
        categories: Some(vec![
            TomlValue::String("draft".into()),
            TomlValue::String("published".into()),
        ]),
        ..Default::default()
    });
    let out = sv(&dsl_to_canonical(&with_fields(vec![f])));
    assert_eq!(
        out["properties"]["status"],
        js(r##"{"type": ["string", "null"], "enum": ["draft", "published", null]}"##)
    );
}

#[test]
fn mod_range_constraint_emits_minimum_maximum() {
    let mut f = field("rating", FieldTypeSerde::Scalar("Integer".into()));
    f.constraints = Some(Constraints {
        min: Some(TomlValue::Integer(0)),
        max: Some(TomlValue::Integer(5)),
        ..Default::default()
    });
    let out = sv(&dsl_to_canonical(&with_fields(vec![f])));
    assert_eq!(
        out["properties"]["rating"],
        js(r##"{"type": "integer", "minimum": 0, "maximum": 5}"##)
    );
}

#[test]
fn mod_length_constraint_emits_min_max_length() {
    let mut f = field("title", FieldTypeSerde::Scalar("String".into()));
    f.constraints = Some(Constraints {
        min_length: Some(3),
        max_length: Some(64),
        ..Default::default()
    });
    let out = sv(&dsl_to_canonical(&with_fields(vec![f])));
    assert_eq!(
        out["properties"]["title"],
        js(r##"{"type": "string", "minLength": 3, "maxLength": 64}"##)
    );
}

#[test]
fn mod_pattern_constraint_emits_pattern_keyword() {
    let mut f = field("slug", FieldTypeSerde::Scalar("String".into()));
    f.constraints = Some(Constraints {
        pattern: Some("^[a-z0-9-]+$".into()),
        ..Default::default()
    });
    let out = sv(&dsl_to_canonical(&with_fields(vec![f])));
    assert_eq!(
        out["properties"]["slug"],
        js(r##"{"type": "string", "pattern": "^[a-z0-9-]+$"}"##)
    );
}

#[test]
fn mod_length_and_pattern_combined() {
    let mut f = field("token", FieldTypeSerde::Scalar("String".into()));
    f.constraints = Some(Constraints {
        min_length: Some(8),
        max_length: Some(8),
        pattern: Some("^[A-Z]{8}$".into()),
        ..Default::default()
    });
    let out = sv(&dsl_to_canonical(&with_fields(vec![f])));
    assert_eq!(
        out["properties"]["token"],
        js(r##"{
            "type": "string",
            "minLength": 8,
            "maxLength": 8,
            "pattern": "^[A-Z]{8}$"
        }"##)
    );
}

#[test]
fn mod_array_string_length_applies_to_items() {
    let mut f = field(
        "tags",
        FieldTypeSerde::Array {
            array: Box::new(FieldTypeSerde::Scalar("String".into())),
        },
    );
    f.constraints = Some(Constraints {
        min_length: Some(2),
        max_length: Some(20),
        ..Default::default()
    });
    let out = sv(&dsl_to_canonical(&with_fields(vec![f])));
    assert_eq!(
        out["properties"]["tags"],
        js(r##"{
            "type": "array",
            "items": {"type": "string", "minLength": 2, "maxLength": 20}
        }"##)
    );
}

#[test]
fn mod_array_constraint_applies_to_items() {
    let mut f = field(
        "scores",
        FieldTypeSerde::Array {
            array: Box::new(FieldTypeSerde::Scalar("Integer".into())),
        },
    );
    f.constraints = Some(Constraints {
        min: Some(TomlValue::Integer(0)),
        max: Some(TomlValue::Integer(100)),
        ..Default::default()
    });
    let out = sv(&dsl_to_canonical(&with_fields(vec![f])));
    assert_eq!(
        out["properties"]["scores"],
        js(r##"{
            "type": "array",
            "items": {"type": "integer", "minimum": 0, "maximum": 100}
        }"##)
    );
}

#[test]
fn mod_path_scoping_emitted_as_x_mdvs() {
    let mut f = field("title", FieldTypeSerde::Scalar("String".into()));
    f.allowed = vec!["blog/**".into(), "notes/**".into()];
    f.required = vec!["blog/**".into()];
    let out = sv(&dsl_to_canonical(&with_fields(vec![f])));
    assert_eq!(
        out["properties"]["title"],
        js(r##"{
            "type": "string",
            "x-mdvs": {
                "allowed": ["blog/**", "notes/**"],
                "required": ["blog/**"]
            }
        }"##)
    );
}

#[test]
fn mod_default_allowed_omits_x_mdvs_block() {
    // allowed = ["**"] (default) and no required → no x-mdvs at all.
    let out = sv(&dsl_to_canonical(&with_fields(vec![field(
        "title",
        FieldTypeSerde::Scalar("String".into()),
    )])));
    assert!(out["properties"]["title"].get("x-mdvs").is_none());
}

#[test]
fn mod_ignore_list_produces_empty_subschemas() {
    let mut t = empty_toml();
    t.fields.ignore = vec!["internal_id".into(), "draft_meta".into()];
    let out = sv(&dsl_to_canonical(&t));
    assert_eq!(out["properties"]["internal_id"], js(r##"{}"##));
    assert_eq!(out["properties"]["draft_meta"], js(r##"{}"##));
}

#[test]
fn mod_no_root_required_array_emitted() {
    let mut f = field("title", FieldTypeSerde::Scalar("String".into()));
    f.required = vec!["**".into()];
    let out = sv(&dsl_to_canonical(&with_fields(vec![f])));
    assert!(out.get("required").is_none());
}

// ------------------------------------------------------------------------
// Group B — dsl_to_canonical output passes the subset check
// ------------------------------------------------------------------------

#[test]
fn mod_gate_accepts_empty_schema() {
    let out = sv(&dsl_to_canonical(&empty_toml()));
    assert!(check_subset(&out).is_ok());
}

#[test]
fn mod_gate_accepts_full_schema() {
    let mut f1 = field("title", FieldTypeSerde::Scalar("String".into()));
    f1.required = vec!["**".into()];
    let mut f2 = field("status", FieldTypeSerde::Scalar("String".into()));
    f2.constraints = Some(Constraints {
        categories: Some(vec![TomlValue::String("draft".into())]),
        ..Default::default()
    });
    let f3 = field(
        "tags",
        FieldTypeSerde::Array {
            array: Box::new(FieldTypeSerde::Scalar("String".into())),
        },
    );
    let f4 = field(
        "meta",
        FieldTypeSerde::Object {
            object: sorted_pairs(vec![(
                "author".into(),
                FieldTypeSerde::Scalar("String".into()),
            )]),
        },
    );
    let out = sv(&dsl_to_canonical(&with_fields(vec![f1, f2, f3, f4])));
    assert!(check_subset(&out).is_ok(), "produced: {out}");
}

// ------------------------------------------------------------------------
// Group C — subset check rejects denied keywords and structures
// ------------------------------------------------------------------------

fn assert_rejects(schema: Value, expected_substr: &str) {
    let err =
        check_subset(&schema).expect_err(&format!("expected rejection for: {schema}"));
    assert!(
        err.contains(expected_substr),
        "expected error containing {expected_substr:?}, got: {err}"
    );
}

#[test]
fn mod_gate_rejects_one_of() {
    assert_rejects(
        js(r##"{"oneOf": [{"type": "string"}, {"type": "integer"}]}"##),
        "'oneOf' is not supported",
    );
}

#[test]
fn mod_gate_rejects_any_of() {
    assert_rejects(js(r##"{"anyOf": []}"##), "'anyOf' is not supported");
}

#[test]
fn mod_gate_rejects_all_of() {
    assert_rejects(js(r##"{"allOf": []}"##), "'allOf' is not supported");
}

#[test]
fn mod_gate_rejects_not() {
    assert_rejects(js(r##"{"not": {}}"##), "'not' is not supported");
}

#[test]
fn mod_gate_rejects_if_then_else() {
    assert_rejects(js(r##"{"if": {}, "then": {}}"##), "'if' is not supported");
}

#[test]
fn mod_gate_rejects_ref() {
    assert_rejects(js(r##"{"$ref": "#/foo"}"##), "'$ref' is not supported");
}

#[test]
fn mod_gate_rejects_defs() {
    assert_rejects(js(r##"{"$defs": {}}"##), "'$defs' is not supported");
}

#[test]
fn mod_gate_rejects_pattern_properties() {
    assert_rejects(
        js(r##"{"patternProperties": {"^x": {}}}"##),
        "'patternProperties' is not supported",
    );
}

#[test]
fn mod_gate_rejects_prefix_items() {
    assert_rejects(js(r##"{"prefixItems": []}"##), "'prefixItems' is not supported");
}

#[test]
fn mod_gate_rejects_unsupported_format() {
    assert_rejects(
        js(r##"{"format": "email"}"##),
        "format 'email' is not supported",
    );
}

#[test]
fn gate_accepts_date_time_format() {
    assert!(check_subset(&js(r##"{"format": "date-time"}"##)).is_ok());
}

#[test]
fn mod_gate_rejects_non_string_format() {
    assert_rejects(js(r##"{"format": 42}"##), "'format' must be a string");
}

#[test]
fn mod_gate_accepts_format_date() {
    assert!(check_subset(&js(r##"{"format": "date"}"##)).is_ok());
}

#[test]
fn mod_gate_rejects_unknown_root_keyword() {
    assert_rejects(
        js(r##"{"madeUpKeyword": true}"##),
        "unknown keyword 'madeUpKeyword'",
    );
}

#[test]
fn mod_gate_accepts_x_mdvs_at_any_property_depth() {
    // After TODO-0097 step 3, dotted-name leaves can live at any depth.
    // The subset check accepts property-level x-mdvs everywhere; only the root
    // location is restricted to schema-level subkeys.
    assert!(
        check_subset(&js(r##"{
            "type": "object",
            "additionalProperties": true,
            "properties": {
                "cal": {
                    "type": "object",
                    "additionalProperties": true,
                    "properties": {
                        "wavelength": {
                            "type": "number",
                            "x-mdvs": {"allowed": ["**"]}
                        }
                    }
                }
            }
        }"##))
        .is_ok()
    );

    // Same allowance applies inside `items` (Array element schemas
    // are now valid property locations).
    assert!(
        check_subset(&js(r##"{
            "type": "object",
            "additionalProperties": true,
            "properties": {
                "tags": {
                    "type": "array",
                    "items": {
                        "type": "string",
                        "x-mdvs": {"allowed": ["**"]}
                    }
                }
            }
        }"##))
        .is_ok()
    );
}

#[test]
fn mod_gate_rejects_unknown_x_mdvs_subkey() {
    assert_rejects(
        js(r##"{
            "type": "object",
            "properties": {
                "title": {
                    "type": "string",
                    "x-mdvs": {"thirdEye": true}
                }
            }
        }"##),
        "unknown 'x-mdvs.thirdEye'",
    );
}

#[test]
fn mod_gate_rejects_property_subkey_at_root() {
    // 'allowed' is a property-level x-mdvs sub-key, not schema-level.
    assert_rejects(
        js(r##"{
            "type": "object",
            "x-mdvs": {"allowed": ["**"]}
        }"##),
        "unknown 'x-mdvs.allowed'",
    );
}

#[test]
fn mod_gate_accepts_schema_level_x_mdvs() {
    // 'preprocess' and 'definitions' are valid at root.
    let schema = js(r##"{
        "type": "object",
        "x-mdvs": {"preprocess": [], "definitions": {}}
    }"##);
    assert!(check_subset(&schema).is_ok());
}

#[test]
fn mod_gate_accepts_metadata_keywords() {
    let schema = js(r##"{
        "$schema": "https://json-schema.org/draft/2020-12/schema",
        "$id": "https://example.com/foo",
        "title": "Foo",
        "description": "A foo schema",
        "type": "object"
    }"##);
    assert!(check_subset(&schema).is_ok());
}

// ------------------------------------------------------------------------
// canonical_to_dsl — reverse translator (TODO-0149 step 10)
// ------------------------------------------------------------------------

fn roundtrip(toml: MdvsToml) {
    let canonical = sv(&dsl_to_canonical(&toml));
    let import = import(&canonical).expect("reverse translation");
    // serde_json::Map preserves insertion order on round-trip but
    // dsl_to_canonical merges fields + ignore into a single `properties`
    // map; reading it back loses the original ordering distinction.
    // Compare as sorted sets.
    let mut got_fields = import.fields;
    got_fields.sort_by(|a, b| a.name.cmp(&b.name));
    let mut exp_fields = clone_fields(&toml.fields.field);
    exp_fields.sort_by(|a, b| a.name.cmp(&b.name));
    assert_eq!(got_fields, exp_fields, "fields mismatch");
    let mut got_ignore = import.ignore;
    got_ignore.sort();
    let mut exp_ignore = toml.fields.ignore.clone();
    exp_ignore.sort();
    assert_eq!(got_ignore, exp_ignore, "ignore mismatch");
}

#[test]
fn mod_roundtrip_string_field() {
    roundtrip(with_fields(vec![field(
        "title",
        FieldTypeSerde::Scalar("String".into()),
    )]));
}

#[test]
fn mod_roundtrip_integer_field() {
    roundtrip(with_fields(vec![field(
        "count",
        FieldTypeSerde::Scalar("Integer".into()),
    )]));
}

#[test]
fn mod_roundtrip_float_field() {
    roundtrip(with_fields(vec![field(
        "score",
        FieldTypeSerde::Scalar("Float".into()),
    )]));
}

#[test]
fn mod_roundtrip_boolean_field() {
    roundtrip(with_fields(vec![field(
        "draft",
        FieldTypeSerde::Scalar("Boolean".into()),
    )]));
}

#[test]
fn mod_roundtrip_nullable_string() {
    let mut f = field("note", FieldTypeSerde::Scalar("String".into()));
    f.nullable = true;
    roundtrip(with_fields(vec![f]));
}

#[test]
fn mod_roundtrip_nullable_integer() {
    let mut f = field("count", FieldTypeSerde::Scalar("Integer".into()));
    f.nullable = true;
    roundtrip(with_fields(vec![f]));
}

#[test]
fn mod_roundtrip_array_of_strings() {
    roundtrip(with_fields(vec![field(
        "tags",
        FieldTypeSerde::Array {
            array: Box::new(FieldTypeSerde::Scalar("String".into())),
        },
    )]));
}

#[test]
fn mod_roundtrip_categories_constraint() {
    let mut f = field("status", FieldTypeSerde::Scalar("String".into()));
    f.constraints = Some(Constraints {
        categories: Some(vec![
            TomlValue::String("draft".into()),
            TomlValue::String("published".into()),
        ]),
        ..Default::default()
    });
    roundtrip(with_fields(vec![f]));
}

#[test]
fn mod_roundtrip_nullable_plus_enum_strips_appended_null() {
    // dsl_to_canonical appends null to the enum when nullable=true;
    // canonical_to_dsl must strip it back.
    let mut f = field("status", FieldTypeSerde::Scalar("String".into()));
    f.nullable = true;
    f.constraints = Some(Constraints {
        categories: Some(vec![
            TomlValue::String("draft".into()),
            TomlValue::String("published".into()),
        ]),
        ..Default::default()
    });
    roundtrip(with_fields(vec![f]));
}

#[test]
fn mod_roundtrip_range_constraint() {
    let mut f = field("rating", FieldTypeSerde::Scalar("Integer".into()));
    f.constraints = Some(Constraints {
        min: Some(TomlValue::Integer(0)),
        max: Some(TomlValue::Integer(5)),
        ..Default::default()
    });
    roundtrip(with_fields(vec![f]));
}

#[test]
fn mod_roundtrip_length_and_pattern() {
    let mut f = field("slug", FieldTypeSerde::Scalar("String".into()));
    f.constraints = Some(Constraints {
        min_length: Some(3),
        max_length: Some(64),
        pattern: Some("^[a-z0-9-]+$".into()),
        ..Default::default()
    });
    roundtrip(with_fields(vec![f]));
}

#[test]
fn mod_roundtrip_preserves_preprocess() {
    let mut f = field("funding", FieldTypeSerde::Scalar("String".into()));
    f.preprocess = vec![ValueStage::CoerceToString];
    roundtrip(with_fields(vec![f]));
}

#[test]
fn mod_roundtrip_path_scoping() {
    let mut f = field("title", FieldTypeSerde::Scalar("String".into()));
    f.allowed = vec!["blog/**".into(), "notes/**".into()];
    f.required = vec!["blog/**".into()];
    roundtrip(with_fields(vec![f]));
}

#[test]
fn mod_roundtrip_ignore_list() {
    let mut t = empty_toml();
    t.fields.ignore = vec!["internal_id".into(), "draft_meta".into()];
    roundtrip(t);
}

#[test]
fn mod_canonical_to_dsl_rejects_missing_type() {
    let schema = js(r##"{
        "type": "object",
        "properties": {
            "title": {"enum": ["a", "b"]}
        },
        "additionalProperties": true
    }"##);
    let err = import(&schema).unwrap_err();
    assert!(err.contains("missing 'type'"), "got: {err}");
}

#[test]
fn mod_canonical_to_dsl_rejects_invalid_type() {
    let schema = js(r##"{
        "type": "object",
        "properties": {
            "x": {"type": "integer"},
            "y": {"type": "foobar"}
        },
        "additionalProperties": true
    }"##);
    let err = import(&schema).unwrap_err();
    assert!(err.contains("unsupported type"), "got: {err}");
}

#[test]
fn mod_canonical_to_dsl_rejects_null_in_non_nullable_enum() {
    let schema = js(r##"{
        "type": "object",
        "properties": {
            "status": {"type": "string", "enum": ["draft", null]}
        },
        "additionalProperties": true
    }"##);
    let err = import(&schema).unwrap_err();
    assert!(err.contains("not nullable"), "got: {err}");
}

// ========================================================================
// TODO-0097 step 3: dotted-name flattening
// ========================================================================

#[test]
fn mod_dsl_to_canonical_single_dotted_creates_intermediate() {
    let toml = with_fields(vec![field(
        "calibration.baseline.wavelength",
        FieldTypeSerde::Scalar("Float".into()),
    )]);
    let out = sv(&dsl_to_canonical(&toml));
    // Outer intermediate
    assert_eq!(out["properties"]["calibration"]["type"], "object");
    assert_eq!(
        out["properties"]["calibration"]["additionalProperties"],
        true
    );
    assert!(out["properties"]["calibration"].get("x-mdvs").is_none());
    // Inner intermediate
    assert_eq!(
        out["properties"]["calibration"]["properties"]["baseline"]["type"],
        "object"
    );
    // Leaf
    assert_eq!(
        out["properties"]["calibration"]["properties"]["baseline"]["properties"]["wavelength"]
            ["type"],
        "number"
    );
}

#[test]
fn mod_dsl_to_canonical_siblings_share_intermediate() {
    let toml = with_fields(vec![
        field("cal.x", FieldTypeSerde::Scalar("Float".into())),
        field("cal.y", FieldTypeSerde::Scalar("Float".into())),
    ]);
    let out = sv(&dsl_to_canonical(&toml));
    let cal_props = out["properties"]["cal"]["properties"].as_object().unwrap();
    assert!(cal_props.contains_key("x"));
    assert!(cal_props.contains_key("y"));
    assert_eq!(cal_props.len(), 2);
}

#[test]
fn mod_dsl_to_canonical_mixed_flat_and_dotted() {
    let toml = with_fields(vec![
        field("title", FieldTypeSerde::Scalar("String".into())),
        field("cal.wave", FieldTypeSerde::Scalar("Float".into())),
    ]);
    let out = sv(&dsl_to_canonical(&toml));
    assert_eq!(out["properties"]["title"]["type"], "string");
    assert_eq!(
        out["properties"]["cal"]["properties"]["wave"]["type"],
        "number"
    );
}

#[test]
fn mod_dsl_to_canonical_leaf_x_mdvs_lives_at_leaf_not_intermediate() {
    let mut f = field("cal.baseline.wave", FieldTypeSerde::Scalar("Float".into()));
    f.allowed = vec!["projects/alpha/**".into()];
    f.required = vec!["projects/alpha/**".into()];
    let toml = with_fields(vec![f]);
    let out = sv(&dsl_to_canonical(&toml));

    // Intermediates have no x-mdvs
    assert!(out["properties"]["cal"].get("x-mdvs").is_none());
    assert!(
        out["properties"]["cal"]["properties"]["baseline"]
            .get("x-mdvs")
            .is_none()
    );

    // Leaf carries x-mdvs
    let leaf_x =
        &out["properties"]["cal"]["properties"]["baseline"]["properties"]["wave"]["x-mdvs"];
    assert_eq!(leaf_x["allowed"], js(r##"["projects/alpha/**"]"##));
    assert_eq!(leaf_x["required"], js(r##"["projects/alpha/**"]"##));
}

#[test]
fn mod_canonical_to_dsl_walks_nested_into_dotted_names() {
    let schema = js(r##"{
        "$schema": "https://json-schema.org/draft/2020-12/schema",
        "type": "object",
        "additionalProperties": true,
        "properties": {
            "title": {"type": "string"},
            "cal": {
                "type": "object",
                "additionalProperties": true,
                "properties": {
                    "baseline": {
                        "type": "object",
                        "additionalProperties": true,
                        "properties": {
                            "wavelength": {"type": "number"},
                            "intensity": {"type": "number"}
                        }
                    }
                }
            }
        }
    }"##);
    let imported = import(&schema).unwrap();
    let names: Vec<&str> = imported.fields.iter().map(|f| f.name.as_str()).collect();
    assert!(names.contains(&"title"));
    assert!(names.contains(&"cal.baseline.wavelength"));
    assert!(names.contains(&"cal.baseline.intensity"));
    // Intermediates do NOT become TomlFields.
    assert!(!names.contains(&"cal"));
    assert!(!names.contains(&"cal.baseline"));
}

#[test]
fn mod_roundtrip_dotted_leaf() {
    let f = field(
        "calibration.baseline.wavelength",
        FieldTypeSerde::Scalar("Float".into()),
    );
    roundtrip(with_fields(vec![f]));
}

#[test]
fn mod_roundtrip_dotted_with_x_mdvs() {
    let mut f = field("cal.wave", FieldTypeSerde::Scalar("Float".into()));
    f.allowed = vec!["projects/alpha/**".into()];
    f.required = vec!["projects/alpha/**".into()];
    f.preprocess = vec![ValueStage::WidenIntToFloat];
    roundtrip(with_fields(vec![f]));
}

#[test]
fn mod_roundtrip_mixed_flat_and_dotted() {
    let toml = with_fields(vec![
        field("title", FieldTypeSerde::Scalar("String".into())),
        field("cal.x", FieldTypeSerde::Scalar("Float".into())),
        field("cal.y", FieldTypeSerde::Scalar("Float".into())),
        field("meta.author", FieldTypeSerde::Scalar("String".into())),
    ]);
    roundtrip(toml);
}

#[test]
fn mod_roundtrip_array_of_object_inner_shape_preserved() {
    let toml = with_fields(vec![field(
        "readings",
        FieldTypeSerde::Array {
            array: Box::new(FieldTypeSerde::Object {
                object: sorted_pairs(vec![
                    ("time".into(), FieldTypeSerde::Scalar("String".into())),
                    ("value".into(), FieldTypeSerde::Scalar("Float".into())),
                ]),
            }),
        },
    )]);
    roundtrip(toml);
}

#[test]
fn mod_canonical_to_dsl_rejects_empty_schema_at_nested_depth() {
    // An empty schema is only valid at the top level (signals an
    // ignored name). Nested empty schemas indicate a malformed input.
    let schema = js(r##"{
        "type": "object",
        "additionalProperties": true,
        "properties": {
            "cal": {
                "type": "object",
                "additionalProperties": true,
                "properties": {
                    "broken": {}
                }
            }
        }
    }"##);
    let err = import(&schema).unwrap_err();
    assert!(
        err.contains("empty schema is not allowed at nested depth"),
        "got: {err}"
    );
}

#[test]
fn mod_dsl_to_canonical_emits_preprocess_in_x_mdvs() {
    let mut f = field("score", FieldTypeSerde::Scalar("Float".into()));
    f.preprocess = vec![ValueStage::WidenIntToFloat];
    let out = sv(&dsl_to_canonical(&with_fields(vec![f])));
    assert_eq!(
        out["properties"]["score"]["x-mdvs"]["preprocess"],
        js(r#"["widen-int-to-float"]"#)
    );
}
