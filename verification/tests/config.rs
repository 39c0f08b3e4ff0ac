//! Scenarios of the configuration checks.

use mdvs::preprocess::ValueStage;
use mdvs::schema::config::{
    field_key_rank, glob_is_covered,
    FieldsConfig, MdvsToml, SearchConfig, TomlField, UpdateConfig,
};
use mdvs::schema::constraints::Constraints;
use mdvs::schema::shared::{ChunkingConfig, EmbeddingModelConfig, FieldTypeSerde, ScanConfig};
use mdvs::schema::toml_value::{TomlFloat, TomlValue};

fn tf(x: f64) -> TomlFloat {
    TomlFloat {
        bits: x.to_bits(),
        text: toml::Value::Float(x).to_string(),
        display: format!("{x}"),
        json: serde_json::to_string(&x).unwrap(),
    }
}

fn sorted_pairs(mut v: Vec<(String, FieldTypeSerde)>) -> Vec<(String, FieldTypeSerde)> {
    v.sort_by(|a, b| a.0.cmp(&b.0));
    v
}

fn clone_fts(t: &FieldTypeSerde) -> FieldTypeSerde {
    match t {
        FieldTypeSerde::Scalar(s) => FieldTypeSerde::Scalar(s.clone()),
        FieldTypeSerde::Array { array } => FieldTypeSerde::Array { array: Box::new(clone_fts(array)) },
        FieldTypeSerde::Object { object } => FieldTypeSerde::Object {
            object: object.iter().map(|(k, v)| (k.clone(), clone_fts(v))).collect(),
        },
    }
}

fn clone_tf(f: &TomlFloat) -> TomlFloat {
    TomlFloat { bits: f.bits, text: f.text.clone(), display: f.display.clone(), json: f.json.clone() }
}

fn clone_tv(v: &TomlValue) -> TomlValue {
    match v {
        TomlValue::String(s) => TomlValue::String(s.clone()),
        TomlValue::Integer(i) => TomlValue::Integer(*i),
        TomlValue::Float(f) => TomlValue::Float(clone_tf(f)),
        TomlValue::Boolean(b) => TomlValue::Boolean(*b),
        TomlValue::Datetime(s) => TomlValue::Datetime(s.clone()),
        TomlValue::Array(items) => TomlValue::Array(items.iter().map(clone_tv).collect()),
        TomlValue::Table(items) => {
            TomlValue::Table(items.iter().map(|(k, v)| (k.clone(), clone_tv(v))).collect())
        }
    }
}

fn clone_constraints(c: &Constraints) -> Constraints {
    Constraints {
        categories: c.categories.as_ref().map(|v| v.iter().map(clone_tv).collect()),
        min: c.min.as_ref().map(clone_tv),
        max: c.max.as_ref().map(clone_tv),
        min_length: c.min_length,
        max_length: c.max_length,
        pattern: c.pattern.clone(),
    }
}

fn clone_field(f: &TomlField) -> TomlField {
    TomlField {
        name: f.name.clone(),
        field_type: clone_fts(&f.field_type),
        allowed: f.allowed.clone(),
        required: f.required.clone(),
        nullable: f.nullable,
        constraints: f.constraints.as_ref().map(clone_constraints),
        preprocess: f.preprocess.clone(),
    }
}

fn clone_fields(v: &Vec<TomlField>) -> Vec<TomlField> {
    v.iter().map(clone_field).collect()
}

fn default_update() -> UpdateConfig {
    UpdateConfig {}
}

/// Helper to build a full MdvsToml with all sections present.
fn full_toml(fields: Vec<TomlField>) -> MdvsToml {
    MdvsToml {
        scan: ScanConfig {
            glob: "**".into(),
            include_bare_files: false,
            skip_gitignore: false,
        },
        update: default_update(),
        check: None,
        fields: FieldsConfig {
            ignore: vec![],
            field: fields,
            max_categories: 10,
            min_category_repetition: 3,
        },
        embedding_model: Some(EmbeddingModelConfig {
            provider: "model2vec".into(),
            name: "minishlab/potion-base-8M".into(),
            revision: None,
            dim: None,
        }),
        chunking: Some(ChunkingConfig {
            max_chunk_size: 1024,
        }),
        build: None,
        search: Some(SearchConfig {
            default_limit: 10,
            auto_update: false,
            auto_build: false,
            internal_prefix: String::new(),
            aliases: vec![],
        }),
    }
}

// --- Invariant 1: ignore vs field mutual exclusion ---

#[test]
fn validate_ignore_and_field_conflict() {
    let mut config = full_toml(vec![TomlField {
        name: "tags".into(),
        field_type: FieldTypeSerde::Scalar("String".into()),
        allowed: vec!["**".into()],
        required: vec![],
        nullable: true,
        constraints: None,
        preprocess: vec![],
    }]);
    config.fields.ignore = vec!["tags".into()];
    let err = config.validate().unwrap_err();
    assert!(
        err.to_string()
            .contains("appears in both [fields].ignore and [[fields.field]]"),
        "unexpected error: {}",
        err
    );
}

#[test]
fn validate_ignore_no_conflict_passes() {
    let mut config = full_toml(vec![TomlField {
        name: "tags".into(),
        field_type: FieldTypeSerde::Scalar("String".into()),
        allowed: vec!["**".into()],
        required: vec![],
        nullable: true,
        constraints: None,
        preprocess: vec![],
    }]);
    config.fields.ignore = vec!["other_field".into()];
    assert!(config.validate().is_ok());
}

// --- Invariant 2: valid glob format ---

#[test]
fn validate_invalid_glob_format_bare_path() {
    let config = full_toml(vec![TomlField {
        name: "title".into(),
        field_type: FieldTypeSerde::Scalar("String".into()),
        allowed: vec!["blog".into()],
        required: vec![],
        nullable: false,
        constraints: None,
        preprocess: vec![],
    }]);
    let err = config.validate().unwrap_err();
    assert!(
        err.to_string().contains("invalid glob pattern 'blog'"),
        "unexpected error: {}",
        err
    );
}

#[test]
fn validate_invalid_glob_format_file_pattern() {
    let config = full_toml(vec![TomlField {
        name: "title".into(),
        field_type: FieldTypeSerde::Scalar("String".into()),
        allowed: vec!["**".into()],
        required: vec!["blog/post.md".into()],
        nullable: false,
        constraints: None,
        preprocess: vec![],
    }]);
    let err = config.validate().unwrap_err();
    assert!(
        err.to_string()
            .contains("invalid glob pattern 'blog/post.md'"),
        "unexpected error: {}",
        err
    );
}

#[test]
fn validate_valid_glob_formats() {
    let config = full_toml(vec![
        TomlField {
            name: "a".into(),
            field_type: FieldTypeSerde::Scalar("String".into()),
            allowed: vec!["**".into()],
            required: vec!["*".into()],
            nullable: false,
            constraints: None,
            preprocess: vec![],
        },
        TomlField {
            name: "b".into(),
            field_type: FieldTypeSerde::Scalar("String".into()),
            allowed: vec!["blog/**".into()],
            required: vec!["blog/**".into()],
            nullable: false,
            constraints: None,
            preprocess: vec![],
        },
        TomlField {
            name: "c".into(),
            field_type: FieldTypeSerde::Scalar("String".into()),
            allowed: vec!["people/*".into()],
            required: vec![],
            nullable: false,
            constraints: None,
            preprocess: vec![],
        },
    ]);
    assert!(config.validate().is_ok());
}

// --- Invariant 3: required ⊆ allowed ---

#[test]
fn validate_required_not_covered_by_allowed() {
    let config = full_toml(vec![TomlField {
        name: "title".into(),
        field_type: FieldTypeSerde::Scalar("String".into()),
        allowed: vec!["notes/**".into()],
        required: vec!["blog/**".into()],
        nullable: false,
        constraints: None,
        preprocess: vec![],
    }]);
    let err = config.validate().unwrap_err();
    assert!(
        err.to_string()
            .contains("required glob 'blog/**' is not covered by any allowed pattern"),
        "unexpected error: {}",
        err
    );
}

#[test]
fn validate_wildcard_allowed_covers_any_required() {
    let config = full_toml(vec![TomlField {
        name: "title".into(),
        field_type: FieldTypeSerde::Scalar("String".into()),
        allowed: vec!["**".into()],
        required: vec!["blog/**".into()],
        nullable: false,
        constraints: None,
        preprocess: vec![],
    }]);
    assert!(config.validate().is_ok());
}

#[test]
fn validate_parent_glob_covers_child_required() {
    let config = full_toml(vec![TomlField {
        name: "action_items".into(),
        field_type: FieldTypeSerde::Scalar("String".into()),
        allowed: vec!["meetings/**".into()],
        required: vec!["meetings/all-hands/**".into()],
        nullable: false,
        constraints: None,
        preprocess: vec![],
    }]);
    assert!(config.validate().is_ok());
}

#[test]
fn validate_exact_match_required_allowed() {
    let config = full_toml(vec![TomlField {
        name: "tags".into(),
        field_type: FieldTypeSerde::Scalar("String".into()),
        allowed: vec!["blog/**".into(), "notes/**".into()],
        required: vec!["blog/**".into()],
        nullable: false,
        constraints: None,
        preprocess: vec![],
    }]);
    assert!(config.validate().is_ok());
}

#[test]
fn validate_empty_required_passes() {
    let config = full_toml(vec![TomlField {
        name: "draft".into(),
        field_type: FieldTypeSerde::Scalar("Boolean".into()),
        allowed: vec!["**".into()],
        required: vec![],
        nullable: false,
        constraints: None,
        preprocess: vec![],
    }]);
    assert!(config.validate().is_ok());
}

#[test]
fn validate_valid_config_passes() {
    let config = full_toml(vec![TomlField {
        name: "tags".into(),
        field_type: FieldTypeSerde::Scalar("String".into()),
        allowed: vec!["blog/**".into(), "notes/**".into()],
        required: vec!["blog/**".into()],
        nullable: false,
        constraints: None,
        preprocess: vec![],
    }]);
    assert!(config.validate().is_ok());
}

// --- Invariant 5: preprocess applicability + duplicates ---

#[test]
fn validate_rejects_widen_int_to_float_on_string_field() {
    let config = full_toml(vec![TomlField {
        name: "title".into(),
        field_type: FieldTypeSerde::Scalar("String".into()),
        allowed: vec!["**".into()],
        required: vec![],
        nullable: false,
        constraints: None,
        preprocess: vec![ValueStage::WidenIntToFloat],
    }]);
    let err = config.validate().unwrap_err();
    let msg = err.to_string();
    assert!(msg.contains("widen_int_to_float"), "got: {msg}");
    assert!(msg.contains("not applicable"), "got: {msg}");
    assert!(msg.contains("Float, Array(Float)"), "got: {msg}");
}

#[test]
fn validate_rejects_coerce_to_string_on_integer_field() {
    let config = full_toml(vec![TomlField {
        name: "count".into(),
        field_type: FieldTypeSerde::Scalar("Integer".into()),
        allowed: vec!["**".into()],
        required: vec![],
        nullable: false,
        constraints: None,
        preprocess: vec![ValueStage::CoerceToString],
    }]);
    let err = config.validate().unwrap_err();
    let msg = err.to_string();
    assert!(msg.contains("coerce_to_string"), "got: {msg}");
    assert!(msg.contains("not applicable"), "got: {msg}");
}

#[test]
fn validate_rejects_duplicate_preprocess() {
    let config = full_toml(vec![TomlField {
        name: "title".into(),
        field_type: FieldTypeSerde::Scalar("String".into()),
        allowed: vec!["**".into()],
        required: vec![],
        nullable: false,
        constraints: None,
        preprocess: vec![ValueStage::CoerceToString, ValueStage::CoerceToString],
    }]);
    let err = config.validate().unwrap_err();
    assert!(err.to_string().contains("duplicate preprocess"));
}

#[test]
fn validate_accepts_applicable_preprocess() {
    let config = full_toml(vec![
        TomlField {
            name: "title".into(),
            field_type: FieldTypeSerde::Scalar("String".into()),
            allowed: vec!["**".into()],
            required: vec![],
            nullable: false,
            constraints: None,
            preprocess: vec![ValueStage::CoerceToString],
        },
        TomlField {
            name: "score".into(),
            field_type: FieldTypeSerde::Scalar("Float".into()),
            allowed: vec!["**".into()],
            required: vec![],
            nullable: false,
            constraints: None,
            preprocess: vec![ValueStage::WidenIntToFloat],
        },
    ]);
    assert!(config.validate().is_ok());
}

#[test]
fn validate_accepts_array_string_with_coerce_to_string() {
    let config = full_toml(vec![TomlField {
        name: "tags".into(),
        field_type: FieldTypeSerde::Array {
            array: Box::new(FieldTypeSerde::Scalar("String".into())),
        },
        allowed: vec!["**".into()],
        required: vec![],
        nullable: false,
        constraints: None,
        preprocess: vec![ValueStage::CoerceToString],
    }]);
    assert!(config.validate().is_ok());
}

// --- Invariant 6: top-level Object rejected; Array(Object) allowed ---

#[test]
fn validate_rejects_top_level_object_field() {
    let config = full_toml(vec![TomlField {
        name: "meta".into(),
        field_type: FieldTypeSerde::Object {
            object: sorted_pairs(vec![(
                "author".into(),
                FieldTypeSerde::Scalar("String".into()),
            )]),
        },
        allowed: vec!["**".into()],
        required: vec![],
        nullable: false,
        constraints: None,
        preprocess: vec![],
    }]);
    let err = config.validate().unwrap_err().to_string();
    assert!(err.contains("top-level Object"), "got: {err}");
    assert!(err.contains("flatten"), "got: {err}");
    assert!(err.contains("meta.<child>"), "got: {err}");
}

#[test]
fn validate_rejects_array_of_object() {
    // TODO-0155 invariant 9: Array(Object{...}) is rejected at config load.
    let config = full_toml(vec![TomlField {
        name: "readings".into(),
        field_type: FieldTypeSerde::Array {
            array: Box::new(FieldTypeSerde::Object {
                object: sorted_pairs(vec![
                    ("time".into(), FieldTypeSerde::Scalar("String".into())),
                    ("value".into(), FieldTypeSerde::Scalar("Float".into())),
                ]),
            }),
        },
        allowed: vec!["**".into()],
        required: vec![],
        nullable: false,
        constraints: None,
        preprocess: vec![],
    }]);
    let err = config.validate().unwrap_err().to_string();
    assert!(err.contains("readings"), "got: {err}");
    assert!(err.contains("Array(Object"), "got: {err}");
    assert!(err.contains("TODO-0156"), "got: {err}");
}

#[test]
fn validate_accepts_array_of_scalar() {
    let config = full_toml(vec![TomlField {
        name: "tags".into(),
        field_type: FieldTypeSerde::Array {
            array: Box::new(FieldTypeSerde::Scalar("String".into())),
        },
        allowed: vec!["**".into()],
        required: vec![],
        nullable: false,
        constraints: None,
        preprocess: vec![],
    }]);
    assert!(config.validate().is_ok());
}

// --- Invariant 7: dotted field name well-formedness ---

#[test]
fn validate_accepts_plain_name() {
    let config = full_toml(vec![TomlField {
        name: "title".into(),
        field_type: FieldTypeSerde::Scalar("String".into()),
        allowed: vec!["**".into()],
        required: vec![],
        nullable: false,
        constraints: None,
        preprocess: vec![],
    }]);
    assert!(config.validate().is_ok());
}

#[test]
fn validate_accepts_dotted_name() {
    let config = full_toml(vec![TomlField {
        name: "calibration.baseline.wavelength".into(),
        field_type: FieldTypeSerde::Scalar("Float".into()),
        allowed: vec!["**".into()],
        required: vec![],
        nullable: false,
        constraints: None,
        preprocess: vec![],
    }]);
    assert!(config.validate().is_ok());
}

#[test]
fn validate_accepts_name_with_whitespace() {
    // Existing example_kb behavior: `lab section` is a valid field name.
    let config = full_toml(vec![TomlField {
        name: "lab section".into(),
        field_type: FieldTypeSerde::Scalar("String".into()),
        allowed: vec!["**".into()],
        required: vec![],
        nullable: false,
        constraints: None,
        preprocess: vec![],
    }]);
    assert!(config.validate().is_ok());
}

#[test]
fn validate_rejects_leading_dot() {
    let config = full_toml(vec![TomlField {
        name: ".foo".into(),
        field_type: FieldTypeSerde::Scalar("String".into()),
        allowed: vec!["**".into()],
        required: vec![],
        nullable: false,
        constraints: None,
        preprocess: vec![],
    }]);
    let err = config.validate().unwrap_err().to_string();
    assert!(err.contains("cannot start with '.'"), "got: {err}");
}

#[test]
fn validate_rejects_trailing_dot() {
    let config = full_toml(vec![TomlField {
        name: "foo.".into(),
        field_type: FieldTypeSerde::Scalar("String".into()),
        allowed: vec!["**".into()],
        required: vec![],
        nullable: false,
        constraints: None,
        preprocess: vec![],
    }]);
    let err = config.validate().unwrap_err().to_string();
    assert!(err.contains("cannot end with '.'"), "got: {err}");
}

#[test]
fn validate_rejects_empty_segment() {
    let config = full_toml(vec![TomlField {
        name: "foo..bar".into(),
        field_type: FieldTypeSerde::Scalar("String".into()),
        allowed: vec!["**".into()],
        required: vec![],
        nullable: false,
        constraints: None,
        preprocess: vec![],
    }]);
    let err = config.validate().unwrap_err().to_string();
    assert!(err.contains("empty segment"), "got: {err}");
}

#[test]
fn validate_rejects_empty_name() {
    let config = full_toml(vec![TomlField {
        name: "".into(),
        field_type: FieldTypeSerde::Scalar("String".into()),
        allowed: vec!["**".into()],
        required: vec![],
        nullable: false,
        constraints: None,
        preprocess: vec![],
    }]);
    let err = config.validate().unwrap_err().to_string();
    assert!(err.contains("empty"), "got: {err}");
}

// --- Invariant 8: shape-conflict among field names ---

#[test]
fn validate_rejects_leaf_and_parent_same_name() {
    // `meta` declared both as a leaf AND as a parent (`meta.author`).
    let config = full_toml(vec![
        TomlField {
            name: "meta".into(),
            field_type: FieldTypeSerde::Scalar("String".into()),
            allowed: vec!["**".into()],
            required: vec![],
            nullable: false,
            constraints: None,
            preprocess: vec![],
        },
        TomlField {
            name: "meta.author".into(),
            field_type: FieldTypeSerde::Scalar("String".into()),
            allowed: vec!["**".into()],
            required: vec![],
            nullable: false,
            constraints: None,
            preprocess: vec![],
        },
    ]);
    let err = config.validate().unwrap_err().to_string();
    assert!(err.contains("shape conflict"), "got: {err}");
    assert!(err.contains("'meta'"), "got: {err}");
}

#[test]
fn validate_rejects_deep_shape_conflict() {
    // `cal.baseline` declared as a leaf AND as a parent (`cal.baseline.wave`).
    let config = full_toml(vec![
        TomlField {
            name: "cal.baseline".into(),
            field_type: FieldTypeSerde::Scalar("String".into()),
            allowed: vec!["**".into()],
            required: vec![],
            nullable: false,
            constraints: None,
            preprocess: vec![],
        },
        TomlField {
            name: "cal.baseline.wave".into(),
            field_type: FieldTypeSerde::Scalar("Float".into()),
            allowed: vec!["**".into()],
            required: vec![],
            nullable: false,
            constraints: None,
            preprocess: vec![],
        },
    ]);
    let err = config.validate().unwrap_err().to_string();
    assert!(err.contains("shape conflict"), "got: {err}");
    assert!(err.contains("'cal.baseline'"), "got: {err}");
}

#[test]
fn validate_accepts_siblings_under_shared_prefix() {
    // `cal.x` and `cal.y` share the `cal` intermediate but neither
    // declares `cal` as a leaf — no conflict.
    let config = full_toml(vec![
        TomlField {
            name: "cal.x".into(),
            field_type: FieldTypeSerde::Scalar("Float".into()),
            allowed: vec!["**".into()],
            required: vec![],
            nullable: false,
            constraints: None,
            preprocess: vec![],
        },
        TomlField {
            name: "cal.y".into(),
            field_type: FieldTypeSerde::Scalar("Float".into()),
            allowed: vec!["**".into()],
            required: vec![],
            nullable: false,
            constraints: None,
            preprocess: vec![],
        },
    ]);
    assert!(config.validate().is_ok());
}

// --- deny_unknown_fields tests ---

// --- constraints integration tests ---

#[test]
fn validate_rejects_categories_on_boolean() {
    let config = full_toml(vec![TomlField {
        name: "draft".into(),
        field_type: FieldTypeSerde::Scalar("Boolean".into()),
        allowed: vec!["**".into()],
        required: vec![],
        nullable: false,
        constraints: Some(Constraints {
            categories: Some(vec![TomlValue::String("yes".into())]),
            ..Default::default()
        }),
        preprocess: vec![],
    }]);
    let err = config.validate().unwrap_err();
    assert!(err.to_string().contains("does not apply"));
}

#[test]
fn validate_accepts_valid_string_categories() {
    let config = full_toml(vec![TomlField {
        name: "status".into(),
        field_type: FieldTypeSerde::Scalar("String".into()),
        allowed: vec!["**".into()],
        required: vec![],
        nullable: false,
        constraints: Some(Constraints {
            categories: Some(vec![
                TomlValue::String("draft".into()),
                TomlValue::String("published".into()),
            ]),
            ..Default::default()
        }),
        preprocess: vec![],
    }]);
    assert!(config.validate().is_ok());
}

#[test]
fn validate_rejects_mismatched_category_values() {
    let config = full_toml(vec![TomlField {
        name: "status".into(),
        field_type: FieldTypeSerde::Scalar("String".into()),
        allowed: vec!["**".into()],
        required: vec![],
        nullable: false,
        constraints: Some(Constraints {
            categories: Some(vec![TomlValue::Integer(1)]),
            ..Default::default()
        }),
        preprocess: vec![],
    }]);
    let err = config.validate().unwrap_err();
    assert!(err.to_string().contains("does not match field type"));
}

#[test]
fn validate_rejects_invalid_type_with_constraints() {
    let config = full_toml(vec![TomlField {
        name: "status".into(),
        field_type: FieldTypeSerde::Scalar("Strng".into()),
        allowed: vec!["**".into()],
        required: vec![],
        nullable: false,
        constraints: Some(Constraints {
            categories: Some(vec![TomlValue::String("a".into())]),
            ..Default::default()
        }),
        preprocess: vec![],
    }]);
    let err = config.validate().unwrap_err();
    assert!(err.to_string().contains("invalid type"));
}

#[test]
fn glob_is_covered_by_double_star_and_by_itself() {
    assert!(glob_is_covered("notes/**", &vec!["**".to_string()]));
    assert!(glob_is_covered("notes/*", &vec!["blog/**".to_string(), "notes/*".to_string()]));
    assert!(glob_is_covered("*", &vec!["*".to_string()]));
    assert!(glob_is_covered("blog/drafts/**", &vec!["blog/**".to_string()]));
    assert!(!glob_is_covered("notes/**", &vec!["blog/**".to_string()]));
    assert!(!glob_is_covered("notes/**", &vec![]));
}

#[test]
fn field_keys_rank_in_declaration_order() {
    let order = ["name", "type", "allowed", "required", "nullable", "constraints", "preprocess"];
    for (i, k) in order.iter().enumerate() {
        assert_eq!(field_key_rank(k), i);
    }
    assert_eq!(field_key_rank("zzz"), 7);
    assert_eq!(field_key_rank("Name"), 7);
}
