//! Scenarios of content and schema hashing.

use mdvs::index::storage::{compute_schema_hash, content_hash};
use mdvs::preprocess::ValueStage;
use mdvs::schema::config::{FieldsConfig, MdvsToml, TomlField, UpdateConfig};
use mdvs::schema::constraints::Constraints;
use mdvs::schema::shared::{FieldTypeSerde, ScanConfig};


fn sample_toml() -> MdvsToml {
    MdvsToml {
        scan: ScanConfig {
            glob: "**".into(),
            include_bare_files: false,
            skip_gitignore: false,
        },
        update: UpdateConfig::default(),
        check: None,
        embedding_model: None,
        chunking: None,
        build: None,
        search: None,
        fields: FieldsConfig {
            ignore: vec![],
            field: vec![TomlField {
                name: "title".into(),
                field_type: FieldTypeSerde::Scalar("String".into()),
                allowed: vec!["**".into()],
                required: vec![],
                nullable: false,
                constraints: None,
                preprocess: vec![],
            }],
            max_categories: 10,
            min_category_repetition: 3,
        },
    }
}

#[test]
fn content_hash_determinism() {
    let h1 = content_hash("hello world");
    let h2 = content_hash("hello world");
    let h3 = content_hash("different content");
    assert_eq!(h1, h2, "same content should produce same hash");
    assert_ne!(h1, h3, "different content should produce different hash");
}

#[test]
fn schema_hash_is_deterministic() {
    let t = sample_toml();
    let h1 = compute_schema_hash(&t);
    let h2 = compute_schema_hash(&t);
    assert_eq!(h1, h2);
}

#[test]
fn schema_hash_changes_when_field_added() {
    let mut t = sample_toml();
    let h1 = compute_schema_hash(&t);
    t.fields.field.push(TomlField {
        name: "draft".into(),
        field_type: FieldTypeSerde::Scalar("Boolean".into()),
        allowed: vec!["**".into()],
        required: vec![],
        nullable: false,
        constraints: None,
        preprocess: vec![],
    });
    let h2 = compute_schema_hash(&t);
    assert_ne!(h1, h2);
}

#[test]
fn schema_hash_changes_when_type_changes() {
    let mut t = sample_toml();
    let h1 = compute_schema_hash(&t);
    t.fields.field[0].field_type = FieldTypeSerde::Scalar("Integer".into());
    let h2 = compute_schema_hash(&t);
    assert_ne!(h1, h2);
}

#[test]
fn schema_hash_changes_when_constraint_added() {
    let mut t = sample_toml();
    let h1 = compute_schema_hash(&t);
    t.fields.field[0].constraints = Some(Constraints {
        min_length: Some(3),
        ..Default::default()
    });
    let h2 = compute_schema_hash(&t);
    assert_ne!(h1, h2);
}

#[test]
fn schema_hash_changes_when_preprocess_added() {
    let mut t = sample_toml();
    let h1 = compute_schema_hash(&t);
    t.fields.field[0].preprocess = vec![ValueStage::CoerceToString];
    let h2 = compute_schema_hash(&t);
    assert_ne!(h1, h2);
}

#[test]
fn schema_hash_changes_when_allowed_changes() {
    let mut t = sample_toml();
    let h1 = compute_schema_hash(&t);
    t.fields.field[0].allowed = vec!["blog/**".into()];
    let h2 = compute_schema_hash(&t);
    assert_ne!(h1, h2);
}

#[test]
fn schema_hash_unchanged_by_scan_glob() {
    // scan.glob is tracked separately in BuildMetadata.glob; not part of schema.
    let mut t = sample_toml();
    let h1 = compute_schema_hash(&t);
    t.scan.glob = "blog/**".into();
    let h2 = compute_schema_hash(&t);
    assert_eq!(h1, h2);
}

#[test]
fn schema_hash_unchanged_when_ignore_order_differs() {
    // Ignore list is part of the schema, but ordering shouldn't matter
    // because dsl_to_canonical inserts them in slice order — confirm by
    // building two configs with the same ignore in slice order.
    let mut t1 = sample_toml();
    t1.fields.ignore = vec!["a".into(), "b".into()];
    let mut t2 = sample_toml();
    t2.fields.ignore = vec!["a".into(), "b".into()];
    assert_eq!(compute_schema_hash(&t1), compute_schema_hash(&t2));
}

fn string_field(name: &str) -> TomlField {
    TomlField {
        name: name.into(),
        field_type: FieldTypeSerde::Scalar("String".into()),
        allowed: vec!["**".into()],
        required: vec![],
        nullable: false,
        constraints: None,
        preprocess: vec![],
    }
}

#[test]
fn schema_hash_ignores_field_and_ignore_order() {
    let mut t1 = sample_toml();
    t1.fields.field = vec![string_field("title"), string_field("meta.author"), string_field("meta.year")];
    t1.fields.ignore = vec!["b".into(), "a".into()];
    let mut t2 = sample_toml();
    t2.fields.field = vec![string_field("meta.year"), string_field("title"), string_field("meta.author")];
    t2.fields.ignore = vec!["a".into(), "b".into(), "a".into()];
    assert_eq!(compute_schema_hash(&t1), compute_schema_hash(&t2));
    let mut t3 = sample_toml();
    t3.fields.field = vec![string_field("title"), string_field("meta.author")];
    t3.fields.ignore = vec!["a".into(), "b".into()];
    assert_ne!(compute_schema_hash(&t1), compute_schema_hash(&t3));
}
