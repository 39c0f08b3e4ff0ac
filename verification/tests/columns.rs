//! Scenarios of the frontmatter `data` column: the storage type of the
//! schema's fields and the typed columns built from each file's values.

use mdvs::field_type::FieldType;
use mdvs::index::columns::{build_column, Column};
use mdvs::index::storage::transpose_to_storage_type;
use mdvs::json::{JsonNumber, JsonValue};
use mdvs::schema::toml_value::TomlFloat;
use serde_json::Value;

fn tf(x: f64) -> TomlFloat {
    TomlFloat {
        bits: x.to_bits(),
        text: toml::Value::Float(x).to_string(),
        display: format!("{x}"),
        json: serde_json::to_string(&x).unwrap(),
    }
}

fn js(text: &str) -> Value {
    serde_json::from_str(text).unwrap()
}

fn jv(v: &Value) -> JsonValue {
    match v {
        Value::Null => JsonValue::Null,
        Value::Bool(b) => JsonValue::Bool(*b),
        Value::Number(n) => {
            if let Some(i) = n.as_i64() {
                JsonValue::Number(JsonNumber::Int(i))
            } else if let Some(u) = n.as_u64() {
                JsonValue::Number(JsonNumber::BigUint(u, Some(tf(u as f64))))
            } else {
                JsonValue::Number(JsonNumber::Float(tf(n.as_f64().unwrap())))
            }
        }
        Value::String(s) => JsonValue::String(s.clone()),
        Value::Array(items) => JsonValue::Array(items.iter().map(jv).collect()),
        Value::Object(members) => {
            JsonValue::Object(members.iter().map(|(k, v)| (k.clone(), jv(v))).collect())
        }
    }
}

/// The `data` column of files with these frontmatters under these fields.
fn data_column(schema_fields: Vec<(String, FieldType)>, frontmatters: Vec<Option<Value>>) -> Column {
    let storage_ft = transpose_to_storage_type(&schema_fields);
    let values: Vec<Option<JsonValue>> = frontmatters.iter().map(|f| f.as_ref().map(jv)).collect();
    let refs: Vec<Option<&JsonValue>> = values.iter().map(|v| v.as_ref()).collect();
    build_column(&refs, &storage_ft)
}

fn child<'a>(c: &'a Column, name: &str) -> &'a Column {
    match c {
        Column::Struct { children, .. } => {
            &children.iter().find(|(n, _, _)| n == name).expect("child column").2
        }
        _ => panic!("not a struct column"),
    }
}

fn struct_valid(c: &Column) -> &Vec<bool> {
    match c {
        Column::Struct { valid, .. } => valid,
        _ => panic!("not a struct column"),
    }
}

fn num(n: &JsonNumber) -> f64 {
    match n {
        JsonNumber::Int(i) => *i as f64,
        JsonNumber::BigUint(u, _) => *u as f64,
        JsonNumber::Float(f) => f64::from_bits(f.bits),
    }
}

fn floats(c: &Column) -> Vec<Option<f64>> {
    match c {
        Column::Float(v) => v.iter().map(|x| x.as_ref().map(num)).collect(),
        _ => panic!("not a float column"),
    }
}

fn strings(c: &Column) -> &Vec<Option<String>> {
    match c {
        Column::String(v) => v,
        _ => panic!("not a string column"),
    }
}

fn dates(c: &Column) -> &Vec<Option<i32>> {
    match c {
        Column::Date(v) => v,
        _ => panic!("not a date column"),
    }
}

fn millis(c: &Column) -> &Vec<Option<i64>> {
    match c {
        Column::DateTime(v) => v,
        _ => panic!("not a date-time column"),
    }
}

fn rows(c: &Column) -> usize {
    match c {
        Column::Struct { valid, .. } => valid.len(),
        _ => panic!("not a struct column"),
    }
}

fn list_items(c: &Column) -> (&Vec<i32>, &Vec<bool>, &Column) {
    match c {
        Column::List { offsets, valid, items, .. } => (offsets, valid, items),
        _ => panic!("not a list column"),
    }
}

#[test]
fn dotted_leaves_produce_nested_struct_columns() {
    let data = data_column(
        vec![
            ("title".into(), FieldType::String),
            ("cal.baseline.wavelength".into(), FieldType::Float),
            ("cal.baseline.intensity".into(), FieldType::Float),
        ],
        vec![Some(js(r#"{ "title": "Hello", "cal": {"baseline": {"wavelength": 850.0, "intensity": 0.95}} }"#))],
    );
    let baseline = child(child(&data, "cal"), "baseline");
    assert_eq!(floats(child(baseline, "wavelength"))[0], Some(850.0));
    assert_eq!(floats(child(baseline, "intensity"))[0], Some(0.95));
}

#[test]
fn dotted_leaves_handle_absent_parent() {
    let data = data_column(
        vec![
            ("cal.baseline.wavelength".into(), FieldType::Float),
            ("cal.baseline.intensity".into(), FieldType::Float),
        ],
        vec![Some(js(r#"{"unrelated": 1}"#))],
    );
    assert!(!struct_valid(child(&data, "cal"))[0]);
}

#[test]
fn dotted_leaves_handle_partial_intermediate() {
    let data = data_column(
        vec![
            ("cal.baseline.wavelength".into(), FieldType::Float),
            ("cal.baseline.intensity".into(), FieldType::Float),
        ],
        vec![Some(js(r#"{"cal": {"baseline": {"intensity": 0.5}}}"#))],
    );
    let baseline = child(child(&data, "cal"), "baseline");
    assert_eq!(floats(child(baseline, "intensity"))[0], Some(0.5));
    assert_eq!(floats(child(baseline, "wavelength"))[0], None);
}

#[test]
fn data_struct_multi_file() {
    let data = data_column(
        vec![
            ("title".into(), FieldType::String),
            ("tags".into(), FieldType::Array(Box::new(FieldType::String))),
            ("draft".into(), FieldType::Boolean),
        ],
        vec![
            Some(js(r#"{"title": "Hello", "tags": ["rust", "arrow"], "draft": false}"#)),
            Some(js(r#"{"title": "World"}"#)),
            None,
        ],
    );
    assert_eq!(rows(&data), 3);
    let titles = strings(child(&data, "title"));
    assert_eq!(titles[0].as_deref(), Some("Hello"));
    assert_eq!(titles[1].as_deref(), Some("World"));
    assert_eq!(titles[2], None);
    let (offsets, valid, items) = list_items(child(&data, "tags"));
    let tags = strings(items);
    assert_eq!(offsets[0], 0);
    assert_eq!(offsets[1], 2);
    assert_eq!(tags[0].as_deref(), Some("rust"));
    assert_eq!(tags[1].as_deref(), Some("arrow"));
    assert!(!valid[1]);
}

#[test]
fn string_field_serializes_non_strings() {
    let data = data_column(
        vec![("meta".into(), FieldType::String)],
        vec![
            Some(js(r#"{"meta": "plain text"}"#)),
            Some(js(r#"{"meta": ["a", "b"]}"#)),
            Some(js(r#"{"meta": {"k": "v"}}"#)),
            Some(js(r#"{"meta": true}"#)),
            Some(js(r#"{"meta": 42}"#)),
        ],
    );
    let meta = strings(child(&data, "meta"));
    assert_eq!(meta[0].as_deref(), Some("plain text"));
    assert_eq!(meta[1].as_deref(), Some(r#"["a","b"]"#));
    assert_eq!(meta[2].as_deref(), Some(r#"{"k":"v"}"#));
    assert_eq!(meta[3].as_deref(), Some("true"));
    assert_eq!(meta[4].as_deref(), Some("42"));
    for i in 0..5 {
        assert!(meta[i].is_some(), "row {i} should not be null");
    }
}

#[test]
fn null_values_become_arrow_null() {
    let data = data_column(
        vec![
            ("title".into(), FieldType::String),
            ("count".into(), FieldType::Integer),
            ("score".into(), FieldType::Float),
            ("draft".into(), FieldType::Boolean),
        ],
        vec![
            Some(js(r#"{"title": null, "count": null, "score": null, "draft": null}"#)),
            Some(js(r#"{"title": "hello", "count": 5, "score": 3.15, "draft": true}"#)),
        ],
    );
    let title = strings(child(&data, "title"));
    let count = match child(&data, "count") {
        Column::Integer(v) => v,
        _ => panic!("not an integer column"),
    };
    let score = floats(child(&data, "score"));
    let draft = match child(&data, "draft") {
        Column::Boolean(v) => v,
        _ => panic!("not a boolean column"),
    };
    assert!(title[0].is_none(), "null title should be null");
    assert!(count[0].is_none(), "null count should be null");
    assert!(score[0].is_none(), "null score should be null");
    assert!(draft[0].is_none(), "null draft should be null");
    assert_eq!(title[1].as_deref(), Some("hello"));
    assert_eq!(count[1], Some(5));
    assert!((score[1].unwrap() - 3.15).abs() < f64::EPSILON);
    assert_eq!(draft[1], Some(true));
}

#[test]
fn nested_object_roundtrip() {
    let inner = vec![
        ("author".to_string(), FieldType::String),
        ("version".to_string(), FieldType::Integer),
    ];
    let data = data_column(
        vec![("meta".into(), FieldType::Object(inner))],
        vec![Some(js(r#"{"meta": {"author": "Alice", "version": 2}}"#))],
    );
    assert_eq!(rows(&data), 1);
}

#[test]
fn unicode_frontmatter_roundtrip() {
    let data = data_column(
        vec![("title".into(), FieldType::String)],
        vec![Some(js(r#"{"title": "こんにちは 🦀 Émojis"}"#))],
    );
    assert_eq!(strings(child(&data, "title"))[0].as_deref(), Some("こんにちは 🦀 Émojis"));
}

#[test]
fn empty_array_roundtrip() {
    let data = data_column(
        vec![("tags".into(), FieldType::Array(Box::new(FieldType::String)))],
        vec![Some(js(r#"{"tags": []}"#))],
    );
    assert_eq!(rows(&data), 1);
}

#[test]
fn date_field_writes_date32_column() {
    let data = data_column(
        vec![("birthday".into(), FieldType::Date)],
        vec![Some(js(r#"{"birthday": "1990-05-12"}"#))],
    );
    // 1990-05-12 - 1970-01-01 = 7_436 days.
    assert_eq!(dates(child(&data, "birthday"))[0], Some(7_436));
}

#[test]
fn date_epoch_value_is_zero() {
    let data = data_column(vec![("d".into(), FieldType::Date)], vec![Some(js(r#"{"d": "1970-01-01"}"#))]);
    assert_eq!(dates(child(&data, "d"))[0], Some(0));
}

#[test]
fn array_of_date_writes_list_of_date32() {
    let data = data_column(
        vec![("milestones".into(), FieldType::Array(Box::new(FieldType::Date)))],
        vec![Some(js(r#"{"milestones": ["2024-01-01", "2024-06-15"]}"#))],
    );
    let (_, _, items) = list_items(child(&data, "milestones"));
    let values = dates(items);
    assert_eq!(values[0], Some(19_723));
    assert_eq!(values[1], Some(19_889));
}

#[test]
fn date_stored_as_days_since_epoch() {
    let data = data_column(
        vec![("birthday".into(), FieldType::Date)],
        vec![Some(js(r#"{"birthday": "2024-03-15"}"#))],
    );
    assert_eq!(dates(child(&data, "birthday"))[0], Some(19_797));
}

#[test]
fn date_field_null_for_unparseable_value() {
    let data = data_column(vec![("d".into(), FieldType::Date)], vec![Some(js(r#"{"d": "not-a-date"}"#))]);
    assert_eq!(dates(child(&data, "d"))[0], None);
}

#[test]
fn datetime_field_writes_timestamp_ms_utc_column() {
    let data = data_column(
        vec![("synced_at".into(), FieldType::DateTime)],
        vec![Some(js(r#"{"synced_at": "1970-01-01T00:00:00Z"}"#))],
    );
    assert_eq!(millis(child(&data, "synced_at"))[0], Some(0));
}

#[test]
fn datetime_normalises_offsets_to_utc() {
    let data = data_column(
        vec![("a".into(), FieldType::DateTime), ("b".into(), FieldType::DateTime)],
        vec![Some(js(r#"{"a": "2024-01-15T14:30:00Z", "b": "2024-01-15T20:00:00+05:30"}"#))],
    );
    assert_eq!(millis(child(&data, "a"))[0], millis(child(&data, "b"))[0]);
    assert!(millis(child(&data, "a"))[0].is_some());
}

#[test]
fn datetime_stored_as_millis_since_epoch() {
    let data = data_column(
        vec![("synced_at".into(), FieldType::DateTime)],
        vec![Some(js(r#"{"synced_at": "2024-03-15T14:30:00Z"}"#))],
    );
    assert_eq!(millis(child(&data, "synced_at"))[0], Some(1_710_513_000_000));
}

#[test]
fn array_of_datetime_writes_list_of_timestamp_ms() {
    let data = data_column(
        vec![("events".into(), FieldType::Array(Box::new(FieldType::DateTime)))],
        vec![Some(js(r#"{"events": ["2024-01-15T14:30:00Z", "2024-06-01T08:00:00+00:00"]}"#))],
    );
    let (_, _, items) = list_items(child(&data, "events"));
    let values = millis(items);
    assert_eq!(values.len(), 2);
    assert!(values[1].unwrap() > values[0].unwrap());
}

#[test]
fn datetime_field_null_for_unparseable_value() {
    let data = data_column(
        vec![("x".into(), FieldType::DateTime)],
        vec![Some(js(r#"{"x": "not-a-datetime"}"#))],
    );
    assert_eq!(millis(child(&data, "x"))[0], None);
}
