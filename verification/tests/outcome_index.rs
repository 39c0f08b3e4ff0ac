use mdvs::block::{Block, Render};
use mdvs::outcome::commands::export_jsonschema::{ExportFormat, ExportJsonschemaOutcome};
use mdvs::outcome::index::{DeleteIndexOutcome, ReadIndexOutcome, WriteIndexOutcome};
use mdvs::outcome::model::LoadModelOutcome;
use mdvs::outcome::validate::ValidateOutcome;
use mdvs::output::{FieldViolation, format_file_count, format_size};

fn line(blocks: &[Block]) -> &str {
    assert_eq!(blocks.len(), 1);
    match &blocks[0] {
        Block::Line(s) => s,
        _ => panic!("expected Line"),
    }
}

#[test]
fn delete_index_render_removed() {
    let outcome = DeleteIndexOutcome {
        removed: true,
        path: ".mdvs".into(),
        files_removed: 2,
        size_bytes: 1024,
    };
    let blocks = outcome.render();
    assert_eq!(blocks.len(), 1);
    match &blocks[0] {
        Block::Line(s) => assert!(s.contains(".mdvs") && s.contains("2 files")),
        _ => panic!("expected Line"),
    }
}

#[test]
fn delete_index_render_not_exists() {
    let outcome = DeleteIndexOutcome {
        removed: false,
        path: ".mdvs".into(),
        files_removed: 0,
        size_bytes: 0,
    };
    let blocks = outcome.render();
    assert_eq!(blocks.len(), 1);
    match &blocks[0] {
        Block::Line(s) => assert!(s.contains("does not exist")),
        _ => panic!("expected Line"),
    }
}

#[test]
fn delete_index_line_exact() {
    let outcome = DeleteIndexOutcome {
        removed: true,
        path: ".mdvs".into(),
        files_removed: 1,
        size_bytes: 1536,
    };
    assert_eq!(line(&outcome.render()), "Delete index: .mdvs (1 file, 1.5 KB)");
}

#[test]
fn counts_and_sizes() {
    assert_eq!(format_file_count(0), "0 files");
    assert_eq!(format_file_count(1), "1 file");
    assert_eq!(format_file_count(7), "7 files");
    assert_eq!(format_size(512), "512 B");
    assert_eq!(format_size(1024), "1.0 KB");
    assert_eq!(format_size(3 * 1048576 + 524288), "3.5 MB");
    assert_eq!(format_size(1073741824), "1.0 GB");
}

#[test]
fn read_write_model_lines() {
    let r = ReadIndexOutcome {
        exists: true,
        files_indexed: 3,
        chunks: 9,
    };
    assert_eq!(line(&r.render()), "Read index: 3 files, 9 chunks");
    let r = ReadIndexOutcome {
        exists: false,
        files_indexed: 0,
        chunks: 0,
    };
    assert_eq!(line(&r.render()), "Read index: not found");
    let w = WriteIndexOutcome {
        files_written: 1,
        chunks_written: 2,
    };
    assert_eq!(line(&w.render()), "Write index: 1 files, 2 chunks");
    let m = LoadModelOutcome {
        model_name: "potion".into(),
        dimension: 256,
    };
    assert_eq!(line(&m.render()), "Load model: potion");
}

#[test]
fn validate_line_counts_violations() {
    let ok = ValidateOutcome {
        files_checked: 4,
        violations: vec![],
        new_fields: vec![],
    };
    assert_eq!(line(&ok.render()), "Validate: 4 files — no violations");
    let bad = ValidateOutcome {
        files_checked: 1,
        violations: vec![FieldViolation {
            field: "tags".into(),
            rule: "type".into(),
            file: "a.md".into(),
        }],
        new_fields: vec![],
    };
    assert_eq!(line(&bad.render()), "Validate: 1 file — 1 violation(s)");
}

#[test]
fn export_line_names_destination() {
    let o = ExportJsonschemaOutcome {
        source: "mdvs.toml".into(),
        destination: Some("schema.json".into()),
        format: ExportFormat::Json,
        fields_exported: 3,
        ignore_exported: 1,
    };
    assert_eq!(line(&o.render()), "Exported 3 field(s) + 1 ignored (json) to 'schema.json'.");
    let o = ExportJsonschemaOutcome {
        source: "mdvs.toml".into(),
        destination: None,
        format: ExportFormat::Toml,
        fields_exported: 0,
        ignore_exported: 0,
    };
    assert_eq!(line(&o.render()), "Exported 0 field(s) + 0 ignored (toml) to stdout.");
}
