use mdvs::block::{Block, Render};
use mdvs::outcome::commands::build_outcome::BuildOutcome;
use mdvs::output::{BuildFileDetail, NewField};
use mdvs::render::{format_markdown, format_pretty};

fn outcome_with_two_files() -> BuildOutcome {
    BuildOutcome {
        full_rebuild: true,
        files_total: 2,
        files_embedded: 2,
        files_unchanged: 0,
        files_removed: 0,
        chunks_total: 3,
        chunks_embedded: 3,
        chunks_unchanged: 0,
        chunks_removed: 0,
        new_fields: vec![],
        embedded_files: vec![
            BuildFileDetail {
                filename: "notes/alpha.md".into(),
                chunks: 2,
            },
            BuildFileDetail {
                filename: "notes/beta.md".into(),
                chunks: 1,
            },
        ],
        removed_files: vec![],
    }
}

#[test]
fn embedded_files_render_as_section_not_table_cell() {
    let blocks = outcome_with_two_files().render();
    let summary_row_cells: Vec<&str> = blocks
        .iter()
        .filter_map(|b| match b {
            Block::Table { rows, .. } => Some(rows),
            _ => None,
        })
        .flatten()
        .map(|row| row[0].as_str())
        .collect();
    assert!(
        !summary_row_cells.contains(&"embedded files"),
        "summary table still has an 'embedded files' row: {summary_row_cells:?}"
    );
    assert!(
        !summary_row_cells.contains(&"removed files"),
        "summary table still has a 'removed files' row: {summary_row_cells:?}"
    );
    let section = blocks
        .iter()
        .find_map(|b| match b {
            Block::Section { label, children } if label == "embedded files" => Some(children),
            _ => None,
        })
        .expect("expected an 'embedded files' Section");
    assert_eq!(section.len(), 2);
}

#[test]
fn markdown_renders_embedded_files_as_heading_and_lines() {
    let md = format_markdown(&outcome_with_two_files().render());
    assert!(
        md.contains("## embedded files"),
        "expected '## embedded files' heading, got:\n{md}"
    );
    assert!(md.contains("notes/alpha.md (2 chunks)"));
    assert!(md.contains("notes/beta.md (1 chunk)"));
    assert!(
        !md.contains("notes/alpha.md (2 chunks)<br>notes/beta.md"),
        "file list leaked back into a <br>-joined table cell:\n{md}"
    );
}

#[test]
fn pretty_renders_embedded_files_as_indented_list() {
    let pretty = format_pretty(&outcome_with_two_files().render());
    assert!(pretty.contains("embedded files:"));
    assert!(pretty.contains("notes/alpha.md (2 chunks)"));
    assert!(pretty.contains("notes/beta.md (1 chunk)"));
}

#[test]
fn empty_file_lists_emit_no_section() {
    let mut outcome = outcome_with_two_files();
    outcome.embedded_files.clear();
    outcome.removed_files.clear();
    let blocks = outcome.render();
    assert!(
        !blocks
            .iter()
            .any(|b| matches!(b, Block::Section { label, .. } if label == "embedded files" || label == "removed files")),
        "empty file lists should not produce Section blocks"
    );
}

#[test]
fn build_summary_line_and_new_fields_cell() {
    let mut outcome = outcome_with_two_files();
    outcome.new_fields = vec![
        NewField {
            name: "tags".into(),
            files_found: 1,
        },
        NewField {
            name: "draft".into(),
            files_found: 3,
        },
    ];
    let blocks = outcome.render();
    match &blocks[0] {
        Block::Line(s) => assert_eq!(s, "Built index — 2 files, 3 chunks (full rebuild)"),
        _ => panic!("expected Line"),
    }
    match &blocks[2] {
        Block::Table { rows, .. } => {
            assert_eq!(rows.len(), 10);
            assert_eq!(rows[0], vec!["full rebuild".to_string(), "true".to_string()]);
            assert_eq!(rows[9][1], "tags (1 file)\ndraft (3 files)");
        }
        _ => panic!("expected Table"),
    }
}
