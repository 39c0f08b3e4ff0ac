use mdvs::block::{Block, TableStyle};
use mdvs::render::{
    column_count, detail_panels, format_markdown, format_pretty, format_pretty_at, key_value_column_widths,
    record_column_widths, record_records,
};

#[test]
fn pretty_empty_blocks() {
    assert_eq!(format_pretty(&[]), "");
}

#[test]
fn pretty_line() {
    let blocks = vec![Block::Line("hello world".into())];
    assert_eq!(format_pretty(&blocks), "hello world\n");
}

#[test]
fn pretty_multiple_lines() {
    let blocks = vec![Block::Line("line 1".into()), Block::Line("line 2".into())];
    assert_eq!(format_pretty(&blocks), "line 1\nline 2\n");
}

#[test]
fn pretty_compact_table() {
    let blocks = vec![Block::Table {
        headers: Some(vec!["name".into(), "type".into()]),
        rows: vec![vec!["title".into(), "String".into()]],
        style: TableStyle::Compact,
    }];
    let output = format_pretty(&blocks);
    assert!(output.contains("title"));
    assert!(output.contains("String"));
    assert!(output.contains('╭') || output.contains('│'));
}

#[test]
fn pretty_record_table() {
    let blocks = vec![Block::Table {
        headers: None,
        rows: vec![
            vec!["\"title\"".into(), "String".into(), "5/5".into()],
            vec!["  required:\n    - \"**\"".into(), String::new(), String::new()],
        ],
        style: TableStyle::Record {
            detail_rows: vec![1],
        },
    }];
    let output = format_pretty(&blocks);
    assert!(output.contains("title"));
    assert!(output.contains("required"));
}

#[test]
fn pretty_section() {
    let blocks = vec![Block::Section {
        label: "Auto-build".into(),
        children: vec![Block::Line("Scan: 5 files".into())],
    }];
    let output = format_pretty(&blocks);
    assert!(output.contains("Auto-build:"));
    assert!(output.contains("  Scan: 5 files"));
}

#[test]
fn markdown_line() {
    let blocks = vec![Block::Line("hello".into())];
    assert_eq!(format_markdown(&blocks), "hello");
}

#[test]
fn markdown_no_trailing_newline() {
    let blocks = vec![Block::Line("hello".into()), Block::Line("world".into())];
    let output = format_markdown(&blocks);
    assert!(!output.ends_with('\n'));
    assert!(output.ends_with("world"));
}

#[test]
fn markdown_table_with_headers() {
    let blocks = vec![Block::Table {
        headers: Some(vec!["name".into(), "type".into()]),
        rows: vec![vec!["title".into(), "String".into()]],
        style: TableStyle::Compact,
    }];
    let output = format_markdown(&blocks);
    assert!(output.contains("| name | type |"));
    assert!(output.contains("| --- | --- |"));
    assert!(output.contains("| title | String |"));
}

#[test]
fn markdown_section() {
    let blocks = vec![Block::Section {
        label: "Results".into(),
        children: vec![Block::Line("5 hits".into())],
    }];
    let output = format_markdown(&blocks);
    assert!(output.contains("## Results"));
    assert!(output.contains("5 hits"));
}

#[test]
fn markdown_keyvalue_with_title() {
    let blocks = vec![Block::Table {
        headers: None,
        rows: vec![
            vec!["type".into(), "Array(String)".into()],
            vec!["nullable".into(), "false".into()],
        ],
        style: TableStyle::KeyValue {
            title: "action_items".into(),
        },
    }];
    let output = format_markdown(&blocks);
    assert!(output.contains("### action_items"));
    assert!(output.contains("| Field | Value |"));
    assert!(output.contains("| --- | --- |"));
    assert!(output.contains("| type | Array(String) |"));
    assert!(output.contains("| nullable | false |"));
}

#[test]
fn markdown_keyvalue_without_title() {
    let blocks = vec![Block::Table {
        headers: None,
        rows: vec![vec!["scan glob".into(), "**".into()]],
        style: TableStyle::KeyValue {
            title: String::new(),
        },
    }];
    let output = format_markdown(&blocks);
    assert!(!output.contains("###"));
    assert!(output.contains("| Field | Value |"));
    assert!(output.contains("| scan glob | ** |"));
}

#[test]
fn markdown_cell_escapes_pipe() {
    let blocks = vec![Block::Table {
        headers: None,
        rows: vec![vec!["pattern".into(), "foo|bar".into()]],
        style: TableStyle::KeyValue {
            title: String::new(),
        },
    }];
    let output = format_markdown(&blocks);
    assert!(output.contains("foo\\|bar"));
}

#[test]
fn markdown_cell_converts_newlines_to_br() {
    let blocks = vec![Block::Table {
        headers: None,
        rows: vec![vec!["required".into(), "globs/**\nother/**".into()]],
        style: TableStyle::KeyValue {
            title: String::new(),
        },
    }];
    let output = format_markdown(&blocks);
    assert!(output.contains("globs/**<br>other/**"));
    let row_line = output.lines().find(|l| l.contains("required")).expect("row");
    assert!(!row_line.contains('\n'));
}

#[test]
fn markdown_cell_escapes_backslash() {
    let blocks = vec![Block::Table {
        headers: None,
        rows: vec![vec!["path".into(), "a\\b".into()]],
        style: TableStyle::KeyValue {
            title: String::new(),
        },
    }];
    let output = format_markdown(&blocks);
    assert!(output.contains("a\\\\b"));
}

#[test]
fn markdown_exact_output() {
    let blocks = vec![
        Block::Line("top".into()),
        Block::Section {
            label: "S".into(),
            children: vec![Block::Table {
                headers: Some(vec!["a".into(), "b".into()]),
                rows: vec![vec!["1".into(), "2".into()]],
                style: TableStyle::Compact,
            }],
        },
    ];
    assert_eq!(
        format_markdown(&blocks),
        "top\n## S\n\n| a | b |\n| --- | --- |\n| 1 | 2 |"
    );
}

#[test]
fn pretty_nested_sections_indent_by_two() {
    let blocks = vec![Block::Section {
        label: "outer".into(),
        children: vec![Block::Section {
            label: "inner".into(),
            children: vec![Block::Line("x".into())],
        }],
    }];
    assert_eq!(format_pretty(&blocks), "outer:\n  inner:\n    x\n");
}

#[test]
fn record_layout_helpers() {
    let rows: Vec<Vec<String>> = vec![
        vec!["a".into(), "1".into(), "2".into()],
        vec!["detail a".into(), String::new(), String::new()],
        vec!["b".into(), "3".into(), "4".into()],
        vec![String::new(), String::new(), String::new()],
    ];
    let detail = vec![1usize, 3, 7];
    let records = record_records(&None, &rows, &detail);
    assert_eq!(records.len(), 2);
    assert_eq!(records[1][0], "b");
    let panels = detail_panels(&rows, &detail, 1);
    assert_eq!(panels.len(), 1);
    assert_eq!(panels[0].0, 2);
    assert_eq!(panels[0].1, "detail a");
    assert_eq!(column_count(&None, &rows), 3);
    assert_eq!(column_count(&None, &Vec::<Vec<String>>::new()), 1);
    assert_eq!(record_column_widths(3, 110), vec![40, 30, 30]);
    assert_eq!(record_column_widths(2, 27), vec![10, 10]);
    assert_eq!(key_value_column_widths(37), (10, 20));
    assert_eq!(key_value_column_widths(3), (0, 0));
}

fn sample_blocks() -> Vec<Block> {
    vec![
        Block::Line("header".into()),
        Block::Table {
            headers: Some(vec!["name".into(), "kind".into()]),
            rows: vec![vec!["title".into(), "String".into()]],
            style: TableStyle::Compact,
        },
        Block::Section {
            label: "details".into(),
            children: vec![Block::Table {
                headers: None,
                rows: vec![vec!["files".into(), "3".into()]],
                style: TableStyle::KeyValue { title: "Index".into() },
            }],
        },
    ]
}

#[test]
fn pretty_at_concatenates_at_one_width() {
    let a = sample_blocks();
    let b = vec![Block::Line("footer".into())];
    let mut ab = sample_blocks();
    ab.push(Block::Line("footer".into()));
    for w in [40usize, 80, 120] {
        assert_eq!(format_pretty_at(&ab, w), format_pretty_at(&a, w) + &format_pretty_at(&b, w));
    }
}

#[test]
fn pretty_at_width_changes_tables() {
    let blocks = vec![Block::Table {
        headers: Some(vec!["name".into()]),
        rows: vec![vec!["x".into()]],
        style: TableStyle::Compact,
    }];
    let narrow = format_pretty_at(&blocks, 20);
    let wide = format_pretty_at(&blocks, 60);
    assert!(narrow.lines().next().unwrap().chars().count() < wide.lines().next().unwrap().chars().count());
}

#[test]
fn pretty_record_table_of_only_detail_rows_draws() {
    let blocks = vec![Block::Table {
        headers: None,
        rows: vec![vec!["x".into()]],
        style: TableStyle::Record { detail_rows: vec![0] },
    }];
    let out = format_pretty_at(&blocks, 80);
    assert!(!out.contains('x'));
}
