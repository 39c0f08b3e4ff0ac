//! Outcome of the `info` command.

use vstd::prelude::*;
use crate::block::{Block, BlockV, Render, StyleV, TableStyle, block_view, blocks_view, lemma_rows_view_push, rows_view};
use crate::outcome::commands::build_outcome::bool_text;
use crate::outcome::{kv_row, push_block, push_line};
use crate::output::{format_hints, join_lines_or, lines_or};
use crate::text::{bool_string, decimal, join, owned, push_str, usize_string, views};

verus! {

/// What `info` reports of a built index.
#[derive(Debug)]
pub struct IndexInfo {
    /// Embedding model name.
    pub model: String,
    /// Model revision, if pinned.
    pub revision: Option<String>,
    /// Maximum chunk size in characters.
    pub chunk_size: usize,
    /// When the index was built.
    pub built_at: String,
    /// Whether the config changed since the build.
    pub config_status: String,
    /// Number of files in the index.
    pub files_indexed: usize,
    /// Number of markdown files on disk.
    pub files_on_disk: usize,
    /// Number of chunks in the index.
    pub chunks: usize,
}

/// What `info` reports of one field definition.
#[derive(Debug)]
pub struct InfoField {
    /// Field name.
    pub name: String,
    /// Field type, as written in `mdvs.toml`.
    pub field_type: String,
    /// Number of files the field was found in, when known.
    pub count: Option<usize>,
    /// Number of files scanned, when known.
    pub total_files: Option<usize>,
    /// Whether the field accepts null.
    pub nullable: bool,
    /// Globs of files that must have the field.
    pub required: Vec<String>,
    /// Globs of files that may have the field.
    pub allowed: Vec<String>,
    /// Hints about the field.
    pub hints: Vec<String>,
}

/// Outcome of the `info` command.
#[derive(Debug)]
pub struct InfoOutcome {
    /// Glob pattern from `[scan]` config.
    pub scan_glob: String,
    /// Number of markdown files matching the scan pattern.
    pub files_on_disk: usize,
    /// Field definitions from `[[fields.field]]`.
    pub fields: Vec<InfoField>,
    /// Field names in the `[fields].ignore` list.
    pub ignored_fields: Vec<String>,
    /// Index info, if a built index exists.
    pub index: Option<IndexInfo>,
}

/// The summary line: files, fields and, with an index, chunks.
pub open spec fn info_summary(o: InfoOutcome) -> Seq<char> {
    decimal(o.files_on_disk as nat) + " files, "@ + decimal(o.fields@.len()) + " fields"@ + (
    match o.index {
        Some(idx) => ", "@ + decimal(idx.chunks as nat) + " chunks"@,
        None => Seq::empty(),
    })
}

/// `a out of b`.
pub open spec fn out_of(a: nat, b: nat) -> Seq<char> {
    decimal(a) + " out of "@ + decimal(b)
}

/// The key-value rows describing an index.
pub open spec fn index_rows(idx: IndexInfo) -> Seq<Seq<Seq<char>>> {
    seq![
        seq!["model"@, idx.model@],
        seq![
            "revision"@,
            match idx.revision {
                Some(r) => r@,
                None => "none"@,
            },
        ],
        seq!["chunk size"@, decimal(idx.chunk_size as nat)],
        seq!["built"@, idx.built_at@],
        seq!["config"@, idx.config_status@],
        seq!["files"@, out_of(idx.files_indexed as nat, idx.files_on_disk as nat)],
    ]
}

/// The key-value rows describing a field: type, files, nullable, required
/// (or `(none)`), allowed (or `**`), and hints when there are any.
pub open spec fn field_rows(f: InfoField) -> Seq<Seq<Seq<char>>> {
    seq![
        seq!["type"@, f.field_type@],
        seq![
            "files"@,
            match (f.count, f.total_files) {
                (Some(c), Some(t)) => out_of(c as nat, t as nat),
                _ => Seq::empty(),
            },
        ],
        seq!["nullable"@, bool_text(f.nullable)],
        seq!["required"@, lines_or(views(f.required@), "(none)"@)],
        seq!["allowed"@, lines_or(views(f.allowed@), "**"@)],
    ] + (if f.hints@.len() == 0 {
        Seq::empty()
    } else {
        seq![seq!["hints"@, join(views(f.hints@), "\n"@)]]
    })
}

/// A key-value table without title.
pub open spec fn kv_table(rows: Seq<Seq<Seq<char>>>) -> BlockV {
    BlockV::Table(None, rows, StyleV::KeyValue(Seq::empty()))
}

/// The blocks that show `info`: the summary, an empty line, the config
/// table, the index table when there is an index, then a count line and one
/// table per field (titled with the field's name) when there are fields.
pub open spec fn info_blocks(o: InfoOutcome) -> Seq<BlockV> {
    seq![
        BlockV::Line(info_summary(o)),
        BlockV::Line(Seq::empty()),
        BlockV::Line("Config:"@),
        kv_table(
            seq![
                seq!["scan glob"@, o.scan_glob@],
                seq!["ignored fields"@, lines_or(views(o.ignored_fields@), "(none)"@)],
            ],
        ),
    ] + (match o.index {
        Some(idx) => seq![BlockV::Line("Index:"@), kv_table(index_rows(idx))],
        None => Seq::empty(),
    }) + (if o.fields@.len() == 0 {
        Seq::empty()
    } else {
        seq![BlockV::Line(decimal(o.fields@.len()) + " fields:"@)]
    }) + Seq::new(
        o.fields@.len(),
        |i: int| BlockV::Table(None, field_rows(o.fields@[i]), StyleV::KeyValue(o.fields@[i].name@)),
    )
}

/// **The index table counts indexed files out of files on disk.** With an
/// index, the blocks of `info` hold, after the config table, the line
/// `Index:` and a key-value table whose sixth row is `files` with the
/// number of indexed files, ` out of `, and the number of files on disk, in
/// that order. Each field's table has as second row `files` with the number
/// of files the field was found in out of the files scanned, when both are
/// known, and nothing after `files` otherwise.
pub proof fn lemma_info_file_counts(o: InfoOutcome)
    ensures
        o.index matches Some(idx) ==> {
            &&& info_blocks(o)[4] == BlockV::Line("Index:"@)
            &&& info_blocks(o)[5] matches BlockV::Table(None, rows, StyleV::KeyValue(t)) && t.len() == 0
                && rows.len() == 6 && rows[5] == seq![
                "files"@,
                decimal(idx.files_indexed as nat) + " out of "@ + decimal(idx.files_on_disk as nat),
            ]
        },
        forall|i: int| 0 <= i < o.fields@.len() ==> (#[trigger] field_rows(o.fields@[i]))[1] == seq![
            "files"@,
            match (o.fields@[i].count, o.fields@[i].total_files) {
                (Some(c), Some(t)) => decimal(c as nat) + " out of "@ + decimal(t as nat),
                _ => Seq::empty(),
            },
        ],
{
    assert forall|i: int| 0 <= i < o.fields@.len() implies (#[trigger] field_rows(o.fields@[i]))[1] == seq![
        "files"@,
        match (o.fields@[i].count, o.fields@[i].total_files) {
            (Some(c), Some(t)) => decimal(c as nat) + " out of "@ + decimal(t as nat),
            _ => Seq::empty(),
        },
    ] by {
        let f = o.fields@[i];
        let head = seq![
            seq!["type"@, f.field_type@],
            seq![
                "files"@,
                match (f.count, f.total_files) {
                    (Some(c), Some(t)) => out_of(c as nat, t as nat),
                    _ => Seq::empty(),
                },
            ],
            seq!["nullable"@, bool_text(f.nullable)],
            seq!["required"@, lines_or(views(f.required@), "(none)"@)],
            seq!["allowed"@, lines_or(views(f.allowed@), "**"@)],
        ];
        let tail: Seq<Seq<Seq<char>>> = if f.hints@.len() == 0 {
            Seq::empty()
        } else {
            seq![seq!["hints"@, join(views(f.hints@), "\n"@)]]
        };
        assert(field_rows(f) == head + tail);
        assert((head + tail)[1] == head[1]);
    }
}

fn out_of_string(a: usize, b: usize) -> (r: String)
    ensures
        r@ == out_of(a as nat, b as nat),
{
    let mut s = usize_string(a);
    push_str(&mut s, " out of ");
    let t = usize_string(b);
    push_str(&mut s, t.as_str());
    s
}

fn kv_table_block(rows: Vec<Vec<String>>) -> (b: Block)
    ensures
        block_view(b) == kv_table(rows_view(rows@)),
{
    Block::Table { headers: None, rows, style: TableStyle::KeyValue { title: String::new() } }
}

fn field_table(f: &InfoField) -> (b: Block)
    ensures
        block_view(b) == BlockV::Table(None, field_rows(*f), StyleV::KeyValue(f.name@)),
{
    let files = match (f.count, f.total_files) {
        (Some(c), Some(t)) => out_of_string(c, t),
        _ => String::new(),
    };
    let ghost files_v: Seq<char> = match (f.count, f.total_files) {
        (Some(c), Some(t)) => out_of(c as nat, t as nat),
        _ => Seq::empty(),
    };
    assert(files@ == files_v);
    let r0 = kv_row("type", f.field_type.clone());
    let r1 = kv_row("files", files);
    let r2 = kv_row("nullable", bool_string(f.nullable));
    let r3 = kv_row("required", join_lines_or(&f.required, "(none)"));
    let r4 = kv_row("allowed", join_lines_or(&f.allowed, "**"));
    let mut rows = vec![r0, r1, r2, r3, r4];
    let ghost base: Seq<Seq<Seq<char>>> = seq![
        seq!["type"@, f.field_type@],
        seq!["files"@, files_v],
        seq!["nullable"@, bool_text(f.nullable)],
        seq!["required"@, lines_or(views(f.required@), "(none)"@)],
        seq!["allowed"@, lines_or(views(f.allowed@), "**"@)],
    ];
    assert(rows_view(rows@) =~= base);
    if f.hints.len() > 0 {
        let row = kv_row("hints", format_hints(&f.hints));
        proof {
            lemma_rows_view_push(rows@, row);
        }
        rows.push(row);
        assert(rows_view(rows@) =~= base + seq![seq!["hints"@, join(views(f.hints@), "\n"@)]]);
    } else {
        assert(rows_view(rows@) =~= base + Seq::empty());
    }
    assert(field_rows(*f) =~~= base + (if f.hints@.len() == 0 {
        Seq::empty()
    } else {
        seq![seq!["hints"@, join(views(f.hints@), "\n"@)]]
    }));
    assert(rows_view(rows@) =~= field_rows(*f));
    Block::Table { headers: None, rows, style: TableStyle::KeyValue { title: f.name.clone() } }
}

impl Render for InfoOutcome {
    fn render(&self) -> (r: Vec<Block>)
        ensures
            blocks_view(r@) == info_blocks(*self),
    {
        let mut blocks: Vec<Block> = Vec::new();
        let ghost o = *self;
        let mut summary = usize_string(self.files_on_disk);
        push_str(&mut summary, " files, ");
        let n = usize_string(self.fields.len());
        push_str(&mut summary, n.as_str());
        push_str(&mut summary, " fields");
        if let Some(idx) = &self.index {
            push_str(&mut summary, ", ");
            let c = usize_string(idx.chunks);
            push_str(&mut summary, c.as_str());
            push_str(&mut summary, " chunks");
        }
        assert(summary@ =~= info_summary(*self));
        push_line(&mut blocks, summary);
        push_line(&mut blocks, String::new());
        push_line(&mut blocks, owned("Config:"));
        let config_rows = vec![
            kv_row("scan glob", self.scan_glob.clone()),
            kv_row("ignored fields", join_lines_or(&self.ignored_fields, "(none)")),
        ];
        assert(rows_view(config_rows@) =~= seq![
            seq!["scan glob"@, self.scan_glob@],
            seq!["ignored fields"@, lines_or(views(self.ignored_fields@), "(none)"@)],
        ]);
        push_block(&mut blocks, kv_table_block(config_rows));
        let ghost head = blocks_view(blocks@);
        if let Some(idx) = &self.index {
            let rev = match &idx.revision {
                Some(r) => r.clone(),
                None => owned("none"),
            };
            let r0 = kv_row("model", idx.model.clone());
            let r1 = kv_row("revision", rev);
            let r2 = kv_row("chunk size", usize_string(idx.chunk_size));
            let r3 = kv_row("built", idx.built_at.clone());
            let r4 = kv_row("config", idx.config_status.clone());
            let r5 = kv_row("files", out_of_string(idx.files_indexed, idx.files_on_disk));
            let rows = vec![r0, r1, r2, r3, r4, r5];
            assert(views(r1@) == seq![
                "revision"@,
                match idx.revision {
                    Some(r) => r@,
                    None => "none"@,
                },
            ]);
            assert(rows_view(rows@) =~= index_rows(*idx));
            push_line(&mut blocks, owned("Index:"));
            push_block(&mut blocks, kv_table_block(rows));
        }
        let ghost with_index = blocks_view(blocks@);
        if self.fields.len() > 0 {
            let mut line = usize_string(self.fields.len());
            push_str(&mut line, " fields:");
            push_line(&mut blocks, line);
        }
        let ghost before_fields = blocks_view(blocks@);
        let mut i: usize = 0;
        while i < self.fields.len()
            invariant
                i <= self.fields@.len(),
                blocks_view(blocks@) == before_fields + Seq::new(
                    i as nat,
                    |k: int|
                        BlockV::Table(
                            None,
                            field_rows(self.fields@[k]),
                            StyleV::KeyValue(self.fields@[k].name@),
                        ),
                ),
            decreases self.fields@.len() - i,
        {
            let t = field_table(&self.fields[i]);
            push_block(&mut blocks, t);
            i = i + 1;
            assert(blocks_view(blocks@) =~= before_fields + Seq::new(
                i as nat,
                |k: int|
                    BlockV::Table(
                        None,
                        field_rows(self.fields@[k]),
                        StyleV::KeyValue(self.fields@[k].name@),
                    ),
            ));
        }
        assert(blocks_view(blocks@) =~= info_blocks(*self));
        blocks
    }
}

} // verus!
