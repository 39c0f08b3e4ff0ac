//! Outcome of the `build` command.

use vstd::prelude::*;
use crate::block::{Block, BlockV, Render, StyleV, TableStyle, block_view, blocks_view, rows_view};
use crate::outcome::{kv_row, push_block, push_line};
use crate::output::{BuildFileDetail, NewField, chunk_count, file_count, format_chunk_count, format_file_count, join_lines_or, lines_or};
use crate::text::{bool_string, decimal, lemma_views_push, owned, push_str, usize_string, views};

verus! {

/// Outcome of the `build` command.
#[derive(Debug)]
pub struct BuildOutcome {
    /// Whether this was a full rebuild (vs incremental).
    pub full_rebuild: bool,
    /// Total number of files in the final index.
    pub files_total: usize,
    /// Number of files that were chunked and embedded this run.
    pub files_embedded: usize,
    /// Number of files reused from the previous index.
    pub files_unchanged: usize,
    /// Number of files removed since the last build.
    pub files_removed: usize,
    /// Total number of chunks in the final index.
    pub chunks_total: usize,
    /// Number of chunks produced by newly embedded files.
    pub chunks_embedded: usize,
    /// Number of chunks retained from unchanged files.
    pub chunks_unchanged: usize,
    /// Number of chunks dropped from removed files.
    pub chunks_removed: usize,
    /// Fields found in frontmatter but not yet in `mdvs.toml`.
    pub new_fields: Vec<NewField>,
    /// Per-file chunk counts for embedded files.
    pub embedded_files: Vec<BuildFileDetail>,
    /// Per-file chunk counts for removed files.
    pub removed_files: Vec<BuildFileDetail>,
}

/// `true` or `false`.
pub open spec fn bool_text(b: bool) -> Seq<char> {
    if b {
        "true"@
    } else {
        "false"@
    }
}

/// A new field with the number of files it was found in.
pub open spec fn new_field_item(nf: NewField) -> Seq<char> {
    nf.name@ + " ("@ + file_count(nf.files_found as nat) + ")"@
}

/// A file with its chunk count.
pub open spec fn file_detail_item(f: BuildFileDetail) -> Seq<char> {
    f.filename@ + " ("@ + chunk_count(f.chunks as nat) + ")"@
}

/// The summary line of a build.
pub open spec fn build_summary(o: BuildOutcome) -> Seq<char> {
    "Built index — "@ + file_count(o.files_total as nat) + ", "@ + chunk_count(o.chunks_total as nat)
        + (if o.full_rebuild {
        " (full rebuild)"@
    } else {
        Seq::empty()
    })
}

/// The key-value rows of a build: every count, and the new fields one per
/// line (or `(none)`).
pub open spec fn build_rows(o: BuildOutcome) -> Seq<Seq<Seq<char>>> {
    seq![
        seq!["full rebuild"@, bool_text(o.full_rebuild)],
        seq!["files total"@, decimal(o.files_total as nat)],
        seq!["files embedded"@, decimal(o.files_embedded as nat)],
        seq!["files unchanged"@, decimal(o.files_unchanged as nat)],
        seq!["files removed"@, decimal(o.files_removed as nat)],
        seq!["chunks total"@, decimal(o.chunks_total as nat)],
        seq!["chunks embedded"@, decimal(o.chunks_embedded as nat)],
        seq!["chunks unchanged"@, decimal(o.chunks_unchanged as nat)],
        seq!["chunks removed"@, decimal(o.chunks_removed as nat)],
        seq![
            "new fields"@,
            lines_or(
                Seq::new(o.new_fields@.len(), |i: int| new_field_item(o.new_fields@[i])),
                "(none)"@,
            ),
        ],
    ]
}

/// One line per file.
pub open spec fn detail_lines(fs: Seq<BuildFileDetail>) -> Seq<BlockV> {
    Seq::new(fs.len(), |i: int| BlockV::Line(file_detail_item(fs[i])))
}

/// A labelled list of files, left out when there are none.
pub open spec fn file_section(label: Seq<char>, fs: Seq<BuildFileDetail>) -> Seq<BlockV> {
    if fs.len() == 0 {
        Seq::empty()
    } else {
        seq![BlockV::Section(label, detail_lines(fs))]
    }
}

/// The blocks that show a build: the summary line, an empty line, the
/// key-value table, then the embedded and removed files as sections (each
/// only when it has files).
pub open spec fn build_blocks(o: BuildOutcome) -> Seq<BlockV> {
    seq![
        BlockV::Line(build_summary(o)),
        BlockV::Line(Seq::empty()),
        BlockV::Table(None, build_rows(o), StyleV::KeyValue(Seq::empty())),
    ] + file_section("embedded files"@, o.embedded_files@) + file_section(
        "removed files"@,
        o.removed_files@,
    )
}

fn new_field_items(nfs: &Vec<NewField>) -> (r: Vec<String>)
    ensures
        views(r@) == Seq::new(nfs@.len(), |i: int| new_field_item(nfs@[i])),
{
    let mut r: Vec<String> = Vec::new();
    let mut i: usize = 0;
    while i < nfs.len()
        invariant
            i <= nfs@.len(),
            views(r@) == Seq::new(i as nat, |k: int| new_field_item(nfs@[k])),
        decreases nfs@.len() - i,
    {
        let mut s = nfs[i].name.clone();
        push_str(&mut s, " (");
        let c = format_file_count(nfs[i].files_found);
        push_str(&mut s, c.as_str());
        push_str(&mut s, ")");
        proof {
            lemma_views_push(r@, s);
        }
        r.push(s);
        i = i + 1;
        assert(views(r@) =~= Seq::new(i as nat, |k: int| new_field_item(nfs@[k])));
    }
    r
}

fn detail_blocks(fs: &Vec<BuildFileDetail>) -> (r: Vec<Block>)
    ensures
        blocks_view(r@) == detail_lines(fs@),
{
    let mut r: Vec<Block> = Vec::new();
    let mut i: usize = 0;
    assert(blocks_view(r@) =~= Seq::<BlockV>::empty());
    while i < fs.len()
        invariant
            i <= fs@.len(),
            blocks_view(r@) == detail_lines(fs@.take(i as int)),
        decreases fs@.len() - i,
    {
        let mut s = fs[i].filename.clone();
        push_str(&mut s, " (");
        let c = format_chunk_count(fs[i].chunks);
        push_str(&mut s, c.as_str());
        push_str(&mut s, ")");
        push_line(&mut r, s);
        i = i + 1;
        assert(blocks_view(r@) =~= detail_lines(fs@.take(i as int)));
    }
    assert(fs@.take(fs@.len() as int) =~= fs@);
    r
}

fn push_file_section(blocks: &mut Vec<Block>, label: &str, fs: &Vec<BuildFileDetail>)
    ensures
        blocks_view(final(blocks)@) == blocks_view(old(blocks)@) + file_section(label@, fs@),
{
    if fs.len() > 0 {
        let children = detail_blocks(fs);
        push_block(blocks, Block::Section { label: owned(label), children });
    } else {
        assert(blocks_view(blocks@) =~= blocks_view(blocks@) + Seq::<BlockV>::empty());
    }
}

impl Render for BuildOutcome {
    fn render(&self) -> (r: Vec<Block>)
        ensures
            blocks_view(r@) == build_blocks(*self),
    {
        let mut blocks: Vec<Block> = Vec::new();
        let mut summary = owned("Built index — ");
        let files = format_file_count(self.files_total);
        push_str(&mut summary, files.as_str());
        push_str(&mut summary, ", ");
        let chunks = format_chunk_count(self.chunks_total);
        push_str(&mut summary, chunks.as_str());
        if self.full_rebuild {
            push_str(&mut summary, " (full rebuild)");
        }
        push_line(&mut blocks, summary);
        push_line(&mut blocks, String::new());
        let items = new_field_items(&self.new_fields);
        let new_fields = join_lines_or(&items, "(none)");
        let rows = vec![
            kv_row("full rebuild", bool_string(self.full_rebuild)),
            kv_row("files total", usize_string(self.files_total)),
            kv_row("files embedded", usize_string(self.files_embedded)),
            kv_row("files unchanged", usize_string(self.files_unchanged)),
            kv_row("files removed", usize_string(self.files_removed)),
            kv_row("chunks total", usize_string(self.chunks_total)),
            kv_row("chunks embedded", usize_string(self.chunks_embedded)),
            kv_row("chunks unchanged", usize_string(self.chunks_unchanged)),
            kv_row("chunks removed", usize_string(self.chunks_removed)),
            kv_row("new fields", new_fields),
        ];
        assert(rows_view(rows@) =~= build_rows(*self));
        let table = Block::Table {
            headers: None,
            rows,
            style: TableStyle::KeyValue { title: String::new() },
        };
        assert(block_view(table) == BlockV::Table(
            None,
            build_rows(*self),
            StyleV::KeyValue(Seq::empty()),
        ));
        push_block(&mut blocks, table);
        push_file_section(&mut blocks, "embedded files", &self.embedded_files);
        push_file_section(&mut blocks, "removed files", &self.removed_files);
        assert(blocks_view(blocks@) =~= build_blocks(*self));
        blocks
    }
}

} // verus!
