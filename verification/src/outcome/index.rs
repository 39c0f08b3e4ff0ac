//! Outcomes of the index steps: deleting, reading and writing the index.

use vstd::prelude::*;
use crate::block::{Block, BlockV, Render, blocks_view};
use crate::outcome::push_line;
use crate::output::{file_count, format_file_count, format_size, size_text};
use crate::text::{decimal, owned, push_str, usize_string};

verus! {

/// Outcome of deleting the index.
#[derive(Debug)]
pub struct DeleteIndexOutcome {
    /// Whether `.mdvs/` existed and was removed.
    pub removed: bool,
    /// Path to the `.mdvs/` directory.
    pub path: String,
    /// Number of files removed.
    pub files_removed: usize,
    /// Total bytes freed.
    pub size_bytes: u64,
}

/// The one line that shows a [`DeleteIndexOutcome`].
pub open spec fn delete_index_line(o: DeleteIndexOutcome) -> Seq<char> {
    if o.removed {
        "Delete index: "@ + o.path@ + " ("@ + file_count(o.files_removed as nat) + ", "@ + size_text(
            o.size_bytes as nat,
        ) + ")"@
    } else {
        "Delete index: "@ + o.path@ + " does not exist"@
    }
}

impl Render for DeleteIndexOutcome {
    fn render(&self) -> (r: Vec<Block>)
        ensures
            blocks_view(r@) == seq![BlockV::Line(delete_index_line(*self))],
    {
        let mut s = owned("Delete index: ");
        push_str(&mut s, self.path.as_str());
        if self.removed {
            push_str(&mut s, " (");
            let files = format_file_count(self.files_removed);
            push_str(&mut s, files.as_str());
            push_str(&mut s, ", ");
            let size = format_size(self.size_bytes);
            push_str(&mut s, size.as_str());
            push_str(&mut s, ")");
        } else {
            push_str(&mut s, " does not exist");
        }
        let mut blocks: Vec<Block> = Vec::new();
        push_line(&mut blocks, s);
        assert(blocks_view(blocks@) =~= seq![BlockV::Line(delete_index_line(*self))]);
        blocks
    }
}

/// Outcome of reading the index.
#[derive(Debug)]
pub struct ReadIndexOutcome {
    /// Whether the index exists.
    pub exists: bool,
    /// Number of files in the index (0 if not exists).
    pub files_indexed: usize,
    /// Number of chunks in the index (0 if not exists).
    pub chunks: usize,
}

/// The one line that shows a [`ReadIndexOutcome`].
pub open spec fn read_index_line(o: ReadIndexOutcome) -> Seq<char> {
    if o.exists {
        "Read index: "@ + decimal(o.files_indexed as nat) + " files, "@ + decimal(o.chunks as nat)
            + " chunks"@
    } else {
        "Read index: not found"@
    }
}

impl Render for ReadIndexOutcome {
    fn render(&self) -> (r: Vec<Block>)
        ensures
            blocks_view(r@) == seq![BlockV::Line(read_index_line(*self))],
    {
        let s = if self.exists {
            let mut s = owned("Read index: ");
            let files = usize_string(self.files_indexed);
            push_str(&mut s, files.as_str());
            push_str(&mut s, " files, ");
            let chunks = usize_string(self.chunks);
            push_str(&mut s, chunks.as_str());
            push_str(&mut s, " chunks");
            s
        } else {
            owned("Read index: not found")
        };
        let mut blocks: Vec<Block> = Vec::new();
        push_line(&mut blocks, s);
        assert(blocks_view(blocks@) =~= seq![BlockV::Line(read_index_line(*self))]);
        blocks
    }
}

/// Outcome of writing the index.
#[derive(Debug)]
pub struct WriteIndexOutcome {
    /// Number of files written.
    pub files_written: usize,
    /// Number of chunks written.
    pub chunks_written: usize,
}

/// The one line that shows a [`WriteIndexOutcome`].
pub open spec fn write_index_line(o: WriteIndexOutcome) -> Seq<char> {
    "Write index: "@ + decimal(o.files_written as nat) + " files, "@ + decimal(
        o.chunks_written as nat,
    ) + " chunks"@
}

impl Render for WriteIndexOutcome {
    fn render(&self) -> (r: Vec<Block>)
        ensures
            blocks_view(r@) == seq![BlockV::Line(write_index_line(*self))],
    {
        let mut s = owned("Write index: ");
        let files = usize_string(self.files_written);
        push_str(&mut s, files.as_str());
        push_str(&mut s, " files, ");
        let chunks = usize_string(self.chunks_written);
        push_str(&mut s, chunks.as_str());
        push_str(&mut s, " chunks");
        let mut blocks: Vec<Block> = Vec::new();
        push_line(&mut blocks, s);
        assert(blocks_view(blocks@) =~= seq![BlockV::Line(write_index_line(*self))]);
        blocks
    }
}

} // verus!
