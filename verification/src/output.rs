//! Shared pieces of command output: counted nouns, byte sizes, and the
//! small records that several outcomes list.

use vstd::prelude::*;
use crate::text::{decimal, join, join_strings, owned, push_str, usize_string, decimal_string, views};

verus! {

/// A field seen in frontmatter that `mdvs.toml` does not define yet.
#[derive(Debug)]
pub struct NewField {
    /// Field name.
    pub name: String,
    /// Number of files the field was found in.
    pub files_found: usize,
}

/// Chunk count of one file touched by a build.
#[derive(Debug)]
pub struct BuildFileDetail {
    /// Path of the file, relative to the project root.
    pub filename: String,
    /// Number of chunks the file has.
    pub chunks: usize,
}

/// One frontmatter value that broke a rule of the schema.
#[derive(Debug)]
pub struct FieldViolation {
    /// Field name.
    pub field: String,
    /// The rule that was broken.
    pub rule: String,
    /// Path of the file holding the value.
    pub file: String,
}

/// `n` followed by a noun, singular for exactly one.
pub open spec fn counted(n: nat, singular: Seq<char>, plural: Seq<char>) -> Seq<char> {
    decimal(n) + " "@ + (if n == 1 {
        singular
    } else {
        plural
    })
}

/// "1 file", "2 files", ...
pub open spec fn file_count(n: nat) -> Seq<char> {
    counted(n, "file"@, "files"@)
}

/// "1 chunk", "2 chunks", ...
pub open spec fn chunk_count(n: nat) -> Seq<char> {
    counted(n, "chunk"@, "chunks"@)
}

fn counted_string(n: usize, singular: &str, plural: &str) -> (r: String)
    ensures
        r@ == counted(n as nat, singular@, plural@),
{
    let mut r = usize_string(n);
    push_str(&mut r, " ");
    if n == 1 {
        push_str(&mut r, singular);
    } else {
        push_str(&mut r, plural);
    }
    r
}

/// A file count with its noun: "1 file", "3 files".
pub fn format_file_count(n: usize) -> (r: String)
    ensures
        r@ == file_count(n as nat),
{
    counted_string(n, "file", "files")
}

/// A chunk count with its noun: "1 chunk", "3 chunks".
pub fn format_chunk_count(n: usize) -> (r: String)
    ensures
        r@ == chunk_count(n as nat),
{
    counted_string(n, "chunk", "chunks")
}

/// `bytes` in `unit`s with one decimal, rounded down: "1.5".
pub open spec fn scaled(bytes: nat, unit: nat) -> Seq<char> {
    decimal(bytes / unit) + "."@ + decimal((bytes % unit) * 10 / unit)
}

/// A byte count for people: plain bytes below 1 KiB, else KB, MB or GB
/// (binary multiples) with one decimal, rounded down.
pub open spec fn size_text(bytes: nat) -> Seq<char> {
    if bytes < 1024 {
        decimal(bytes) + " B"@
    } else if bytes < 1048576 {
        scaled(bytes, 1024) + " KB"@
    } else if bytes < 1073741824 {
        scaled(bytes, 1048576) + " MB"@
    } else {
        scaled(bytes, 1073741824) + " GB"@
    }
}

fn scaled_string(bytes: u64, unit: u64) -> (r: String)
    requires
        0 < unit <= 1073741824,
    ensures
        r@ == scaled(bytes as nat, unit as nat),
{
    let whole = bytes / unit;
    let rest = bytes % unit;
    assert(rest * 10 <= 10737418240) by (nonlinear_arith)
        requires
            rest < unit,
            unit <= 1073741824,
    ;
    let tenth = (rest * 10) / unit;
    let mut r = decimal_string(whole);
    push_str(&mut r, ".");
    let t = decimal_string(tenth);
    push_str(&mut r, t.as_str());
    r
}

/// A byte count for people: "512 B", "1.0 KB", "2.5 MB", "1.2 GB".
pub fn format_size(bytes: u64) -> (r: String)
    ensures
        r@ == size_text(bytes as nat),
{
    let mut r = if bytes < 1024 {
        decimal_string(bytes)
    } else if bytes < 1048576 {
        scaled_string(bytes, 1024)
    } else if bytes < 1073741824 {
        scaled_string(bytes, 1048576)
    } else {
        scaled_string(bytes, 1073741824)
    };
    if bytes < 1024 {
        push_str(&mut r, " B");
    } else if bytes < 1048576 {
        push_str(&mut r, " KB");
    } else if bytes < 1073741824 {
        push_str(&mut r, " MB");
    } else {
        push_str(&mut r, " GB");
    }
    r
}

/// Hints about a field, one per line.
pub fn format_hints(hints: &Vec<String>) -> (r: String)
    ensures
        r@ == join(views(hints@), "\n"@),
{
    join_strings(hints, "\n")
}

/// `items` one per line, or `none` when there are none.
pub open spec fn lines_or(items: Seq<Seq<char>>, none: Seq<char>) -> Seq<char> {
    if items.len() == 0 {
        none
    } else {
        join(items, "\n"@)
    }
}

/// `items` one per line, or `none` when there are none.
pub fn join_lines_or(items: &Vec<String>, none: &str) -> (r: String)
    ensures
        r@ == lines_or(views(items@), none@),
{
    if items.len() == 0 {
        owned(none)
    } else {
        join_strings(items, "\n")
    }
}

} // verus!
