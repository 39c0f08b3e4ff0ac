//! Outcome types of the pipeline steps and commands, and how each one is
//! shown as blocks.

use vstd::prelude::*;
use crate::block::{Block, BlockV, block_view, blocks_view, lemma_blocks_view_push};
use crate::text::{owned, views};

/// Outcomes of the index steps (delete, read, write).
pub mod index;
/// Outcome of loading the embedding model.
pub mod model;
/// Outcome of validating frontmatter.
pub mod validate;
/// Outcomes of whole commands.
pub mod commands;

verus! {

/// A two-cell key-value row.
pub(crate) fn kv_row(key: &str, value: String) -> (r: Vec<String>)
    ensures
        views(r@) == seq![key@, value@],
{
    let mut r: Vec<String> = Vec::new();
    r.push(owned(key));
    r.push(value);
    assert(views(r@) =~= seq![key@, value@]);
    r
}

/// Appends a line block.
pub(crate) fn push_line(blocks: &mut Vec<Block>, s: String)
    ensures
        blocks_view(final(blocks)@) == blocks_view(old(blocks)@).push(BlockV::Line(s@)),
{
    let b = Block::Line(s);
    proof {
        lemma_blocks_view_push(blocks@, b);
    }
    blocks.push(b);
}

/// Appends a block.
pub(crate) fn push_block(blocks: &mut Vec<Block>, b: Block)
    ensures
        blocks_view(final(blocks)@) == blocks_view(old(blocks)@).push(block_view(b)),
{
    proof {
        lemma_blocks_view_push(blocks@, b);
    }
    blocks.push(b);
}

} // verus!
