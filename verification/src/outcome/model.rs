//! Outcome of loading the embedding model.

use vstd::prelude::*;
use crate::block::{Block, BlockV, Render, blocks_view};
use crate::outcome::push_line;
use crate::text::{owned, push_str};

verus! {

/// Outcome of loading the embedding model.
#[derive(Debug)]
pub struct LoadModelOutcome {
    /// Name of the embedding model loaded.
    pub model_name: String,
    /// Embedding dimension.
    pub dimension: usize,
}

impl Render for LoadModelOutcome {
    fn render(&self) -> (r: Vec<Block>)
        ensures
            blocks_view(r@) == seq![BlockV::Line("Load model: "@ + self.model_name@)],
    {
        let mut s = owned("Load model: ");
        push_str(&mut s, self.model_name.as_str());
        let mut blocks: Vec<Block> = Vec::new();
        push_line(&mut blocks, s);
        assert(blocks_view(blocks@) =~= seq![BlockV::Line("Load model: "@ + self.model_name@)]);
        blocks
    }
}

} // verus!
