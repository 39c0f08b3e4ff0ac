//! The index backend's own decisions: which retrieval a search runs and how
//! many rows it asks for, which indexes a build creates, and what an
//! incremental write deletes. The table itself is reached through the
//! database client outside this library.

use vstd::prelude::*;
use crate::index::storage::COL_FILE_ID;
use crate::text::{join, join_strings, push_str, views};

verus! {

/// Name of the single denormalized table.
pub const LANCE_TABLE: &'static str = "index";

/// Minimum chunk count before the vector index is built; below it an exact
/// scan is used.
pub const VECTOR_INDEX_MIN_ROWS: usize = 10000usize;

/// To surface `n` files a search asks for `n` times this many chunk hits,
/// since several chunks may share a file.
pub const OVER_FETCH_FACTOR: usize = 3usize;

/// Retrieval mode of a search.
#[derive(Debug, Clone, Copy, PartialEq, Eq, Structural)]
pub enum SearchMode {
    /// Vector similarity only (cosine over embeddings).
    Semantic,
    /// BM25 full-text only (over the chunk text).
    Fulltext,
    /// Vector and BM25 fused by reciprocal rank fusion.
    Hybrid,
}

impl Default for SearchMode {
    fn default() -> (r: Self)
        ensures
            r == SearchMode::Hybrid,
    {
        SearchMode::Hybrid
    }
}

impl SearchMode {
    /// Whether the mode needs the query's embedding.
    pub fn needs_embedding(&self) -> (r: bool)
        ensures
            r == (*self != SearchMode::Fulltext),
    {
        match self {
            SearchMode::Fulltext => false,
            _ => true,
        }
    }

    /// The column in which the database reports a hit's score for this
    /// mode: a cosine distance for `Semantic`, a score for the others.
    pub fn score_column(&self) -> (r: &'static str)
        ensures
            r@ == score_column_name(*self),
    {
        match self {
            SearchMode::Semantic => "_distance",
            SearchMode::Fulltext => "_score",
            SearchMode::Hybrid => "_relevance_score",
        }
    }

    /// Whether a search in this mode can run with or without the query's
    /// embedding: `Semantic` and `Hybrid` refuse to run without it.
    pub fn check_embedding(&self, has_embedding: bool) -> (r: Result<(), String>)
        ensures
            r is Ok <==> (has_embedding || *self == SearchMode::Fulltext),
            r matches Err(m) ==> m@ == missing_embedding_text(*self),
    {
        if has_embedding {
            return Ok(());
        }
        match self {
            SearchMode::Semantic => Err(crate::text::owned("Semantic search requires query_embedding; got None")),
            SearchMode::Fulltext => Ok(()),
            SearchMode::Hybrid => Err(crate::text::owned("Hybrid search requires query_embedding; got None")),
        }
    }
}

/// See [`SearchMode::score_column`].
pub open spec fn score_column_name(mode: SearchMode) -> Seq<char> {
    match mode {
        SearchMode::Semantic => "_distance"@,
        SearchMode::Fulltext => "_score"@,
        SearchMode::Hybrid => "_relevance_score"@,
    }
}

/// See [`SearchMode::check_embedding`].
pub open spec fn missing_embedding_text(mode: SearchMode) -> Seq<char> {
    match mode {
        SearchMode::Semantic => "Semantic search requires query_embedding; got None"@,
        SearchMode::Fulltext => Seq::empty(),
        SearchMode::Hybrid => "Hybrid search requires query_embedding; got None"@,
    }
}

/// Summary statistics for a built index.
#[derive(Debug, Clone, Copy, PartialEq, Eq, Structural)]
pub struct IndexStats {
    /// Number of files in the index.
    pub files_indexed: usize,
    /// Total number of chunks across all files.
    pub chunks: usize,
}

/// How many chunk hits a search for `limit` files asks for: `limit` times
/// [`OVER_FETCH_FACTOR`], saturating at `usize::MAX`.
pub fn fetch_count(limit: usize) -> (k: usize)
    ensures
        k == (if limit * OVER_FETCH_FACTOR <= usize::MAX { limit * OVER_FETCH_FACTOR } else { usize::MAX as int }),
{
    if limit <= usize::MAX / OVER_FETCH_FACTOR {
        limit * OVER_FETCH_FACTOR
    } else {
        usize::MAX
    }
}

/// Which indexes a build creates.
#[derive(Debug, Clone, Copy, PartialEq, Eq, Structural)]
pub struct IndexPlan {
    /// The full-text index over the chunk text.
    pub full_text: bool,
    /// The cosine vector index over the embeddings.
    pub vector: bool,
}

/// The indexes for a table of `n_chunks` rows: none for an empty table, the
/// full-text index otherwise, and the vector index from
/// [`VECTOR_INDEX_MIN_ROWS`] rows on.
pub fn index_plan(n_chunks: usize) -> (p: IndexPlan)
    ensures
        p.full_text == (n_chunks > 0),
        p.vector == (n_chunks >= VECTOR_INDEX_MIN_ROWS),
{
    IndexPlan { full_text: n_chunks > 0, vector: n_chunks >= VECTOR_INDEX_MIN_ROWS }
}

/// `'id'`
pub open spec fn sql_quoted(id: Seq<char>) -> Seq<char> {
    seq!['\''] + id + seq!['\'']
}

/// The filter that selects the rows of the given files:
/// `file_id IN ('a', 'b', ...)`.
pub open spec fn delete_filter(ids: Seq<Seq<char>>) -> Seq<char> {
    COL_FILE_ID@ + " IN ("@ + join(ids.map_values(|id: Seq<char>| sql_quoted(id)), ", "@) + ")"@
}

/// The rows an incremental write deletes: none when no file is cleared,
/// else those that [`delete_filter`] selects. The ids are file UUIDs, so
/// they are written into the filter as they are.
pub fn delete_predicate(file_ids_to_clear: &Vec<String>) -> (r: Option<String>)
    ensures
        file_ids_to_clear@.len() == 0 ==> r is None,
        file_ids_to_clear@.len() > 0 ==> r is Some && r->0@ == delete_filter(views(file_ids_to_clear@)),
{
    if file_ids_to_clear.len() == 0 {
        return None;
    }
    let mut quoted: Vec<String> = Vec::new();
    let mut i: usize = 0;
    while i < file_ids_to_clear.len()
        invariant
            i <= file_ids_to_clear@.len(),
            views(quoted@) == views(file_ids_to_clear@).take(i as int).map_values(|id: Seq<char>| sql_quoted(id)),
        decreases file_ids_to_clear@.len() - i,
    {
        let mut q = String::new();
        crate::text::push_char(&mut q, '\'');
        push_str(&mut q, file_ids_to_clear[i].as_str());
        crate::text::push_char(&mut q, '\'');
        proof {
            crate::text::lemma_views_push(quoted@, q);
            assert(q@ =~= sql_quoted(file_ids_to_clear@[i as int]@));
            assert(views(file_ids_to_clear@).take(i + 1).map_values(|id: Seq<char>| sql_quoted(id))
                =~= views(file_ids_to_clear@).take(i as int).map_values(|id: Seq<char>| sql_quoted(id)).push(q@));
        }
        quoted.push(q);
        i = i + 1;
    }
    assert(views(file_ids_to_clear@).take(i as int) =~= views(file_ids_to_clear@));
    let list = join_strings(&quoted, ", ");
    let mut p = String::new();
    push_str(&mut p, COL_FILE_ID);
    push_str(&mut p, " IN (");
    push_str(&mut p, list.as_str());
    push_str(&mut p, ")");
    Some(p)
}

} // verus!
