//! Indexing: embedding models and the metadata stored with an index.

/// Embedding model selection and the deterministic mock embedder.
pub mod embed;
/// Build metadata, content hashing and the storage shape of frontmatter.
pub mod storage;
/// Frontmatter as typed columns.
pub mod columns;
/// The `--where` filter rewritten for the index table.
pub mod where_clause;
/// Retrieval modes, index plans and the other decisions of the backend.
pub mod backend;
/// Translating a translated `--where` clause again.
pub mod where_twice;
