//! Outcomes of whole commands.

/// Outcome of `build`.
pub mod build_outcome;
/// Outcome of `export-jsonschema`.
pub mod export_jsonschema;
/// Outcome of `info`.
pub mod info;
