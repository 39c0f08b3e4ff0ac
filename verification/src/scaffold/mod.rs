//! Agent-harness scaffolding: per-platform configuration and the
//! placeholder substitution used to build hook envelopes and configs.

/// Per-platform configuration shapes.
pub mod platform;
/// `<<NAME>>` placeholder substitution in JSON templates.
pub mod template;
