//! mdvs — Markdown Validation & Search: the verified core.
//!
//! Schema types and their parser, config validation, preprocessing
//! inference, block rendering and build metadata.

pub mod field_type;
pub mod text;
pub mod keyed;
pub mod json;
pub mod schema;
pub mod preprocess;
pub mod block;
pub mod render;
pub mod table;
pub mod output;
pub mod outcome;
pub mod index;
pub mod scaffold;
