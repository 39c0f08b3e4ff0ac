//! Outcome of the `export-jsonschema` command.

use vstd::prelude::*;
use crate::block::{Block, BlockV, Render, blocks_view};
use crate::outcome::push_line;
use crate::text::{decimal, owned, push_str, usize_string};

verus! {

/// Output format of an exported schema.
#[derive(Debug, Clone, Copy, PartialEq, Eq)]
pub enum ExportFormat {
    /// Pretty-printed JSON.
    Json,
    /// TOML encoding of the JSON Schema.
    Toml,
}

/// The lowercase name of a format.
pub open spec fn format_name(f: ExportFormat) -> Seq<char> {
    match f {
        ExportFormat::Json => "json"@,
        ExportFormat::Toml => "toml"@,
    }
}

impl ExportFormat {
    /// The lowercase name of the format, as shown and as given on the
    /// command line.
    pub fn to_string(&self) -> (r: String)
        ensures
            r@ == format_name(*self),
    {
        match self {
            ExportFormat::Json => owned("json"),
            ExportFormat::Toml => owned("toml"),
        }
    }
}

/// Outcome of the `export-jsonschema` command.
#[derive(Debug)]
pub struct ExportJsonschemaOutcome {
    /// Path of the `mdvs.toml` that was read.
    pub source: String,
    /// Where the schema was written. `None` means stdout.
    pub destination: Option<String>,
    /// Format of the emitted schema.
    pub format: ExportFormat,
    /// Number of `[[fields.field]]` entries exported.
    pub fields_exported: usize,
    /// Number of `[fields].ignore` entries exported as empty schemas.
    pub ignore_exported: usize,
}

/// The one line that shows an [`ExportJsonschemaOutcome`].
pub open spec fn export_line(o: ExportJsonschemaOutcome) -> Seq<char> {
    "Exported "@ + decimal(o.fields_exported as nat) + " field(s) + "@ + decimal(
        o.ignore_exported as nat,
    ) + " ignored ("@ + format_name(o.format) + ") "@ + (match o.destination {
        Some(p) => "to '"@ + p@ + "'"@,
        None => "to stdout"@,
    }) + "."@
}

impl Render for ExportJsonschemaOutcome {
    fn render(&self) -> (r: Vec<Block>)
        ensures
            blocks_view(r@) == seq![BlockV::Line(export_line(*self))],
    {
        let mut s = owned("Exported ");
        let fields = usize_string(self.fields_exported);
        push_str(&mut s, fields.as_str());
        push_str(&mut s, " field(s) + ");
        let ignored = usize_string(self.ignore_exported);
        push_str(&mut s, ignored.as_str());
        push_str(&mut s, " ignored (");
        let format = self.format.to_string();
        push_str(&mut s, format.as_str());
        push_str(&mut s, ") ");
        match &self.destination {
            Some(p) => {
                push_str(&mut s, "to '");
                push_str(&mut s, p.as_str());
                push_str(&mut s, "'");
            },
            None => {
                push_str(&mut s, "to stdout");
            },
        }
        push_str(&mut s, ".");
        assert(s@ =~= export_line(*self));
        let mut blocks: Vec<Block> = Vec::new();
        push_line(&mut blocks, s);
        assert(blocks_view(blocks@) =~= seq![BlockV::Line(export_line(*self))]);
        blocks
    }
}

} // verus!
