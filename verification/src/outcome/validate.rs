//! Outcome of validating frontmatter.

use vstd::prelude::*;
use crate::block::{Block, BlockV, Render, blocks_view};
use crate::outcome::push_line;
use crate::output::{FieldViolation, NewField, file_count, format_file_count};
use crate::text::{decimal, owned, push_str, usize_string};

verus! {

/// Outcome of validating frontmatter.
#[derive(Debug)]
pub struct ValidateOutcome {
    /// Number of markdown files validated.
    pub files_checked: usize,
    /// Violations found during validation.
    pub violations: Vec<FieldViolation>,
    /// Fields found in frontmatter but not defined in `mdvs.toml`.
    pub new_fields: Vec<NewField>,
}

/// The one line that shows a [`ValidateOutcome`].
pub open spec fn validate_line(o: ValidateOutcome) -> Seq<char> {
    "Validate: "@ + file_count(o.files_checked as nat) + " — "@ + (if o.violations@.len() == 0 {
        "no violations"@
    } else {
        decimal(o.violations@.len()) + " violation(s)"@
    })
}

impl Render for ValidateOutcome {
    fn render(&self) -> (r: Vec<Block>)
        ensures
            blocks_view(r@) == seq![BlockV::Line(validate_line(*self))],
    {
        let mut s = owned("Validate: ");
        let files = format_file_count(self.files_checked);
        push_str(&mut s, files.as_str());
        push_str(&mut s, " — ");
        if self.violations.len() == 0 {
            push_str(&mut s, "no violations");
        } else {
            let n = usize_string(self.violations.len());
            push_str(&mut s, n.as_str());
            push_str(&mut s, " violation(s)");
        }
        assert(s@ =~= validate_line(*self));
        let mut blocks: Vec<Block> = Vec::new();
        push_line(&mut blocks, s);
        assert(blocks_view(blocks@) =~= seq![BlockV::Line(validate_line(*self))]);
        blocks
    }
}

} // verus!
