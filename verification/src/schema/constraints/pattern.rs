//! Pattern constraint: config-time validation for `pattern` (a regex).
//!
//! Per-value validation is delegated to JSON Schema; this module only checks
//! that the constraint applies to the field type and that the regex compiles.

use vstd::prelude::*;
use crate::field_type::{FieldType, FieldTypeV, field_type_name, kind_name};
use crate::preprocess::is_or_array_of;
use crate::schema::constraints::length::{field_prefix, field_prefix_string, is_string_or_array_of_string};
use crate::text::push_str;

verus! {

/// What `regex::Regex::new(pattern)` reports: `None` when the pattern
/// compiles, else the text of its error.
pub uninterp spec fn regex_new_error(pattern: Seq<char>) -> Option<Seq<char>>;

/// Compiles `pattern` with `regex::Regex::new` and reports the error's
/// `Display` text when it does not compile. The contract only ties the
/// outcome to the pattern through [`regex_new_error`].
#[verifier::external_body]
fn regex_compile_error(pattern: &str) -> (r: Option<String>)
    ensures
        match r {
            None => regex_new_error(pattern@) is None,
            Some(e) => regex_new_error(pattern@) == Some(e@),
        },
{
    match regex::Regex::new(pattern) {
        Ok(_) => None,
        Err(e) => Some(e.to_string()),
    }
}

/// The error for a pattern constraint on a field, if any.
///
/// - Only String and Array(String) fields.
/// - The pattern must compile as a regex.
pub open spec fn pattern_error(name: Seq<char>, t: FieldTypeV, pattern: Seq<char>) -> Option<
    Seq<char>,
> {
    if !is_or_array_of(t, FieldTypeV::String) {
        Some(
            field_prefix(name) + "pattern constraint does not apply to "@ + kind_name(t)
                + " fields — only String and Array(String) are supported"@,
        )
    } else {
        match regex_new_error(pattern) {
            Some(e) => Some(field_prefix(name) + "pattern is not a valid regex: "@ + e),
            None => None,
        }
    }
}

/// Check that `pattern` is applicable to `field_type` and compiles as a
/// regex; the error message when it is not.
pub fn validate_for_type(field_name: &str, field_type: &FieldType, pattern: &str) -> (r: Option<
    String,
>)
    ensures
        match r {
            Some(e) => pattern_error(field_name@, field_type@, pattern@) == Some(e@),
            None => pattern_error(field_name@, field_type@, pattern@) is None,
        },
{
    if !is_string_or_array_of_string(field_type) {
        let mut m = field_prefix_string(field_name);
        push_str(&mut m, "pattern constraint does not apply to ");
        push_str(&mut m, field_type_name(field_type));
        push_str(&mut m, " fields — only String and Array(String) are supported");
        return Some(m);
    }
    match regex_compile_error(pattern) {
        Some(e) => {
            let mut m = field_prefix_string(field_name);
            push_str(&mut m, "pattern is not a valid regex: ");
            push_str(&mut m, e.as_str());
            Some(m)
        },
        None => None,
    }
}

} // verus!
