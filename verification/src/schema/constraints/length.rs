//! Length constraint: config-time validation for `min_length` / `max_length`.
//!
//! Per-value validation is delegated to JSON Schema; this module only checks
//! that the constraint applies to the field type and is well-formed.

use vstd::prelude::*;
use crate::field_type::{FieldType, FieldTypeV, field_type_name, kind_name};
use crate::preprocess::is_or_array_of;
use crate::text::{decimal, decimal_string, owned, push_str};

verus! {

/// `field '<name>': `, the prefix of every config error about a field.
pub open spec fn field_prefix(name: Seq<char>) -> Seq<char> {
    "field '"@ + name + "': "@
}

/// A fresh string holding `field '<name>': `.
pub fn field_prefix_string(name: &str) -> (r: String)
    ensures
        r@ == field_prefix(name@),
{
    let mut r = owned("field '");
    push_str(&mut r, name);
    push_str(&mut r, "': ");
    r
}

/// The error for a length constraint on a field, if any.
///
/// - Only String and Array(String) fields.
/// - At least one of `min` / `max` must be set.
/// - If both are present, `min` must be at most `max`.
pub open spec fn length_error(
    name: Seq<char>,
    t: FieldTypeV,
    min: Option<u64>,
    max: Option<u64>,
) -> Option<Seq<char>> {
    if !is_or_array_of(t, FieldTypeV::String) {
        Some(
            field_prefix(name) + "length constraint does not apply to "@ + kind_name(t)
                + " fields — only String and Array(String) are supported"@,
        )
    } else if min is None && max is None {
        Some(field_prefix(name) + "length constraint must have min_length or max_length set"@)
    } else {
        match (min, max) {
            (Some(lo), Some(hi)) => if lo > hi {
                Some(
                    field_prefix(name) + "min_length ("@ + decimal(lo as nat)
                        + ") is greater than max_length ("@ + decimal(hi as nat) + ")"@,
                )
            } else {
                None
            },
            _ => None,
        }
    }
}

pub(crate) fn is_string_or_array_of_string(t: &FieldType) -> (b: bool)
    ensures
        b == is_or_array_of(t@, FieldTypeV::String),
{
    match t {
        FieldType::String => true,
        FieldType::Array(inner) => crate::preprocess::is_string(inner),
        _ => false,
    }
}

/// Check that `min_length` / `max_length` are applicable to `field_type`
/// and well-formed; the error message when they are not.
pub fn validate_for_type(
    field_name: &str,
    field_type: &FieldType,
    min: Option<u64>,
    max: Option<u64>,
) -> (r: Option<String>)
    ensures
        match r {
            Some(e) => length_error(field_name@, field_type@, min, max) == Some(e@),
            None => length_error(field_name@, field_type@, min, max) is None,
        },
{
    if !is_string_or_array_of_string(field_type) {
        let mut m = field_prefix_string(field_name);
        push_str(&mut m, "length constraint does not apply to ");
        push_str(&mut m, field_type_name(field_type));
        push_str(&mut m, " fields — only String and Array(String) are supported");
        return Some(m);
    }
    if min.is_none() && max.is_none() {
        let mut m = field_prefix_string(field_name);
        push_str(&mut m, "length constraint must have min_length or max_length set");
        return Some(m);
    }
    if let (Some(lo), Some(hi)) = (min, max) {
        if lo > hi {
            let mut m = field_prefix_string(field_name);
            push_str(&mut m, "min_length (");
            let a = decimal_string(lo);
            push_str(&mut m, a.as_str());
            push_str(&mut m, ") is greater than max_length (");
            let b = decimal_string(hi);
            push_str(&mut m, b.as_str());
            push_str(&mut m, ")");
            return Some(m);
        }
    }
    None
}

} // verus!
