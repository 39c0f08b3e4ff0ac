//! Categories constraint: config-time validation for `categories = [...]`.
//!
//! Per-value validation is delegated to JSON Schema; this module only checks
//! that the constraint applies to the field type and that every category
//! value has the field's element type.

use vstd::prelude::*;
use crate::field_type::{FieldType, FieldTypeV, field_type_name, kind_name};
use crate::schema::constraints::length::{field_prefix, field_prefix_string};
use crate::schema::toml_value::{TomlV, TomlValue, toml_items_view, lemma_toml_items_view, toml_text};
use crate::text::{decimal, push_str, usize_string};

verus! {

/// Field types whose categories are strings (dates are strings on disk).
pub open spec fn is_string_like(t: FieldTypeV) -> bool {
    t == FieldTypeV::String || t == FieldTypeV::Date || t == FieldTypeV::DateTime
}

/// Whether a category value has the element kind (`Integer` or `String`).
pub open spec fn category_fits(v: TomlV, integer: bool) -> bool {
    if integer {
        v is Integer
    } else {
        v is String
    }
}

/// Index of the first value from `i` on that does not fit, if any.
pub open spec fn first_misfit(values: Seq<TomlV>, integer: bool, i: int) -> Option<int>
    decreases values.len() - i,
{
    if i < 0 || i >= values.len() {
        None
    } else if !category_fits(values[i], integer) {
        Some(i)
    } else {
        first_misfit(values, integer, i + 1)
    }
}

/// The error for a list of categories whose element kind is known.
pub open spec fn values_error(name: Seq<char>, values: Seq<TomlV>, integer: bool) -> Option<
    Seq<char>,
> {
    if values.len() == 0 {
        Some(field_prefix(name) + "categories list must not be empty"@)
    } else {
        match first_misfit(values, integer, 0) {
            Some(i) => Some(
                field_prefix(name) + "category value at index "@ + decimal(i as nat) + " ("@
                    + toml_text(values[i]) + ") does not match field type "@ + (if integer {
                    "Integer"@
                } else {
                    "String"@
                }),
            ),
            None => None,
        }
    }
}

/// The error for a categories constraint on a field, if any.
pub open spec fn categories_error(name: Seq<char>, t: FieldTypeV, values: Seq<TomlV>) -> Option<
    Seq<char>,
> {
    match t {
        FieldTypeV::Array(inner) => if is_string_like(*inner) {
            values_error(name, values, false)
        } else if *inner == FieldTypeV::Integer {
            values_error(name, values, true)
        } else {
            Some(
                field_prefix(name) + "categories constraint does not apply to Array("@ + kind_name(
                    *inner,
                ) + ") fields — only Array(String), Array(Integer), Array(Date), and Array(DateTime) are supported"@,
            )
        },
        _ => if is_string_like(t) {
            values_error(name, values, false)
        } else if t == FieldTypeV::Integer {
            values_error(name, values, true)
        } else {
            Some(
                field_prefix(name) + "categories constraint does not apply to "@ + kind_name(t)
                    + " fields — only String, Integer, Date, DateTime, Array(String), Array(Integer), Array(Date), and Array(DateTime) are supported"@,
            )
        },
    }
}

/// 0 = string-like, 1 = integer, 2 = anything else.
fn element_class(t: &FieldType) -> (c: u8)
    ensures
        c == 0 <==> is_string_like(t@),
        c == 1 <==> t@ == FieldTypeV::Integer,
        c <= 2,
{
    match t {
        FieldType::String | FieldType::Date | FieldType::DateTime => 0,
        FieldType::Integer => 1,
        _ => 2,
    }
}

fn check_values(field_name: &str, values: &Vec<TomlValue>, integer: bool) -> (r: Option<String>)
    ensures
        match r {
            Some(e) => values_error(field_name@, toml_items_view(values@), integer) == Some(e@),
            None => values_error(field_name@, toml_items_view(values@), integer) is None,
        },
{
    let ghost vs = toml_items_view(values@);
    proof {
        lemma_toml_items_view(values@);
    }
    if values.len() == 0 {
        let mut m = field_prefix_string(field_name);
        push_str(&mut m, "categories list must not be empty");
        return Some(m);
    }
    let mut i: usize = 0;
    while i < values.len()
        invariant
            vs == toml_items_view(values@),
            vs.len() == values@.len(),
            i <= values@.len(),
            first_misfit(vs, integer, 0) == first_misfit(vs, integer, i as int),
        decreases values@.len() - i,
    {
        let ok = if integer {
            values[i].is_integer()
        } else {
            values[i].is_str()
        };
        proof {
            lemma_toml_items_view(values@);
        }
        assert(vs[i as int] == values@[i as int]@);
        if !ok {
            let mut m = field_prefix_string(field_name);
            push_str(&mut m, "category value at index ");
            let idx = usize_string(i);
            push_str(&mut m, idx.as_str());
            push_str(&mut m, " (");
            let t = values[i].to_string();
            push_str(&mut m, t.as_str());
            push_str(&mut m, ") does not match field type ");
            push_str(&mut m, if integer { "Integer" } else { "String" });
            return Some(m);
        }
        i = i + 1;
    }
    None
}

/// Check that `categories` is applicable to `field_type` and that every
/// category value has the field's element type; the error message when not.
pub fn validate_for_type(field_name: &str, field_type: &FieldType, values: &Vec<TomlValue>) -> (r:
    Option<String>)
    ensures
        match r {
            Some(e) => categories_error(field_name@, field_type@, toml_items_view(values@)) == Some(
                e@,
            ),
            None => categories_error(field_name@, field_type@, toml_items_view(values@)) is None,
        },
{
    match field_type {
        FieldType::Array(inner) => {
            let c = element_class(inner);
            if c == 0 {
                check_values(field_name, values, false)
            } else if c == 1 {
                check_values(field_name, values, true)
            } else {
                let mut m = field_prefix_string(field_name);
                push_str(&mut m, "categories constraint does not apply to Array(");
                push_str(&mut m, field_type_name(inner));
                push_str(
                    &mut m,
                    ") fields — only Array(String), Array(Integer), Array(Date), and Array(DateTime) are supported",
                );
                Some(m)
            }
        },
        _ => {
            let c = element_class(field_type);
            if c == 0 {
                check_values(field_name, values, false)
            } else if c == 1 {
                check_values(field_name, values, true)
            } else {
                let mut m = field_prefix_string(field_name);
                push_str(&mut m, "categories constraint does not apply to ");
                push_str(&mut m, field_type_name(field_type));
                push_str(
                    &mut m,
                    " fields — only String, Integer, Date, DateTime, Array(String), Array(Integer), Array(Date), and Array(DateTime) are supported",
                );
                Some(m)
            }
        },
    }
}

} // verus!
