//! Range constraint: config-time validation for `min` / `max`.
//!
//! Per-value validation is delegated to JSON Schema; this module only checks
//! that the constraint applies to the field type, that its bounds have the
//! right kind, and that `min` is not above `max`.

use vstd::prelude::*;
use crate::field_type::{FieldType, FieldTypeV, field_type_name, kind_name};
use crate::schema::constraints::length::{field_prefix, field_prefix_string};
use crate::schema::num_order::{NumV, f64_num, fin_gt, int_num, round_shift, toml_gt, toml_greater, two53};
use vstd::arithmetic::power2::lemma2_to64;
use crate::schema::toml_value::{TomlV, TomlValue, toml_text, type_str_spec};
use crate::text::{i64_string, push_str, signed_decimal};

verus! {

/// The error for one bound, given whether the field's elements are integers.
pub open spec fn bound_error(name: Seq<char>, bound: Seq<char>, v: TomlV, integer: bool) -> Option<
    Seq<char>,
> {
    if integer && v is Integer {
        None
    } else if integer && v is Float {
        Some(
            field_prefix(name) + bound
                + " is a float but field type is Integer — use an integer bound"@,
        )
    } else if !integer && (v is Integer || v is Float) {
        None
    } else {
        Some(field_prefix(name) + bound + " must be a numeric value, got "@ + type_str_spec(v))
    }
}

/// How a numeric bound is shown in messages: integers in decimal, floats as
/// Rust's `Display` writes them.
pub open spec fn num_text(v: TomlV) -> Seq<char> {
    match v {
        TomlV::Integer(n) => signed_decimal(n),
        TomlV::Float(f) => f.display,
        _ => toml_text(v),
    }
}

/// The error for the bounds once the element type is known.
pub open spec fn bounds_error(
    name: Seq<char>,
    min: Option<TomlV>,
    max: Option<TomlV>,
    integer: bool,
) -> Option<Seq<char>> {
    let min_err = match min {
        Some(v) => bound_error(name, "min"@, v, integer),
        None => None,
    };
    let max_err = match max {
        Some(v) => bound_error(name, "max"@, v, integer),
        None => None,
    };
    if min_err is Some {
        min_err
    } else if max_err is Some {
        max_err
    } else {
        match (min, max) {
            (Some(lo), Some(hi)) => if toml_gt(lo, hi) {
                Some(
                    field_prefix(name) + "min ("@ + num_text(lo) + ") is greater than max ("@
                        + num_text(hi) + ")"@,
                )
            } else {
                None
            },
            _ => None,
        }
    }
}

/// The error for a range constraint on a field, if any.
///
/// - Only Integer, Float, Array(Integer) and Array(Float) fields.
/// - Integer fields take integer bounds; Float fields take integer or float bounds.
/// - If both bounds are present, `min` must not be greater than `max` (as `f64`s).
pub open spec fn range_error(
    name: Seq<char>,
    t: FieldTypeV,
    min: Option<TomlV>,
    max: Option<TomlV>,
) -> Option<Seq<char>> {
    match t {
        FieldTypeV::Integer => bounds_error(name, min, max, true),
        FieldTypeV::Float => bounds_error(name, min, max, false),
        FieldTypeV::Array(inner) => if *inner == FieldTypeV::Integer {
            bounds_error(name, min, max, true)
        } else if *inner == FieldTypeV::Float {
            bounds_error(name, min, max, false)
        } else {
            Some(
                field_prefix(name) + "range constraint does not apply to Array("@ + kind_name(*inner)
                    + ") fields — only Array(Integer) and Array(Float) are supported"@,
            )
        },
        _ => Some(
            field_prefix(name) + "range constraint does not apply to "@ + kind_name(t)
                + " fields — only Integer, Float, Array(Integer), and Array(Float) are supported"@,
        ),
    }
}

/// Whether a field of type `t` takes only integer bounds.
pub open spec fn integer_bounded(t: FieldTypeV) -> bool {
    t == FieldTypeV::Integer || t == FieldTypeV::Array(Box::new(FieldTypeV::Integer))
}

/// Whether `v` is a bound that a numeric field of type `t` takes.
pub open spec fn fitting_bound(t: FieldTypeV, v: TomlV) -> bool {
    if integer_bounded(t) {
        v is Integer
    } else {
        v is Integer || v is Float
    }
}

/// **Inverted ranges are refused on every numeric field.** For a field of
/// type `Integer`, `Float`, `Array(Integer)` or `Array(Float)` with bounds of
/// the kinds it takes, the range check fails exactly when `min` is greater
/// than `max` as `f64`s; with only one bound, or none, it passes. Integer
/// bounds below 2^53 in magnitude are compared as integers, and float
/// bounds that equal integers compare as those integers.
pub proof fn lemma_range_order(name: Seq<char>, t: FieldTypeV, lo: TomlV, hi: TomlV)
    requires
        t == FieldTypeV::Integer || t == FieldTypeV::Float || t == FieldTypeV::Array(Box::new(FieldTypeV::Integer))
            || t == FieldTypeV::Array(Box::new(FieldTypeV::Float)),
        fitting_bound(t, lo),
        fitting_bound(t, hi),
    ensures
        range_error(name, t, Some(lo), Some(hi)) is Some <==> toml_gt(lo, hi),
        range_error(name, t, Some(lo), None) is None,
        range_error(name, t, None, Some(hi)) is None,
        range_error(name, t, None, None) is None,
        lo is Integer && hi is Integer && -two53() < lo->Integer_0 < two53() && -two53() < hi->Integer_0 < two53()
            ==> (toml_gt(lo, hi) <==> lo->Integer_0 > hi->Integer_0),
        forall|f: crate::schema::toml_value::FloatV, g: crate::schema::toml_value::FloatV, a: int, b: int|
            #![trigger toml_gt(TomlV::Float(f), TomlV::Float(g)), toml_gt(TomlV::Integer(a), TomlV::Integer(b))]
            f64_num(f.bits) == int_num(a) && f64_num(g.bits) == int_num(b) ==> (toml_gt(TomlV::Float(f), TomlV::Float(g))
                <==> toml_gt(TomlV::Integer(a), TomlV::Integer(b))),
{
    if let (TomlV::Integer(a), TomlV::Integer(b)) = (lo, hi) {
        if -two53() < a < two53() && -two53() < b < two53() {
            lemma2_to64();
            let aa: nat = if a < 0 { (-a) as nat } else { a as nat };
            let bb: nat = if b < 0 { (-b) as nat } else { b as nat };
            assert(round_shift(aa) == 0);
            assert(round_shift(bb) == 0);
            assert(int_num(a) == NumV::Fin(a, 0));
            assert(int_num(b) == NumV::Fin(b, 0));
            assert(vstd::arithmetic::power2::pow2(0) == 1);
            assert(((0int - 0int) as nat) == 0);
            assert(a * 1 == a && b * 1 == b);
            assert(fin_gt(a, 0, b, 0) <==> a > b);
        }
    }
}

pub open spec fn opt_toml_view(o: Option<TomlValue>) -> Option<TomlV> {
    match o {
        Some(v) => Some(v@),
        None => None,
    }
}

/// Validate that a single bound value is numeric and matches the element type.
fn validate_bound_type(field_name: &str, bound_name: &str, bound: &TomlValue, integer: bool) -> (r:
    Option<String>)
    ensures
        match r {
            Some(e) => bound_error(field_name@, bound_name@, bound@, integer) == Some(e@),
            None => bound_error(field_name@, bound_name@, bound@, integer) is None,
        },
{
    match bound {
        TomlValue::Integer(_) => {
            return None;
        },
        TomlValue::Float(_) => {
            if !integer {
                return None;
            }
            let mut m = field_prefix_string(field_name);
            push_str(&mut m, bound_name);
            push_str(&mut m, " is a float but field type is Integer — use an integer bound");
            return Some(m);
        },
        _ => {},
    }
    let mut m = field_prefix_string(field_name);
    push_str(&mut m, bound_name);
    push_str(&mut m, " must be a numeric value, got ");
    push_str(&mut m, bound.type_str());
    Some(m)
}

/// Format a TOML numeric value for display.
fn format_toml_num(v: &TomlValue) -> (r: String)
    ensures
        r@ == num_text(v@),
{
    match v {
        TomlValue::Integer(n) => i64_string(*n),
        TomlValue::Float(f) => f.display.clone(),
        _ => v.to_string(),
    }
}

fn check_bounds(
    field_name: &str,
    min: &Option<TomlValue>,
    max: &Option<TomlValue>,
    integer: bool,
) -> (r: Option<String>)
    ensures
        match r {
            Some(e) => bounds_error(field_name@, opt_toml_view(*min), opt_toml_view(*max), integer)
                == Some(e@),
            None => bounds_error(
                field_name@,
                opt_toml_view(*min),
                opt_toml_view(*max),
                integer,
            ) is None,
        },
{
    if let Some(v) = min {
        if let Some(err) = validate_bound_type(field_name, "min", v, integer) {
            return Some(err);
        }
    }
    if let Some(v) = max {
        if let Some(err) = validate_bound_type(field_name, "max", v, integer) {
            return Some(err);
        }
    }
    if let (Some(lo), Some(hi)) = (min, max) {
        if toml_greater(lo, hi) {
            let mut m = field_prefix_string(field_name);
            push_str(&mut m, "min (");
            let a = format_toml_num(lo);
            push_str(&mut m, a.as_str());
            push_str(&mut m, ") is greater than max (");
            let b = format_toml_num(hi);
            push_str(&mut m, b.as_str());
            push_str(&mut m, ")");
            return Some(m);
        }
    }
    None
}

/// Check that `min` / `max` are applicable to `field_type` and well-formed;
/// the error message when they are not.
pub fn validate_for_type(
    field_name: &str,
    field_type: &FieldType,
    min: &Option<TomlValue>,
    max: &Option<TomlValue>,
) -> (r: Option<String>)
    ensures
        match r {
            Some(e) => range_error(field_name@, field_type@, opt_toml_view(*min), opt_toml_view(*max))
                == Some(e@),
            None => range_error(
                field_name@,
                field_type@,
                opt_toml_view(*min),
                opt_toml_view(*max),
            ) is None,
        },
{
    match field_type {
        FieldType::Integer => check_bounds(field_name, min, max, true),
        FieldType::Float => check_bounds(field_name, min, max, false),
        FieldType::Array(inner) => if crate::preprocess::is_integer(inner) {
            check_bounds(field_name, min, max, true)
        } else if crate::preprocess::is_float(inner) {
            check_bounds(field_name, min, max, false)
        } else {
            {
                let mut m = field_prefix_string(field_name);
                push_str(&mut m, "range constraint does not apply to Array(");
                push_str(&mut m, field_type_name(inner));
                push_str(&mut m, ") fields — only Array(Integer) and Array(Float) are supported");
                Some(m)
            }
        },
        _ => {
            let mut m = field_prefix_string(field_name);
            push_str(&mut m, "range constraint does not apply to ");
            push_str(&mut m, field_type_name(field_type));
            push_str(
                &mut m,
                " fields — only Integer, Float, Array(Integer), and Array(Float) are supported",
            );
            Some(m)
        },
    }
}

} // verus!
