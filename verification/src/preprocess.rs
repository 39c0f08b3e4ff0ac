//! Preprocessor stages run before schema validation.
//!
//! - Stage 1 (field-name, global): no built-ins yet; framework only.
//! - Stage 2 (per-field value): `coerce_to_string`, `widen_int_to_float`.
//! - Stage 3 (per-document, global): no built-ins yet; framework only.
//!
//! Inference derives Stage 2 entries from observed type-widening events.

use vstd::prelude::*;
use crate::field_type::{FieldType, FieldTypeV};
use crate::json::{JsonNumber, JsonNumV, JsonV, JsonValue, json_items_view, json_text, lemma_json_items_push, lemma_json_items_view, to_json_string};
use crate::text::{decimal, owned, push_str, usize_string};

verus! {

/// Per-field value preprocessor.
#[derive(Debug, Clone, Copy, PartialEq, Eq, Hash, Structural)]
pub enum ValueStage {
    /// Serialize non-string non-null values to JSON-stringified form.
    /// Inferred when widening landed on `String` due to mixed scalar types.
    CoerceToString,
    /// Convert integer-backed numbers to float-backed numbers.
    /// Inferred when widening landed on `Float` due to an int + float mix.
    WidenIntToFloat,
}

/// `t` is `inner` or an array of `inner`.
pub open spec fn is_or_array_of(t: FieldTypeV, inner: FieldTypeV) -> bool {
    t == inner || t == FieldTypeV::Array(Box::new(inner))
}

/// The field types a stage can transform.
pub open spec fn stage_applies(stage: ValueStage, t: FieldTypeV) -> bool {
    match stage {
        ValueStage::CoerceToString => is_or_array_of(t, FieldTypeV::String),
        ValueStage::WidenIntToFloat => is_or_array_of(t, FieldTypeV::Float),
    }
}

/// The snake_case name used in `mdvs.toml`.
pub open spec fn stage_name(stage: ValueStage) -> Seq<char> {
    match stage {
        ValueStage::CoerceToString => "coerce_to_string"@,
        ValueStage::WidenIntToFloat => "widen_int_to_float"@,
    }
}

/// The kebab-case name a stage goes by in a JSON Schema's
/// `x-mdvs.preprocess` list.
pub open spec fn schema_stage_name(stage: ValueStage) -> Seq<char> {
    match stage {
        ValueStage::CoerceToString => "coerce-to-string"@,
        ValueStage::WidenIntToFloat => "widen-int-to-float"@,
    }
}

/// Whether `t` is exactly `FieldType::String` / `FieldType::Float` etc.
pub(crate) fn is_string(t: &FieldType) -> (b: bool)
    ensures
        b == (t@ == FieldTypeV::String),
{
    match t {
        FieldType::String => true,
        _ => false,
    }
}

pub(crate) fn is_float(t: &FieldType) -> (b: bool)
    ensures
        b == (t@ == FieldTypeV::Float),
{
    match t {
        FieldType::Float => true,
        _ => false,
    }
}

pub(crate) fn is_integer(t: &FieldType) -> (b: bool)
    ensures
        b == (t@ == FieldTypeV::Integer),
{
    match t {
        FieldType::Integer => true,
        _ => false,
    }
}

impl ValueStage {
    /// Whether this stage can transform values for the given field type.
    pub fn applies_to(&self, ft: &FieldType) -> (b: bool)
        ensures
            b == stage_applies(*self, ft@),
    {
        match self {
            ValueStage::CoerceToString => match ft {
                FieldType::String => true,
                FieldType::Array(inner) => is_string(inner),
                _ => false,
            },
            ValueStage::WidenIntToFloat => match ft {
                FieldType::Float => true,
                FieldType::Array(inner) => is_float(inner),
                _ => false,
            },
        }
    }

    /// Human-readable description of valid field types, for error messages.
    pub fn applicable_types(&self) -> (r: &'static str)
        ensures
            r@ == (match *self {
                ValueStage::CoerceToString => "String, Array(String)"@,
                ValueStage::WidenIntToFloat => "Float, Array(Float)"@,
            }),
    {
        match self {
            ValueStage::CoerceToString => "String, Array(String)",
            ValueStage::WidenIntToFloat => "Float, Array(Float)",
        }
    }

    /// The snake_case form used in `mdvs.toml` (what `Display` shows).
    pub fn to_string(&self) -> (r: String)
        ensures
            r@ == stage_name(*self),
    {
        match self {
            ValueStage::CoerceToString => owned("coerce_to_string"),
            ValueStage::WidenIntToFloat => owned("widen_int_to_float"),
        }
    }
}

/// `CoerceToString` is implied when the widened type is `String` but some
/// observation was not, or is `Array(String)` but some observation was not
/// an array of strings.
pub open spec fn needs_coerce_spec(observed: Seq<FieldTypeV>, final_type: FieldTypeV) -> bool {
    if final_type == FieldTypeV::String {
        exists|i: int| 0 <= i < observed.len() && observed[i] != FieldTypeV::String
    } else if final_type == FieldTypeV::Array(Box::new(FieldTypeV::String)) {
        exists|i: int|
            0 <= i < observed.len() && observed[i] != FieldTypeV::Array(
                Box::new(FieldTypeV::String),
            )
    } else {
        false
    }
}

/// `WidenIntToFloat` is implied when the widened type is `Float` and some
/// observation was `Integer`, or is `Array(Float)` and some observation was
/// `Array(Integer)`.
pub open spec fn needs_widen_spec(observed: Seq<FieldTypeV>, final_type: FieldTypeV) -> bool {
    if final_type == FieldTypeV::Float {
        exists|i: int| 0 <= i < observed.len() && observed[i] == FieldTypeV::Integer
    } else if final_type == FieldTypeV::Array(Box::new(FieldTypeV::Float)) {
        exists|i: int|
            0 <= i < observed.len() && observed[i] == FieldTypeV::Array(
                Box::new(FieldTypeV::Integer),
            )
    } else {
        false
    }
}

/// The views of a slice of field types.
pub open spec fn type_views(s: Seq<FieldType>) -> Seq<FieldTypeV> {
    Seq::new(s.len(), |i: int| s[i]@)
}

/// The Stage-2 preprocessors implied by inference observations, in
/// declaration order.
pub open spec fn inferred_stages(observed: Seq<FieldTypeV>, final_type: FieldTypeV) -> Seq<
    ValueStage,
> {
    (if needs_coerce_spec(observed, final_type) {
        seq![ValueStage::CoerceToString]
    } else {
        Seq::empty()
    }) + (if needs_widen_spec(observed, final_type) {
        seq![ValueStage::WidenIntToFloat]
    } else {
        Seq::empty()
    })
}

/// Compute the Stage-2 preprocessors implied by inference observations.
///
/// `observed` is the set of non-null observation types seen across all files
/// for a field; `final_type` is the widened result.
pub fn infer_value_stages(observed: &[FieldType], final_type: &FieldType) -> (r: Vec<ValueStage>)
    ensures
        r@ == inferred_stages(type_views(observed@), final_type@),
{
    let mut stages = Vec::new();
    if needs_coerce_to_string(observed, final_type) {
        stages.push(ValueStage::CoerceToString);
    }
    if needs_widen_int_to_float(observed, final_type) {
        stages.push(ValueStage::WidenIntToFloat);
    }
    proof {
        let o = type_views(observed@);
        assert(stages@ =~= inferred_stages(o, final_type@));
    }
    stages
}

fn is_array_of_string(t: &FieldType) -> (b: bool)
    ensures
        b == (t@ == FieldTypeV::Array(Box::new(FieldTypeV::String))),
{
    match t {
        FieldType::Array(inner) => is_string(inner),
        _ => false,
    }
}

fn is_array_of(t: &FieldType, float: bool) -> (b: bool)
    ensures
        b == (t@ == FieldTypeV::Array(
            Box::new(if float { FieldTypeV::Float } else { FieldTypeV::Integer }),
        )),
{
    match t {
        FieldType::Array(inner) => if float {
            is_float(inner)
        } else {
            is_integer(inner)
        },
        _ => false,
    }
}

fn needs_coerce_to_string(observed: &[FieldType], final_type: &FieldType) -> (b: bool)
    ensures
        b == needs_coerce_spec(type_views(observed@), final_type@),
{
    let ghost o = type_views(observed@);
    let scalar = is_string(final_type);
    let array = is_array_of_string(final_type);
    if !scalar && !array {
        return false;
    }
    let mut i: usize = 0;
    while i < observed.len()
        invariant
            o == type_views(observed@),
            scalar == (final_type@ == FieldTypeV::String),
            array == (final_type@ == FieldTypeV::Array(Box::new(FieldTypeV::String))),
            scalar || array,
            i <= observed@.len(),
            forall|j: int|
                0 <= j < i ==> (if scalar {
                    o[j] == FieldTypeV::String
                } else {
                    o[j] == FieldTypeV::Array(Box::new(FieldTypeV::String))
                }),
        decreases observed@.len() - i,
    {
        let differs = if scalar {
            !is_string(&observed[i])
        } else {
            !is_array_of_string(&observed[i])
        };
        if differs {
            assert(o[i as int] == observed@[i as int]@);
            return true;
        }
        i = i + 1;
    }
    false
}

fn needs_widen_int_to_float(observed: &[FieldType], final_type: &FieldType) -> (b: bool)
    ensures
        b == needs_widen_spec(type_views(observed@), final_type@),
{
    let ghost o = type_views(observed@);
    let scalar = is_float(final_type);
    let array = is_array_of(final_type, true);
    if !scalar && !array {
        return false;
    }
    let mut i: usize = 0;
    while i < observed.len()
        invariant
            o == type_views(observed@),
            scalar == (final_type@ == FieldTypeV::Float),
            array == (final_type@ == FieldTypeV::Array(Box::new(FieldTypeV::Float))),
            scalar || array,
            i <= observed@.len(),
            forall|j: int|
                0 <= j < i ==> (if scalar {
                    o[j] != FieldTypeV::Integer
                } else {
                    o[j] != FieldTypeV::Array(Box::new(FieldTypeV::Integer))
                }),
        decreases observed@.len() - i,
    {
        let hit = if scalar {
            is_integer(&observed[i])
        } else {
            is_array_of(&observed[i], false)
        };
        if hit {
            assert(o[i as int] == observed@[i as int]@);
            return true;
        }
        i = i + 1;
    }
    false
}


// ---------------------------------------------------------------------------
// Stage 2 built-in: coerce_to_string
// ---------------------------------------------------------------------------

/// An item as `coerce_to_string` leaves it: strings and null as they are,
/// anything else as the string of its compact JSON text.
pub open spec fn coerced(v: JsonV) -> JsonV {
    if !(v is String) && !(v is Null) {
        JsonV::String(json_text(v))
    } else {
        v
    }
}

/// What `coerce_to_string` makes of a value: for a `String` field a
/// non-string non-null value becomes its JSON text; for an
/// `Array(String)` field each item of an array is coerced; otherwise
/// nothing is transformed (`None`).
pub open spec fn coerce_spec(v: JsonV, ft: FieldTypeV) -> Option<JsonV> {
    if ft == FieldTypeV::String {
        if !(v is String) && !(v is Null) {
            Some(JsonV::String(json_text(v)))
        } else {
            None
        }
    } else if ft == FieldTypeV::Array(Box::new(FieldTypeV::String)) {
        match v {
            JsonV::Array(items) => Some(
                JsonV::Array(Seq::new(items.len(), |i: int| coerced(items[i]))),
            ),
            _ => None,
        }
    } else {
        None
    }
}

fn coerce_item(v: &JsonValue) -> (r: JsonValue)
    ensures
        r@ == coerced(v@),
{
    match v {
        JsonValue::String(_) | JsonValue::Null => v.duplicate(),
        _ => JsonValue::String(to_json_string(v)),
    }
}

/// Serialize non-string non-null values to their JSON text, for `String`
/// fields (the value) and `Array(String)` fields (each item).
pub fn coerce_to_string(value: &JsonValue, field_type: &FieldType) -> (r: Option<JsonValue>)
    ensures
        match r {
            Some(v) => coerce_spec(value@, field_type@) == Some(v@),
            None => coerce_spec(value@, field_type@) is None,
        },
{
    if is_string(field_type) {
        match value {
            JsonValue::String(_) | JsonValue::Null => None,
            _ => Some(JsonValue::String(to_json_string(value))),
        }
    } else if is_array_of_string(field_type) {
        match value {
            JsonValue::Array(items) => {
                proof {
                    lemma_json_items_view(items@);
                }
                let ghost iv = json_items_view(items@);
                let mut out: Vec<JsonValue> = Vec::new();
                let mut i: usize = 0;
                while i < items.len()
                    invariant
                        i <= items@.len(),
                        iv == json_items_view(items@),
                        iv.len() == items@.len(),
                        forall|j: int| 0 <= j < items@.len() ==> #[trigger] iv[j] == items@[j]@,
                        json_items_view(out@) == Seq::new(i as nat, |j: int| coerced(iv[j])),
                    decreases items@.len() - i,
                {
                    let c = coerce_item(&items[i]);
                    proof {
                        lemma_json_items_push(out@, c);
                    }
                    out.push(c);
                    i = i + 1;
                    assert(json_items_view(out@) =~= Seq::new(i as nat, |j: int| coerced(iv[j])));
                }
                Some(JsonValue::Array(out))
            },
            _ => None,
        }
    } else {
        None
    }
}

// ---------------------------------------------------------------------------
// Strict subtype precheck
// ---------------------------------------------------------------------------

/// Whether a JSON value is integer-backed.
pub open spec fn is_integer_json(v: JsonV) -> bool {
    match v {
        JsonV::Number(JsonNumV::Int(_)) => true,
        JsonV::Number(JsonNumV::BigUint(_, _)) => true,
        _ => false,
    }
}

/// The first integer-backed item from index `j` on.
pub open spec fn first_integer(items: Seq<JsonV>, j: int) -> Option<nat>
    decreases items.len() - j,
{
    if j < 0 || j >= items.len() {
        None
    } else if is_integer_json(items[j]) {
        Some(j as nat)
    } else {
        first_integer(items, j + 1)
    }
}

/// The strict-subtype precheck: without `widen_int_to_float`, a `Float`
/// field refuses an integer-backed number ("got Integer") and an
/// `Array(Float)` field an array with one ("got Integer at index i", the
/// first such index); otherwise nothing is refused.
pub open spec fn strict_spec(preprocess: Seq<ValueStage>, ft: FieldTypeV, v: JsonV) -> Option<
    Seq<char>,
> {
    if ft == FieldTypeV::Float && !preprocess.contains(ValueStage::WidenIntToFloat)
        && is_integer_json(v) {
        Some("got Integer"@)
    } else if ft == FieldTypeV::Array(Box::new(FieldTypeV::Float)) && !preprocess.contains(
        ValueStage::WidenIntToFloat,
    ) {
        match v {
            JsonV::Array(items) => match first_integer(items, 0) {
                Some(i) => Some("got Integer at index "@ + decimal(i)),
                None => None,
            },
            _ => None,
        }
    } else {
        None
    }
}

/// The strict check only guards floats against integers, and opting in to
/// widening turns it off: a field that declares `widen_int_to_float`, or
/// whose type is neither `Float` nor `Array(Float)`, has no value rejected.
pub proof fn lemma_strict_needs_float_without_widening(preprocess: Seq<ValueStage>, ft: FieldTypeV, v: JsonV)
    requires
        preprocess.contains(ValueStage::WidenIntToFloat) || (ft != FieldTypeV::Float && ft != FieldTypeV::Array(
            Box::new(FieldTypeV::Float),
        )),
    ensures
        strict_spec(preprocess, ft, v) is None,
{
}

fn is_integer_value(v: &JsonValue) -> (r: bool)
    ensures
        r == is_integer_json(v@),
{
    match v {
        JsonValue::Number(JsonNumber::Int(_)) => true,
        JsonValue::Number(JsonNumber::BigUint(_, _)) => true,
        _ => false,
    }
}

fn has_widen(stages: &Vec<ValueStage>) -> (r: bool)
    ensures
        r == stages@.contains(ValueStage::WidenIntToFloat),
{
    let mut i: usize = 0;
    while i < stages.len()
        invariant
            i <= stages@.len(),
            forall|j: int| 0 <= j < i ==> stages@[j] != ValueStage::WidenIntToFloat,
        decreases stages@.len() - i,
    {
        if stages[i] == ValueStage::WidenIntToFloat {
            return true;
        }
        i = i + 1;
    }
    false
}

/// Reject values whose JSON subtype is wrong for the field type when the
/// opt-in preprocessor is absent: `Some(detail)` exactly as [`strict_spec`].
pub fn strict_subtype_check(preprocess: &Vec<ValueStage>, field_type: &FieldType, value: &JsonValue) -> (r:
    Option<String>)
    ensures
        match r {
            Some(d) => strict_spec(preprocess@, field_type@, value@) == Some(d@),
            None => strict_spec(preprocess@, field_type@, value@) is None,
        },
{
    let widen = has_widen(preprocess);
    if is_float(field_type) && !widen && is_integer_value(value) {
        return Some(owned("got Integer"));
    }
    if is_array_of(field_type, true) && !widen {
        if let JsonValue::Array(items) = value {
            proof {
                lemma_json_items_view(items@);
            }
            let ghost iv = json_items_view(items@);
            let mut i: usize = 0;
            while i < items.len()
                invariant
                    i <= items@.len(),
                    iv == json_items_view(items@),
                    iv.len() == items@.len(),
                    forall|j: int| 0 <= j < items@.len() ==> #[trigger] iv[j] == items@[j]@,
                    first_integer(iv, 0) == first_integer(iv, i as int),
                    !preprocess@.contains(ValueStage::WidenIntToFloat),
                    field_type@ == FieldTypeV::Array(Box::new(FieldTypeV::Float)),
                    value@ == JsonV::Array(iv),
                decreases items@.len() - i,
            {
                if is_integer_value(&items[i]) {
                    let mut d = owned("got Integer at index ");
                    let n = usize_string(i);
                    push_str(&mut d, n.as_str());
                    return Some(d);
                }
                i = i + 1;
            }
        }
    }
    None
}

} // verus!
