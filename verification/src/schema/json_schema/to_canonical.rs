//! From the `mdvs.toml` DSL to a canonical JSON Schema 2020-12 document.
//!
//! Shape: `type: "object"` and `additionalProperties: true` at the root;
//! one entry under `properties` per field (nested along dotted names) and
//! per ignored name (flat, an empty schema); path scoping carried as
//! `x-mdvs.allowed` / `x-mdvs.required` on each leaf.

use vstd::prelude::*;
use crate::field_type::{FieldType, FieldTypeV, lemma_field_pairs_view, field_pairs_view};
use crate::json::{JsonNumber, JsonV, JsonNumV, JsonValue, json_entries_view, json_items_view, lemma_json_entries_view, lemma_json_items_push, object_get, object_insert};
use crate::keyed::{entries_get, entries_insert};
use crate::preprocess::{ValueStage, schema_stage_name};
use crate::schema::config::{MdvsToml, TomlField, TomlFieldV, field_views};
use crate::schema::constraints::{Constraints, ConstraintsV};
use crate::schema::json_schema::{intermediate_entries, is_intermediate, is_intermediate_object, intermediate_object_schema};
use crate::schema::shared::{FieldTypeSerde, type_of};
use crate::schema::toml_value::{TomlFloat, TomlV, TomlValue, toml_items_view, lemma_toml_items_view};
use crate::text::{chars_of, owned, push_char, str_eq, string_from_range, views};

verus! {

/// JSON Schema 2020-12 `$schema` URI.
pub const JSON_SCHEMA_DRAFT: &'static str = "https://json-schema.org/draft/2020-12/schema";

/// Members of a JSON object.
pub type Members = Seq<(Seq<char>, JsonV)>;

/// `s` split at every `.`, as `str::split('.')` splits it (empty pieces
/// kept), given the piece read so far.
pub open spec fn split_from(s: Seq<char>, cur: Seq<char>) -> Seq<Seq<char>>
    decreases s.len(),
{
    if s.len() == 0 {
        seq![cur]
    } else if s[0] == '.' {
        seq![cur] + split_from(s.drop_first(), Seq::empty())
    } else {
        split_from(s.drop_first(), cur.push(s[0]))
    }
}

/// The segments of a dotted name.
pub open spec fn split_dots(s: Seq<char>) -> Seq<Seq<char>> {
    split_from(s, Seq::empty())
}

/// The `type` keyword's value: the type name, or it and `"null"`.
pub open spec fn type_value(ty: Seq<char>, nullable: bool) -> JsonV {
    if nullable {
        JsonV::Array(seq![JsonV::String(ty), JsonV::String("null"@)])
    } else {
        JsonV::String(ty)
    }
}

/// Whether float bits encode a finite value (exponent not all ones).
pub open spec fn finite_bits(bits: u64) -> bool {
    (bits / 0x10_0000_0000_0000) % 0x800 != 0x7ff
}

/// A TOML literal as a JSON literal: strings, integers, finite floats and
/// booleans carry over; anything else has no JSON form here.
pub open spec fn toml_to_json(v: TomlV) -> Option<JsonV> {
    match v {
        TomlV::String(s) => Some(JsonV::String(s)),
        TomlV::Integer(i) => Some(JsonV::Number(JsonNumV::Int(i))),
        TomlV::Float(f) => if finite_bits(f.bits) {
            Some(JsonV::Number(JsonNumV::Float(f)))
        } else {
            None
        },
        TomlV::Boolean(b) => Some(JsonV::Bool(b)),
        _ => None,
    }
}

/// The categories that have a JSON form, in order.
pub open spec fn enum_values(cats: Seq<TomlV>) -> Seq<JsonV>
    decreases cats.len(),
{
    if cats.len() == 0 {
        Seq::empty()
    } else {
        enum_values(cats.drop_last()) + (match toml_to_json(cats.last()) {
            Some(j) => seq![j],
            None => Seq::empty(),
        })
    }
}

/// An unsigned count as a JSON number.
pub open spec fn count_json(n: u64) -> JsonV {
    if n <= i64::MAX {
        JsonV::Number(JsonNumV::Int(n as int))
    } else {
        JsonV::Number(JsonNumV::BigUint(n as nat, None))
    }
}

/// `e` with `k` set to the JSON form of `v`, when it has one.
pub open spec fn insert_literal(e: Members, k: Seq<char>, v: Option<TomlV>) -> Members {
    match v {
        Some(t) => match toml_to_json(t) {
            Some(j) => entries_insert(e, k, j),
            None => e,
        },
        None => e,
    }
}

/// `e` with `k` set to a count, when there is one.
pub open spec fn insert_count(e: Members, k: Seq<char>, n: Option<u64>) -> Members {
    match n {
        Some(n) => entries_insert(e, k, count_json(n)),
        None => e,
    }
}

/// The constraint keywords: `enum` (null appended when nullable),
/// `minimum`, `maximum`, `minLength`, `maxLength`, `pattern`.
pub open spec fn apply_constraints(e: Members, nullable: bool, c: Option<ConstraintsV>) -> Members {
    match c {
        None => e,
        Some(c) => {
            let e1 = match c.categories {
                Some(cats) => entries_insert(
                    e,
                    "enum"@,
                    JsonV::Array(
                        enum_values(cats) + (if nullable {
                            seq![JsonV::Null]
                        } else {
                            Seq::empty()
                        }),
                    ),
                ),
                None => e,
            };
            let e2 = insert_literal(e1, "minimum"@, c.min);
            let e3 = insert_literal(e2, "maximum"@, c.max);
            let e4 = insert_count(e3, "minLength"@, c.min_length);
            let e5 = insert_count(e4, "maxLength"@, c.max_length);
            match c.pattern {
                Some(p) => entries_insert(e5, "pattern"@, JsonV::String(p)),
                None => e5,
            }
        },
    }
}

/// Members `type` (and constraints) of a scalar schema.
pub open spec fn scalar_members(ty: Seq<char>, nullable: bool, c: Option<ConstraintsV>) -> Members {
    apply_constraints(entries_insert(Seq::empty(), "type"@, type_value(ty, nullable)), nullable, c)
}

/// Members of a string schema with a `format`.
pub open spec fn formatted_members(format: Seq<char>, nullable: bool, c: Option<ConstraintsV>) -> Members {
    apply_constraints(
        entries_insert(
            entries_insert(Seq::empty(), "type"@, type_value("string"@, nullable)),
            "format"@,
            JsonV::String(format),
        ),
        nullable,
        c,
    )
}

/// The schema of a field type: scalars with their constraints, `Date` and
/// `DateTime` as formatted strings, arrays with constraints on `items`,
/// objects with one non-nullable property per child.
pub open spec fn type_subschema(ft: FieldTypeV, nullable: bool, c: Option<ConstraintsV>) -> Members
    decreases ft,
{
    match ft {
        FieldTypeV::Boolean => scalar_members("boolean"@, nullable, None),
        FieldTypeV::Integer => scalar_members("integer"@, nullable, c),
        FieldTypeV::Float => scalar_members("number"@, nullable, c),
        FieldTypeV::String => scalar_members("string"@, nullable, c),
        FieldTypeV::Date => formatted_members("date"@, nullable, c),
        FieldTypeV::DateTime => formatted_members("date-time"@, nullable, c),
        FieldTypeV::Array(inner) => entries_insert(
            entries_insert(Seq::empty(), "type"@, type_value("array"@, nullable)),
            "items"@,
            JsonV::Object(type_subschema(*inner, false, c)),
        ),
        FieldTypeV::Object(fields) => entries_insert(
            entries_insert(
                entries_insert(Seq::empty(), "type"@, type_value("object"@, nullable)),
                "additionalProperties"@,
                JsonV::Bool(true),
            ),
            "properties"@,
            JsonV::Object(object_properties(fields)),
        ),
    }
}

/// One property per child, in order.
pub open spec fn object_properties(fields: Seq<(Seq<char>, FieldTypeV)>) -> Members
    decreases fields,
{
    if fields.len() == 0 {
        Seq::empty()
    } else {
        entries_insert(
            object_properties(fields.drop_last()),
            fields.last().0,
            JsonV::Object(type_subschema(fields.last().1, false, None)),
        )
    }
}

/// Globs as a JSON array of strings.
pub open spec fn string_list(s: Seq<Seq<char>>) -> JsonV {
    JsonV::Array(Seq::new(s.len(), |i: int| JsonV::String(s[i])))
}

/// Whether `allowed` is exactly `["**"]`.
pub open spec fn default_allowed_spec(allowed: Seq<Seq<char>>) -> bool {
    allowed.len() == 1 && allowed[0] == "**"@
}

/// The `x-mdvs` members of a field: `allowed` unless it is `["**"]`,
/// `required` and `preprocess` unless empty.
pub open spec fn x_mdvs_members(f: TomlFieldV) -> Members {
    let e1: Members = if !default_allowed_spec(f.allowed) {
        entries_insert(Seq::empty(), "allowed"@, string_list(f.allowed))
    } else {
        Seq::empty()
    };
    let e2 = if f.required.len() > 0 {
        entries_insert(e1, "required"@, string_list(f.required))
    } else {
        e1
    };
    if f.preprocess.len() > 0 {
        entries_insert(
            e2,
            "preprocess"@,
            string_list(Seq::new(f.preprocess.len(), |i: int| schema_stage_name(f.preprocess[i]))),
        )
    } else {
        e2
    }
}

/// The schema of a field: its type's schema plus `x-mdvs` when that has
/// members; an empty schema when the type does not resolve.
pub open spec fn field_subschema(f: TomlFieldV) -> JsonV {
    match type_of(f.field_type) {
        Err(_) => JsonV::Object(Seq::empty()),
        Ok(ft) => {
            let sub = type_subschema(ft, f.nullable, f.constraints);
            let x = x_mdvs_members(f);
            if x.len() > 0 {
                JsonV::Object(entries_insert(sub, "x-mdvs"@, JsonV::Object(x)))
            } else {
                JsonV::Object(sub)
            }
        },
    }
}

/// `leaf` placed at the dotted path `segs`, creating (or replacing
/// non-intermediate nodes by) intermediate objects on the way.
pub open spec fn insert_at_path(props: Members, segs: Seq<Seq<char>>, leaf: JsonV) -> Members
    decreases segs.len(),
{
    if segs.len() == 0 {
        props
    } else if segs.len() == 1 {
        entries_insert(props, segs[0], leaf)
    } else {
        let node: Members = match entries_get(props, segs[0]) {
            Some(n) => if is_intermediate(n) {
                n->Object_0
            } else {
                intermediate_entries()
            },
            None => intermediate_entries(),
        };
        let inner: Members = match entries_get(node, "properties"@) {
            Some(JsonV::Object(p)) => p,
            _ => Seq::empty(),
        };
        entries_insert(
            props,
            segs[0],
            JsonV::Object(
                entries_insert(
                    node,
                    "properties"@,
                    JsonV::Object(insert_at_path(inner, segs.drop_first(), leaf)),
                ),
            ),
        )
    }
}

/// The properties from the field definitions, placed in order.
pub open spec fn field_properties(fields: Seq<TomlFieldV>) -> Members
    decreases fields.len(),
{
    if fields.len() == 0 {
        Seq::empty()
    } else {
        insert_at_path(
            field_properties(fields.drop_last()),
            split_dots(fields.last().name),
            field_subschema(fields.last()),
        )
    }
}

/// `props` with an empty schema for each ignored name.
pub open spec fn ignore_properties(props: Members, ignore: Seq<Seq<char>>) -> Members
    decreases ignore.len(),
{
    if ignore.len() == 0 {
        props
    } else {
        entries_insert(
            ignore_properties(props, ignore.drop_last()),
            ignore.last(),
            JsonV::Object(Seq::empty()),
        )
    }
}

/// The canonical schema of a configuration.
pub open spec fn canonical(fields: Seq<TomlFieldV>, ignore: Seq<Seq<char>>) -> JsonV {
    JsonV::Object(
        entries_insert(
            entries_insert(
                entries_insert(
                    entries_insert(Seq::empty(), "$schema"@, JsonV::String(JSON_SCHEMA_DRAFT@)),
                    "type"@,
                    JsonV::String("object"@),
                ),
                "properties"@,
                JsonV::Object(ignore_properties(field_properties(fields), ignore)),
            ),
            "additionalProperties"@,
            JsonV::Bool(true),
        ),
    )
}

fn jstring(s: &str) -> (r: JsonValue)
    ensures
        r@ == JsonV::String(s@),
{
    JsonValue::String(owned(s))
}

fn set(entries: &mut Vec<(String, JsonValue)>, k: &str, v: JsonValue)
    ensures
        json_entries_view(final(entries)@) == entries_insert(json_entries_view(old(entries)@), k@, v@),
{
    object_insert(entries, owned(k), v);
}

fn type_json(ty: &str, nullable: bool) -> (r: JsonValue)
    ensures
        r@ == type_value(ty@, nullable),
{
    if nullable {
        let mut items: Vec<JsonValue> = Vec::new();
        let a = jstring(ty);
        let b = jstring("null");
        proof {
            lemma_json_items_push(items@, a);
        }
        items.push(a);
        proof {
            lemma_json_items_push(items@, b);
        }
        items.push(b);
        assert(json_items_view(items@) =~= seq![JsonV::String(ty@), JsonV::String("null"@)]);
        JsonValue::Array(items)
    } else {
        jstring(ty)
    }
}

/// Whether float bits encode a finite value.
pub fn is_finite_bits(bits: u64) -> (r: bool)
    ensures
        r == finite_bits(bits),
{
    let e = (bits >> 52) & 0x7ff;
    assert(e == (bits / 0x10_0000_0000_0000) % 0x800) by (bit_vector)
        requires
            e == (bits >> 52) & 0x7ff,
    ;
    e != 0x7ff
}

/// The JSON form of a TOML literal, if it has one.
pub fn toml_to_json_value(v: &TomlValue) -> (r: Option<JsonValue>)
    ensures
        match r {
            Some(j) => toml_to_json(v@) == Some(j@),
            None => toml_to_json(v@) is None,
        },
{
    match v {
        TomlValue::String(s) => Some(JsonValue::String(s.clone())),
        TomlValue::Integer(i) => Some(JsonValue::Number(JsonNumber::Int(*i))),
        TomlValue::Float(f) => if is_finite_bits(f.bits) {
            Some(JsonValue::Number(JsonNumber::Float(f.duplicate())))
        } else {
            None
        },
        TomlValue::Boolean(b) => Some(JsonValue::Bool(*b)),
        _ => None,
    }
}

fn count_value(n: u64) -> (r: JsonValue)
    ensures
        r@ == count_json(n),
{
    if n <= 9223372036854775807u64 {
        JsonValue::Number(JsonNumber::Int(n as i64))
    } else {
        JsonValue::Number(JsonNumber::BigUint(n, None))
    }
}

fn set_literal(entries: &mut Vec<(String, JsonValue)>, k: &str, v: &Option<TomlValue>)
    ensures
        json_entries_view(final(entries)@) == insert_literal(
            json_entries_view(old(entries)@),
            k@,
            match v {
                Some(t) => Some(t@),
                None => None,
            },
        ),
{
    if let Some(t) = v {
        if let Some(j) = toml_to_json_value(t) {
            set(entries, k, j);
        }
    }
}

fn set_count(entries: &mut Vec<(String, JsonValue)>, k: &str, n: Option<u64>)
    ensures
        json_entries_view(final(entries)@) == insert_count(json_entries_view(old(entries)@), k@, n),
{
    if let Some(n) = n {
        set(entries, k, count_value(n));
    }
}

fn enum_array(cats: &Vec<TomlValue>, nullable: bool) -> (r: JsonValue)
    ensures
        r@ == JsonV::Array(
            enum_values(toml_items_view(cats@)) + (if nullable {
                seq![JsonV::Null]
            } else {
                Seq::empty()
            }),
        ),
{
    let mut items: Vec<JsonValue> = Vec::new();
    let mut i: usize = 0;
    proof {
        lemma_toml_items_view(cats@);
    }
    while i < cats.len()
        invariant
            i <= cats@.len(),
            toml_items_view(cats@).len() == cats@.len(),
            forall|j: int| 0 <= j < cats@.len() ==> #[trigger] toml_items_view(cats@)[j] == cats@[j]@,
            json_items_view(items@) == enum_values(toml_items_view(cats@).take(i as int)),
        decreases cats@.len() - i,
    {
        let ghost before = json_items_view(items@);
        if let Some(j) = toml_to_json_value(&cats[i]) {
            proof {
                lemma_json_items_push(items@, j);
            }
            items.push(j);
        }
        proof {
            let t = toml_items_view(cats@).take(i + 1);
            assert(t.drop_last() =~= toml_items_view(cats@).take(i as int));
            assert(t.last() == cats@[i as int]@);
        }
        i = i + 1;
        assert(json_items_view(items@) =~= enum_values(toml_items_view(cats@).take(i as int)));
    }
    assert(toml_items_view(cats@).take(cats@.len() as int) =~= toml_items_view(cats@));
    if nullable {
        proof {
            lemma_json_items_push(items@, JsonValue::Null);
        }
        items.push(JsonValue::Null);
    }
    assert(json_items_view(items@) =~= enum_values(toml_items_view(cats@)) + (if nullable {
        seq![JsonV::Null]
    } else {
        Seq::empty()
    }));
    JsonValue::Array(items)
}

fn add_constraints(entries: &mut Vec<(String, JsonValue)>, nullable: bool, c: Option<&Constraints>)
    ensures
        json_entries_view(final(entries)@) == apply_constraints(
            json_entries_view(old(entries)@),
            nullable,
            match c {
                Some(c) => Some(c@),
                None => None,
            },
        ),
{
    if let Some(c) = c {
        if let Some(cats) = &c.categories {
            let arr = enum_array(cats, nullable);
            set(entries, "enum", arr);
        }
        set_literal(entries, "minimum", &c.min);
        set_literal(entries, "maximum", &c.max);
        set_count(entries, "minLength", c.min_length);
        set_count(entries, "maxLength", c.max_length);
        if let Some(p) = &c.pattern {
            set(entries, "pattern", JsonValue::String(p.clone()));
        }
    }
}

fn scalar_entries(ty: &str, nullable: bool, c: Option<&Constraints>) -> (r: Vec<(String, JsonValue)>)
    ensures
        json_entries_view(r@) == scalar_members(
            ty@,
            nullable,
            match c {
                Some(c) => Some(c@),
                None => None,
            },
        ),
{
    let mut e: Vec<(String, JsonValue)> = Vec::new();
    assert(json_entries_view(e@) =~= Seq::<(Seq<char>, JsonV)>::empty());
    set(&mut e, "type", type_json(ty, nullable));
    add_constraints(&mut e, nullable, c);
    e
}

fn formatted_entries(format: &str, nullable: bool, c: Option<&Constraints>) -> (r: Vec<(String, JsonValue)>)
    ensures
        json_entries_view(r@) == formatted_members(
            format@,
            nullable,
            match c {
                Some(c) => Some(c@),
                None => None,
            },
        ),
{
    let mut e: Vec<(String, JsonValue)> = Vec::new();
    assert(json_entries_view(e@) =~= Seq::<(Seq<char>, JsonV)>::empty());
    set(&mut e, "type", type_json("string", nullable));
    set(&mut e, "format", jstring(format));
    add_constraints(&mut e, nullable, c);
    e
}

fn type_entries(ft: &FieldType, nullable: bool, c: Option<&Constraints>) -> (r: Vec<(String, JsonValue)>)
    ensures
        json_entries_view(r@) == type_subschema(
            ft@,
            nullable,
            match c {
                Some(c) => Some(c@),
                None => None,
            },
        ),
    decreases ft, 0int,
{
    match ft {
        FieldType::Boolean => scalar_entries("boolean", nullable, None),
        FieldType::Integer => scalar_entries("integer", nullable, c),
        FieldType::Float => scalar_entries("number", nullable, c),
        FieldType::String => scalar_entries("string", nullable, c),
        FieldType::Date => formatted_entries("date", nullable, c),
        FieldType::DateTime => formatted_entries("date-time", nullable, c),
        FieldType::Array(inner) => {
            let items = type_entries(inner, false, c);
            let mut e: Vec<(String, JsonValue)> = Vec::new();
            assert(json_entries_view(e@) =~= Seq::<(Seq<char>, JsonV)>::empty());
            set(&mut e, "type", type_json("array", nullable));
            set(&mut e, "items", JsonValue::Object(items));
            e
        },
        FieldType::Object(fields) => {
            let props = object_entries(fields, 0, Vec::new());
            let mut e: Vec<(String, JsonValue)> = Vec::new();
            assert(json_entries_view(e@) =~= Seq::<(Seq<char>, JsonV)>::empty());
            set(&mut e, "type", type_json("object", nullable));
            set(&mut e, "additionalProperties", JsonValue::Bool(true));
            set(&mut e, "properties", JsonValue::Object(props));
            proof {
                lemma_field_pairs_view(fields@);
                assert(field_pairs_view(fields@).take(fields@.len() as int) =~= field_pairs_view(fields@));
            }
            e
        },
    }
}

fn object_entries(fields: &Vec<(String, FieldType)>, i: usize, acc: Vec<(String, JsonValue)>) -> (r: Vec<
    (String, JsonValue),
>)
    requires
        i <= fields@.len(),
        json_entries_view(acc@) == object_properties(field_pairs_view(fields@).take(i as int)),
    ensures
        json_entries_view(r@) == object_properties(field_pairs_view(fields@).take(fields@.len() as int)),
    decreases fields, fields@.len() - i,
{
    if i >= fields.len() {
        return acc;
    }
    let mut acc = acc;
    let sub = type_entries(&fields[i].1, false, None);
    object_insert(&mut acc, fields[i].0.clone(), JsonValue::Object(sub));
    proof {
        lemma_field_pairs_view(fields@);
        let t = field_pairs_view(fields@).take(i + 1);
        assert(t.drop_last() =~= field_pairs_view(fields@).take(i as int));
        assert(t.last() == (fields@[i as int].0@, fields@[i as int].1@));
    }
    object_entries(fields, i + 1, acc)
}

fn string_list_value(s: &Vec<String>) -> (r: JsonValue)
    ensures
        r@ == string_list(views(s@)),
{
    let mut items: Vec<JsonValue> = Vec::new();
    let mut i: usize = 0;
    while i < s.len()
        invariant
            i <= s@.len(),
            json_items_view(items@) == Seq::new(i as nat, |j: int| JsonV::String(s@[j]@)),
        decreases s@.len() - i,
    {
        let v = JsonValue::String(s[i].clone());
        proof {
            lemma_json_items_push(items@, v);
        }
        items.push(v);
        i = i + 1;
        assert(json_items_view(items@) =~= Seq::new(i as nat, |j: int| JsonV::String(s@[j]@)));
    }
    assert(Seq::new(s@.len() as nat, |j: int| JsonV::String(s@[j]@)) =~= Seq::new(
        views(s@).len(),
        |j: int| JsonV::String(views(s@)[j]),
    ));
    JsonValue::Array(items)
}

fn schema_stage_string(stage: ValueStage) -> (r: String)
    ensures
        r@ == schema_stage_name(stage),
{
    match stage {
        ValueStage::CoerceToString => owned("coerce-to-string"),
        ValueStage::WidenIntToFloat => owned("widen-int-to-float"),
    }
}

fn stage_list_value(s: &Vec<ValueStage>) -> (r: JsonValue)
    ensures
        r@ == string_list(Seq::new(s@.len(), |i: int| schema_stage_name(s@[i]))),
{
    let mut items: Vec<JsonValue> = Vec::new();
    let mut i: usize = 0;
    while i < s.len()
        invariant
            i <= s@.len(),
            json_items_view(items@) == Seq::new(i as nat, |j: int| JsonV::String(schema_stage_name(s@[j]))),
        decreases s@.len() - i,
    {
        let v = JsonValue::String(schema_stage_string(s[i]));
        proof {
            lemma_json_items_push(items@, v);
        }
        items.push(v);
        i = i + 1;
        assert(json_items_view(items@) =~= Seq::new(
            i as nat,
            |j: int| JsonV::String(schema_stage_name(s@[j])),
        ));
    }
    let ghost names = Seq::new(s@.len(), |i: int| schema_stage_name(s@[i]));
    assert(json_items_view(items@) =~= Seq::new(names.len(), |j: int| JsonV::String(names[j])));
    JsonValue::Array(items)
}

/// Whether `allowed` is exactly `["**"]`.
pub fn is_default_allowed(allowed: &Vec<String>) -> (r: bool)
    ensures
        r == default_allowed_spec(views(allowed@)),
{
    allowed.len() == 1 && str_eq(allowed[0].as_str(), "**")
}

fn x_mdvs_entries(field: &TomlField) -> (r: Vec<(String, JsonValue)>)
    ensures
        json_entries_view(r@) == x_mdvs_members(field@),
{
    let mut e: Vec<(String, JsonValue)> = Vec::new();
    assert(json_entries_view(e@) =~= Seq::<(Seq<char>, JsonV)>::empty());
    if !is_default_allowed(&field.allowed) {
        set(&mut e, "allowed", string_list_value(&field.allowed));
    }
    if field.required.len() > 0 {
        set(&mut e, "required", string_list_value(&field.required));
    }
    if field.preprocess.len() > 0 {
        set(&mut e, "preprocess", stage_list_value(&field.preprocess));
    }
    e
}

fn field_to_subschema(field: &TomlField) -> (r: JsonValue)
    ensures
        r@ == field_subschema(field@),
{
    let ft = match FieldType::try_from(&field.field_type) {
        Ok(ft) => ft,
        Err(_) => {
            let empty: Vec<(String, JsonValue)> = Vec::new();
            assert(json_entries_view(empty@) =~= Seq::<(Seq<char>, JsonV)>::empty());
            return JsonValue::Object(empty);
        },
    };
    let c = match &field.constraints {
        Some(c) => Some(c),
        None => None,
    };
    let mut sub = type_entries(&ft, field.nullable, c);
    let x = x_mdvs_entries(field);
    if x.len() > 0 {
        proof {
            lemma_json_entries_view(x@);
        }
        set(&mut sub, "x-mdvs", JsonValue::Object(x));
    } else {
        proof {
            lemma_json_entries_view(x@);
        }
    }
    JsonValue::Object(sub)
}

/// The segments of a dotted name, as `str::split('.')` gives them.
pub fn split_name(name: &str) -> (r: Vec<String>)
    ensures
        views(r@) == split_dots(name@),
{
    let v = chars_of(name);
    let mut out: Vec<String> = Vec::new();
    let mut start: usize = 0;
    let mut i: usize = 0;
    assert(v@.skip(0) =~= v@);
    assert(v@.subrange(0, 0) =~= Seq::<char>::empty());
    while i < v.len()
        invariant
            v@ == name@,
            start <= i <= v@.len(),
            views(out@) + split_from(v@.skip(i as int), v@.subrange(start as int, i as int)) == split_dots(
                name@,
            ),
        decreases v@.len() - i,
    {
        let ghost rest = v@.skip(i as int);
        let ghost cur = v@.subrange(start as int, i as int);
        assert(rest[0] == v@[i as int]);
        assert(rest.drop_first() =~= v@.skip(i + 1));
        if v[i] == '.' {
            let piece = string_from_range(&v, start, i);
            proof {
                crate::text::lemma_views_push(out@, piece);
            }
            out.push(piece);
            start = i + 1;
            assert(v@.subrange(start as int, i + 1) =~= Seq::<char>::empty());
            assert(views(out@) + split_from(v@.skip(i + 1), Seq::empty()) =~= views(out@).drop_last()
                + split_from(rest, cur));
        } else {
            assert(cur.push(v@[i as int]) =~= v@.subrange(start as int, i + 1));
        }
        i = i + 1;
    }
    assert(v@.skip(i as int) =~= Seq::<char>::empty());
    let piece = string_from_range(&v, start, v.len());
    proof {
        crate::text::lemma_views_push(out@, piece);
    }
    out.push(piece);
    assert(views(out@) =~= split_dots(name@));
    out
}

fn insert_path(props: &mut Vec<(String, JsonValue)>, segs: &Vec<String>, i: usize, leaf: JsonValue)
    requires
        i < segs@.len(),
    ensures
        json_entries_view(final(props)@) == insert_at_path(
            json_entries_view(old(props)@),
            views(segs@).skip(i as int),
            leaf@,
        ),
    decreases segs@.len() - i,
{
    let ghost s = views(segs@).skip(i as int);
    assert(s[0] == segs@[i as int]@);
    if i == segs.len() - 1 {
        set(props, segs[i].as_str(), leaf);
        return;
    }
    assert(s.drop_first() =~= views(segs@).skip(i + 1));
    let mut node: Vec<(String, JsonValue)> = match object_get(props, segs[i].as_str()) {
        Some(n) => if is_intermediate_object(n) {
            match members_copy(n) {
                Some(e) => e,
                None => intermediate_object_schema(),
            }
        } else {
            intermediate_object_schema()
        },
        None => intermediate_object_schema(),
    };
    let empty: Vec<(String, JsonValue)> = Vec::new();
    assert(json_entries_view(empty@) =~= Seq::<(Seq<char>, JsonV)>::empty());
    let mut inner: Vec<(String, JsonValue)> = match object_get(&node, "properties") {
        Some(p) => match members_copy(p) {
            Some(e) => e,
            None => empty,
        },
        None => empty,
    };
    insert_path(&mut inner, segs, i + 1, leaf);
    set(&mut node, "properties", JsonValue::Object(inner));
    set(props, segs[i].as_str(), JsonValue::Object(node));
}

/// A copy of the members of `v` when it is an object.
fn members_copy(v: &JsonValue) -> (r: Option<Vec<(String, JsonValue)>>)
    ensures
        match v@ {
            JsonV::Object(e) => r is Some && json_entries_view(r->0@) == e,
            _ => r is None,
        },
{
    match v {
        JsonValue::Object(_) => match v.duplicate() {
            JsonValue::Object(e) => Some(e),
            _ => None,
        },
        _ => None,
    }
}

fn field_props(fields: &Vec<TomlField>) -> (r: Vec<(String, JsonValue)>)
    ensures
        json_entries_view(r@) == field_properties(field_views(fields@)),
{
    let mut props: Vec<(String, JsonValue)> = Vec::new();
    assert(json_entries_view(props@) =~= Seq::<(Seq<char>, JsonV)>::empty());
    assert(field_views(fields@).take(0) =~= Seq::<TomlFieldV>::empty());
    let mut i: usize = 0;
    while i < fields.len()
        invariant
            i <= fields@.len(),
            json_entries_view(props@) == field_properties(field_views(fields@).take(i as int)),
        decreases fields@.len() - i,
    {
        let segs = split_name(fields[i].name.as_str());
        let leaf = field_to_subschema(&fields[i]);
        proof {
            let t = field_views(fields@).take(i + 1);
            assert(t.drop_last() =~= field_views(fields@).take(i as int));
            assert(t.last() == fields@[i as int]@);
        }
        if segs.len() > 0 {
            assert(views(segs@).skip(0) =~= views(segs@));
            insert_path(&mut props, &segs, 0, leaf);
        } else {
            assert(views(segs@).len() == 0);
        }
        i = i + 1;
    }
    assert(field_views(fields@).take(fields@.len() as int) =~= field_views(fields@));
    props
}

/// The canonical JSON Schema of a configuration: [`canonical`] of its
/// field definitions and ignored names.
pub fn dsl_to_canonical(toml: &MdvsToml) -> (r: JsonValue)
    ensures
        r@ == canonical(field_views(toml.fields.field@), views(toml.fields.ignore@)),
{
    let mut props = field_props(&toml.fields.field);
    let ghost base = json_entries_view(props@);
    let ignore = &toml.fields.ignore;
    let mut i: usize = 0;
    assert(views(ignore@).take(0) =~= Seq::<Seq<char>>::empty());
    while i < ignore.len()
        invariant
            i <= ignore@.len(),
            json_entries_view(props@) == ignore_properties(base, views(ignore@).take(i as int)),
        decreases ignore@.len() - i,
    {
        let empty: Vec<(String, JsonValue)> = Vec::new();
        assert(json_entries_view(empty@) =~= Seq::<(Seq<char>, JsonV)>::empty());
        object_insert(&mut props, ignore[i].clone(), JsonValue::Object(empty));
        proof {
            let t = views(ignore@).take(i + 1);
            assert(t.drop_last() =~= views(ignore@).take(i as int));
            assert(t.last() == ignore@[i as int]@);
        }
        i = i + 1;
    }
    assert(views(ignore@).take(ignore@.len() as int) =~= views(ignore@));
    let mut root: Vec<(String, JsonValue)> = Vec::new();
    assert(json_entries_view(root@) =~= Seq::<(Seq<char>, JsonV)>::empty());
    set(&mut root, "$schema", jstring(JSON_SCHEMA_DRAFT));
    set(&mut root, "type", jstring("object"));
    set(&mut root, "properties", JsonValue::Object(props));
    set(&mut root, "additionalProperties", JsonValue::Bool(true));
    JsonValue::Object(root)
}

} // verus!
