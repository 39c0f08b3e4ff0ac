//! What the translation to a canonical schema keeps: a field definition
//! read back from the schema it was written to is the field definition.

use vstd::prelude::*;
use crate::field_type::FieldTypeV;
use crate::json::{JsonNumV, JsonV};
use crate::keyed::{entries_get, entries_insert, lemma_get_insert, lemma_insert_last, seq_lt, sorted_keys};
use crate::preprocess::{ValueStage, schema_stage_name};
use crate::schema::config::TomlFieldV;
use crate::schema::constraints::ConstraintsV;
use crate::schema::json_schema::from_canonical::{
    walk_props, canonical_import, object_children, as_u64, bound_of, enum_categories, extract_constraints, extract_type, extract_x_mdvs,
    field_from_subschema, has_constraint, json_to_toml, stage_list, stage_named, stage_of,
    string_array, type_name_of, type_union,
};
use crate::schema::json_schema::to_canonical::{
    Members, canonical, apply_constraints, object_properties, count_json, default_allowed_spec, enum_values, field_subschema,
    finite_bits, formatted_members, insert_count, insert_literal, scalar_members, string_list,
    toml_to_json, type_subschema, type_value, x_mdvs_members,
};
use crate::schema::shared::{FtsV, serde_of, serde_pairs_of, type_of, type_pairs_of};
use crate::schema::toml_value::TomlV;
use crate::schema::json_schema::is_intermediate;

verus! {

/// A scalar field type: `Boolean`, `Integer`, `Float` or `String`.
pub open spec fn scalar_type(ft: FieldTypeV) -> bool {
    ft is Boolean || ft is Integer || ft is Float || ft is String
}

/// The type that a field's constraints apply to: an array's elements, or
/// the field itself.
pub open spec fn constrained_type(ft: FieldTypeV) -> FieldTypeV {
    match ft {
        FieldTypeV::Array(inner) => *inner,
        _ => ft,
    }
}

/// A TOML literal that JSON carries and gives back: a string, an integer, a
/// finite float or a boolean.
pub open spec fn json_portable(v: TomlV) -> bool {
    match v {
        TomlV::String(_) => true,
        TomlV::Integer(_) => true,
        TomlV::Boolean(_) => true,
        TomlV::Float(f) => finite_bits(f.bits),
        _ => false,
    }
}

/// Constraints that set at least one kind and whose literals JSON carries.
pub open spec fn portable_constraints(c: ConstraintsV) -> bool {
    &&& (c.categories is Some || c.min is Some || c.max is Some || c.min_length is Some
        || c.max_length is Some || c.pattern is Some)
    &&& (c.categories matches Some(cats) ==> forall|i: int|
        0 <= i < cats.len() ==> json_portable(#[trigger] cats[i]))
    &&& (c.min matches Some(v) ==> json_portable(v))
    &&& (c.max matches Some(v) ==> json_portable(v))
}

/// A field type that its schema carries back: a scalar other than the
/// dates, an array of such a type, or an object whose children, named in
/// strictly increasing order (the order of a `BTreeMap`), are such types.
pub open spec fn portable_type(ft: FieldTypeV) -> bool
    decreases ft,
{
    match ft {
        FieldTypeV::Date => false,
        FieldTypeV::DateTime => false,
        FieldTypeV::Array(inner) => portable_type(*inner),
        FieldTypeV::Object(fields) => sorted_keys(fields) && forall|i: int|
            0 <= i < fields.len() ==> portable_type(#[trigger] fields[i].1),
        _ => true,
    }
}

/// A field that its schema carries back: its type is a [`portable_type`]
/// other than an object, and constraints, when it has any, are
/// [`portable_constraints`] on a type they apply to: a scalar other than a
/// boolean, or an array of one.
pub open spec fn portable_field(f: TomlFieldV) -> bool {
    match type_of(f.field_type) {
        Err(_) => false,
        Ok(ft) => {
            &&& portable_type(ft)
            &&& !(ft is Object)
            &&& (f.constraints matches Some(c) ==> {
                &&& scalar_type(constrained_type(ft))
                &&& !(constrained_type(ft) is Boolean)
                &&& portable_constraints(c)
            })
        },
    }
}

/// The keyword names are distinct words.
pub(crate) proof fn lemma_keywords_distinct()
    ensures
        "type"@ != "format"@,
        "type"@ != "items"@,
        "type"@ != "enum"@,
        "type"@ != "minimum"@,
        "type"@ != "maximum"@,
        "type"@ != "minLength"@,
        "type"@ != "maxLength"@,
        "type"@ != "pattern"@,
        "type"@ != "x-mdvs"@,
        "format"@ != "items"@,
        "format"@ != "enum"@,
        "format"@ != "minimum"@,
        "format"@ != "maximum"@,
        "format"@ != "minLength"@,
        "format"@ != "maxLength"@,
        "format"@ != "pattern"@,
        "format"@ != "x-mdvs"@,
        "items"@ != "x-mdvs"@,
        "enum"@ != "minimum"@,
        "enum"@ != "maximum"@,
        "enum"@ != "minLength"@,
        "enum"@ != "maxLength"@,
        "enum"@ != "pattern"@,
        "enum"@ != "x-mdvs"@,
        "minimum"@ != "maximum"@,
        "minimum"@ != "minLength"@,
        "minimum"@ != "maxLength"@,
        "minimum"@ != "pattern"@,
        "minimum"@ != "x-mdvs"@,
        "maximum"@ != "minLength"@,
        "maximum"@ != "maxLength"@,
        "maximum"@ != "pattern"@,
        "maximum"@ != "x-mdvs"@,
        "minLength"@ != "maxLength"@,
        "minLength"@ != "pattern"@,
        "minLength"@ != "x-mdvs"@,
        "maxLength"@ != "pattern"@,
        "maxLength"@ != "x-mdvs"@,
        "pattern"@ != "x-mdvs"@,
        "allowed"@ != "required"@,
        "allowed"@ != "preprocess"@,
        "required"@ != "preprocess"@,
        "string"@ != "null"@,
        "integer"@ != "null"@,
        "number"@ != "null"@,
        "boolean"@ != "null"@,
        "array"@ != "null"@,
        "string"@ != "integer"@,
        "string"@ != "number"@,
        "string"@ != "boolean"@,
        "string"@ != "array"@,
        "integer"@ != "number"@,
        "integer"@ != "boolean"@,
        "integer"@ != "array"@,
        "number"@ != "boolean"@,
        "number"@ != "array"@,
        "boolean"@ != "array"@,
        "coerce_to_string"@ != "widen_int_to_float"@,
        "string"@ != "object"@,
        "integer"@ != "object"@,
        "number"@ != "object"@,
        "boolean"@ != "object"@,
        "array"@ != "object"@,
        "$schema"@ != "properties"@,
        "type"@ != "properties"@,
        "additionalProperties"@ != "properties"@,
        "x-mdvs"@ != "properties"@,
        "x-mdvs"@ != "additionalProperties"@,
        "type"@ != "additionalProperties"@,
{
    reveal_strlit("type");
    reveal_strlit("format");
    reveal_strlit("items");
    reveal_strlit("enum");
    reveal_strlit("minimum");
    reveal_strlit("maximum");
    reveal_strlit("minLength");
    reveal_strlit("maxLength");
    reveal_strlit("pattern");
    reveal_strlit("x-mdvs");
    reveal_strlit("allowed");
    reveal_strlit("required");
    reveal_strlit("preprocess");
    reveal_strlit("string");
    reveal_strlit("integer");
    reveal_strlit("number");
    reveal_strlit("boolean");
    reveal_strlit("array");
    reveal_strlit("null");
    reveal_strlit("coerce_to_string");
    reveal_strlit("widen_int_to_float");
    reveal_strlit("object");
    reveal_strlit("$schema");
    reveal_strlit("properties");
    reveal_strlit("additionalProperties");
    assert("type"@.len() != "format"@.len());
    assert("type"@.len() != "items"@.len());
    assert("type"@[0] != "enum"@[0]);
    assert("type"@.len() != "minimum"@.len());
    assert("type"@.len() != "maximum"@.len());
    assert("type"@.len() != "minLength"@.len());
    assert("type"@.len() != "maxLength"@.len());
    assert("type"@.len() != "pattern"@.len());
    assert("type"@.len() != "x-mdvs"@.len());
    assert("format"@.len() != "items"@.len());
    assert("format"@.len() != "enum"@.len());
    assert("format"@.len() != "minimum"@.len());
    assert("format"@.len() != "maximum"@.len());
    assert("format"@.len() != "minLength"@.len());
    assert("format"@.len() != "maxLength"@.len());
    assert("format"@.len() != "pattern"@.len());
    assert("format"@[0] != "x-mdvs"@[0]);
    assert("items"@.len() != "x-mdvs"@.len());
    assert("enum"@.len() != "minimum"@.len());
    assert("enum"@.len() != "maximum"@.len());
    assert("enum"@.len() != "minLength"@.len());
    assert("enum"@.len() != "maxLength"@.len());
    assert("enum"@.len() != "pattern"@.len());
    assert("enum"@.len() != "x-mdvs"@.len());
    assert("minimum"@[1] != "maximum"@[1]);
    assert("minimum"@.len() != "minLength"@.len());
    assert("minimum"@.len() != "maxLength"@.len());
    assert("minimum"@[0] != "pattern"@[0]);
    assert("minimum"@.len() != "x-mdvs"@.len());
    assert("maximum"@.len() != "minLength"@.len());
    assert("maximum"@.len() != "maxLength"@.len());
    assert("maximum"@[0] != "pattern"@[0]);
    assert("maximum"@.len() != "x-mdvs"@.len());
    assert("minLength"@[1] != "maxLength"@[1]);
    assert("minLength"@.len() != "pattern"@.len());
    assert("minLength"@.len() != "x-mdvs"@.len());
    assert("maxLength"@.len() != "pattern"@.len());
    assert("maxLength"@.len() != "x-mdvs"@.len());
    assert("pattern"@.len() != "x-mdvs"@.len());
    assert("allowed"@.len() != "required"@.len());
    assert("allowed"@.len() != "preprocess"@.len());
    assert("required"@.len() != "preprocess"@.len());
    assert("string"@.len() != "null"@.len());
    assert("integer"@.len() != "null"@.len());
    assert("number"@.len() != "null"@.len());
    assert("boolean"@.len() != "null"@.len());
    assert("array"@.len() != "null"@.len());
    assert("string"@.len() != "integer"@.len());
    assert("string"@[0] != "number"@[0]);
    assert("string"@.len() != "boolean"@.len());
    assert("string"@.len() != "array"@.len());
    assert("integer"@.len() != "number"@.len());
    assert("integer"@[0] != "boolean"@[0]);
    assert("integer"@.len() != "array"@.len());
    assert("number"@.len() != "boolean"@.len());
    assert("number"@.len() != "array"@.len());
    assert("boolean"@.len() != "array"@.len());
    assert("coerce_to_string"@.len() != "widen_int_to_float"@.len());
    assert("string"@[0] != "object"@[0]);
    assert("integer"@.len() != "object"@.len());
    assert("number"@[0] != "object"@[0]);
    assert("boolean"@.len() != "object"@.len());
    assert("array"@.len() != "object"@.len());
    assert("$schema"@.len() != "properties"@.len());
    assert("type"@.len() != "properties"@.len());
    assert("additionalProperties"@.len() != "properties"@.len());
    assert("x-mdvs"@.len() != "properties"@.len());
    assert("x-mdvs"@.len() != "additionalProperties"@.len());
    assert("type"@.len() != "additionalProperties"@.len());
}

/// The constraint keywords are absent from `e`.
pub open spec fn no_constraint_keys(e: Members) -> bool {
    &&& entries_get(e, "enum"@) is None
    &&& entries_get(e, "minimum"@) is None
    &&& entries_get(e, "maximum"@) is None
    &&& entries_get(e, "minLength"@) is None
    &&& entries_get(e, "maxLength"@) is None
    &&& entries_get(e, "pattern"@) is None
}

/// The `enum` list written for categories.
pub open spec fn enum_list(cats: Seq<TomlV>, nullable: bool) -> JsonV {
    JsonV::Array(enum_values(cats) + (if nullable { seq![JsonV::Null] } else { Seq::empty() }))
}

/// What the constraint keywords hold once constraints are applied to
/// members that had none of them; other keys keep their values.
proof fn lemma_apply_constraints_get(e: Members, nullable: bool, c: ConstraintsV, k: Seq<char>)
    requires
        no_constraint_keys(e),
    ensures
        entries_get(apply_constraints(e, nullable, Some(c)), k) == (if k == "enum"@ {
            match c.categories {
                Some(cats) => Some(enum_list(cats, nullable)),
                None => None,
            }
        } else if k == "minimum"@ {
            match c.min {
                Some(t) => toml_to_json(t),
                None => None,
            }
        } else if k == "maximum"@ {
            match c.max {
                Some(t) => toml_to_json(t),
                None => None,
            }
        } else if k == "minLength"@ {
            match c.min_length {
                Some(n) => Some(count_json(n)),
                None => None,
            }
        } else if k == "maxLength"@ {
            match c.max_length {
                Some(n) => Some(count_json(n)),
                None => None,
            }
        } else if k == "pattern"@ {
            match c.pattern {
                Some(p) => Some(JsonV::String(p)),
                None => None,
            }
        } else {
            entries_get(e, k)
        }),
{
    lemma_keywords_distinct();
    let e1 = match c.categories {
        Some(cats) => entries_insert(e, "enum"@, enum_list(cats, nullable)),
        None => e,
    };
    if let Some(cats) = c.categories {
        lemma_get_insert(e, "enum"@, enum_list(cats, nullable), k);
        lemma_get_insert(e, "enum"@, enum_list(cats, nullable), "minimum"@);
        lemma_get_insert(e, "enum"@, enum_list(cats, nullable), "maximum"@);
        lemma_get_insert(e, "enum"@, enum_list(cats, nullable), "minLength"@);
        lemma_get_insert(e, "enum"@, enum_list(cats, nullable), "maxLength"@);
        lemma_get_insert(e, "enum"@, enum_list(cats, nullable), "pattern"@);
    }
    let e2 = insert_literal(e1, "minimum"@, c.min);
    if let Some(t) = c.min {
        if let Some(j) = toml_to_json(t) {
            lemma_get_insert(e1, "minimum"@, j, k);
            lemma_get_insert(e1, "minimum"@, j, "maximum"@);
            lemma_get_insert(e1, "minimum"@, j, "minLength"@);
            lemma_get_insert(e1, "minimum"@, j, "maxLength"@);
            lemma_get_insert(e1, "minimum"@, j, "pattern"@);
        }
    }
    let e3 = insert_literal(e2, "maximum"@, c.max);
    if let Some(t) = c.max {
        if let Some(j) = toml_to_json(t) {
            lemma_get_insert(e2, "maximum"@, j, k);
            lemma_get_insert(e2, "maximum"@, j, "minLength"@);
            lemma_get_insert(e2, "maximum"@, j, "maxLength"@);
            lemma_get_insert(e2, "maximum"@, j, "pattern"@);
        }
    }
    let e4 = insert_count(e3, "minLength"@, c.min_length);
    if let Some(n) = c.min_length {
        lemma_get_insert(e3, "minLength"@, count_json(n), k);
        lemma_get_insert(e3, "minLength"@, count_json(n), "maxLength"@);
        lemma_get_insert(e3, "minLength"@, count_json(n), "pattern"@);
    }
    let e5 = insert_count(e4, "maxLength"@, c.max_length);
    if let Some(n) = c.max_length {
        lemma_get_insert(e4, "maxLength"@, count_json(n), k);
        lemma_get_insert(e4, "maxLength"@, count_json(n), "pattern"@);
    }
    if let Some(p) = c.pattern {
        lemma_get_insert(e5, "pattern"@, JsonV::String(p), k);
    }
}

/// A portable literal comes back from JSON as itself.
proof fn lemma_literal_roundtrip(t: TomlV)
    requires
        json_portable(t),
    ensures
        toml_to_json(t) is Some,
        !(toml_to_json(t)->0 is Null),
        json_to_toml(toml_to_json(t)->0) == Some(t),
{
}

/// Categories written as an `enum` list read back as themselves.
proof fn lemma_enum_roundtrip(name: Seq<char>, cats: Seq<TomlV>, nullable: bool)
    requires
        forall|i: int| 0 <= i < cats.len() ==> json_portable(#[trigger] cats[i]),
    ensures
        enum_categories(name, enum_values(cats), nullable) == Ok::<Seq<TomlV>, Seq<char>>(cats),
    decreases cats.len(),
{
    if cats.len() > 0 {
        let init = cats.drop_last();
        assert forall|i: int| 0 <= i < init.len() implies json_portable(#[trigger] init[i]) by {
            assert(init[i] == cats[i]);
        }
        lemma_enum_roundtrip(name, init, nullable);
        assert(json_portable(cats[cats.len() - 1]));
        lemma_literal_roundtrip(cats.last());
        let j = toml_to_json(cats.last())->0;
        let arr = enum_values(cats);
        assert(arr == enum_values(init) + seq![j]);
        assert(arr.drop_last() =~= enum_values(init));
        assert(arr.last() == j);
        assert(arr.len() > 0);
        assert(enum_categories(name, arr, nullable) == Ok::<Seq<TomlV>, Seq<char>>(init.push(cats.last())));
        assert(init.push(cats.last()) =~= cats);
    } else {
        assert(cats =~= Seq::<TomlV>::empty());
    }
}

/// Constraints applied to members without constraint keywords read back as
/// themselves, by a reader that allows null whenever the writer did.
proof fn lemma_constraints_roundtrip(name: Seq<char>, e: Members, wn: bool, c: ConstraintsV, rn: bool)
    requires
        no_constraint_keys(e),
        portable_constraints(c),
        wn ==> rn,
    ensures
        extract_constraints(name, apply_constraints(e, wn, Some(c)), rn) == Ok::<Option<ConstraintsV>, Seq<char>>(Some(c)),
{
    let src = apply_constraints(e, wn, Some(c));
    lemma_keywords_distinct();
    lemma_apply_constraints_get(e, wn, c, "enum"@);
    lemma_apply_constraints_get(e, wn, c, "minimum"@);
    lemma_apply_constraints_get(e, wn, c, "maximum"@);
    lemma_apply_constraints_get(e, wn, c, "minLength"@);
    lemma_apply_constraints_get(e, wn, c, "maxLength"@);
    lemma_apply_constraints_get(e, wn, c, "pattern"@);
    if let Some(cats) = c.categories {
        lemma_enum_roundtrip(name, cats, rn);
        if wn {
            let arr = enum_values(cats) + seq![JsonV::Null];
            assert(arr.drop_last() =~= enum_values(cats));
            assert(enum_categories(name, arr, rn) == Ok::<Seq<TomlV>, Seq<char>>(cats));
        } else {
            assert(enum_values(cats) + Seq::<JsonV>::empty() =~= enum_values(cats));
        }
    }
    if let Some(n) = c.min_length {
        assert(as_u64(count_json(n)) == Some(n));
    }
    if let Some(n) = c.max_length {
        assert(as_u64(count_json(n)) == Some(n));
    }
}

/// The JSON type name of a scalar field type.
pub open spec fn scalar_name(ft: FieldTypeV) -> Seq<char> {
    match ft {
        FieldTypeV::Boolean => "boolean"@,
        FieldTypeV::Integer => "integer"@,
        FieldTypeV::Float => "number"@,
        _ => "string"@,
    }
}

/// `extract_constraints` looks at the constraint keywords only.
proof fn lemma_constraints_by_keys(name: Seq<char>, a: Members, b: Members, rn: bool)
    requires
        entries_get(a, "enum"@) == entries_get(b, "enum"@),
        entries_get(a, "minimum"@) == entries_get(b, "minimum"@),
        entries_get(a, "maximum"@) == entries_get(b, "maximum"@),
        entries_get(a, "minLength"@) == entries_get(b, "minLength"@),
        entries_get(a, "maxLength"@) == entries_get(b, "maxLength"@),
        entries_get(a, "pattern"@) == entries_get(b, "pattern"@),
    ensures
        extract_constraints(name, a, rn) == extract_constraints(name, b, rn),
{
}

/// A `type` keyword written for a type name reads back as that name.
proof fn lemma_type_value_roundtrip(name: Seq<char>, ty: Seq<char>, nullable: bool, m: Members)
    requires
        ty != "null"@,
        entries_get(m, "type"@) == Some(type_value(ty, nullable)),
    ensures
        type_name_of(name, m) == Ok::<(Seq<char>, bool), Seq<char>>((ty, nullable)),
{
    if nullable {
        let arr = seq![JsonV::String(ty), JsonV::String("null"@)];
        assert(arr.drop_last() =~= seq![JsonV::String(ty)]);
        assert(seq![JsonV::String(ty)].drop_last() =~= Seq::<JsonV>::empty());
        assert(type_union(name, Seq::<JsonV>::empty()) == Ok::<(Seq<Seq<char>>, bool), Seq<char>>((Seq::empty(), false)));
        assert(Seq::<Seq<char>>::empty().push(ty) =~= seq![ty]);
        assert(type_union(name, seq![JsonV::String(ty)]) == Ok::<(Seq<Seq<char>>, bool), Seq<char>>((seq![ty], false)));
        assert(type_union(name, arr) == Ok::<(Seq<Seq<char>>, bool), Seq<char>>((seq![ty], true)));
    }
}

/// The schema members of a scalar type, with its constraints: the `type`
/// keyword, no `format`, `items` or `x-mdvs`, and the constraint keywords
/// as written for `c`.
proof fn lemma_scalar_members(ft: FieldTypeV, nullable: bool, c: Option<ConstraintsV>)
    requires
        scalar_type(ft),
        ft is Boolean ==> c is None,
    ensures
        entries_get(type_subschema(ft, nullable, c), "type"@) == Some(type_value(scalar_name(ft), nullable)),
        entries_get(type_subschema(ft, nullable, c), "format"@) is None,
        entries_get(type_subschema(ft, nullable, c), "x-mdvs"@) is None,
        no_constraint_keys(entries_insert(Seq::<(Seq<char>, JsonV)>::empty(), "type"@, type_value(scalar_name(ft), nullable))),
        type_subschema(ft, nullable, c) == apply_constraints(
            entries_insert(Seq::<(Seq<char>, JsonV)>::empty(), "type"@, type_value(scalar_name(ft), nullable)),
            nullable,
            c,
        ),
{
    lemma_keywords_distinct();
    let base = entries_insert(Seq::<(Seq<char>, JsonV)>::empty(), "type"@, type_value(scalar_name(ft), nullable));
    lemma_get_insert(Seq::<(Seq<char>, JsonV)>::empty(), "type"@, type_value(scalar_name(ft), nullable), "type"@);
    lemma_get_insert(Seq::<(Seq<char>, JsonV)>::empty(), "type"@, type_value(scalar_name(ft), nullable), "format"@);
    lemma_get_insert(Seq::<(Seq<char>, JsonV)>::empty(), "type"@, type_value(scalar_name(ft), nullable), "x-mdvs"@);
    lemma_get_insert(Seq::<(Seq<char>, JsonV)>::empty(), "type"@, type_value(scalar_name(ft), nullable), "enum"@);
    lemma_get_insert(Seq::<(Seq<char>, JsonV)>::empty(), "type"@, type_value(scalar_name(ft), nullable), "minimum"@);
    lemma_get_insert(Seq::<(Seq<char>, JsonV)>::empty(), "type"@, type_value(scalar_name(ft), nullable), "maximum"@);
    lemma_get_insert(Seq::<(Seq<char>, JsonV)>::empty(), "type"@, type_value(scalar_name(ft), nullable), "minLength"@);
    lemma_get_insert(Seq::<(Seq<char>, JsonV)>::empty(), "type"@, type_value(scalar_name(ft), nullable), "maxLength"@);
    lemma_get_insert(Seq::<(Seq<char>, JsonV)>::empty(), "type"@, type_value(scalar_name(ft), nullable), "pattern"@);
    if let Some(cc) = c {
        lemma_apply_constraints_get(base, nullable, cc, "type"@);
        lemma_apply_constraints_get(base, nullable, cc, "format"@);
        lemma_apply_constraints_get(base, nullable, cc, "x-mdvs"@);
    }
}

/// A scalar type's schema reads back as the type.
proof fn lemma_scalar_type_roundtrip(name: Seq<char>, ft: FieldTypeV, nullable: bool, m: Members)
    requires
        scalar_type(ft),
        entries_get(m, "type"@) == Some(type_value(scalar_name(ft), nullable)),
        entries_get(m, "format"@) is None,
    ensures
        extract_type(name, m) == Ok::<(FieldTypeV, bool), Seq<char>>((ft, nullable)),
{
    lemma_keywords_distinct();
    lemma_type_value_roundtrip(name, scalar_name(ft), nullable, m);
}

/// The serde form of a field type is what it was read from.
proof fn lemma_serde_of_type(t: FtsV)
    requires
        type_of(t) is Ok,
    ensures
        serde_of(type_of(t)->Ok_0) == t,
    decreases t,
{
    match t {
        FtsV::Scalar(n) => {},
        FtsV::Array(a) => {
            lemma_serde_of_type(*a);
        },
        FtsV::Object(ps) => {
            lemma_serde_of_pairs(ps);
        },
    }
}

/// The serde form of an object's children is what they were read from.
proof fn lemma_serde_of_pairs(ps: Seq<(Seq<char>, FtsV)>)
    requires
        type_pairs_of(ps) is Ok,
    ensures
        serde_pairs_of(type_pairs_of(ps)->Ok_0) == ps,
    decreases ps,
{
    if ps.len() > 0 {
        lemma_serde_of_type(ps[0].1);
        lemma_serde_of_pairs(ps.drop_first());
        let r = type_pairs_of(ps)->Ok_0;
        assert(r[0] == (ps[0].0, type_of(ps[0].1)->Ok_0));
        assert(r.drop_first() =~= type_pairs_of(ps.drop_first())->Ok_0);
        assert(serde_pairs_of(r) =~= ps);
    }
}

/// An insertion leaves at least one entry.
proof fn lemma_insert_nonempty(e: Members, k: Seq<char>, v: JsonV)
    ensures
        entries_insert(e, k, v).len() > 0,
{
    crate::keyed::lemma_pos_from_bounds(crate::keyed::keys_of_view(e), k, 0);
}

/// A list of globs written as strings reads back as itself.
proof fn lemma_string_list_roundtrip(a: Seq<Seq<char>>)
    ensures
        string_array(string_list(a)) == Some(a),
{
    let items = Seq::new(a.len(), |i: int| JsonV::String(a[i]));
    assert(crate::schema::json_schema::from_canonical::all_strings(items));
    assert(Seq::new(items.len(), |i: int| items[i]->String_0) =~= a);
}

/// Stage names read back as the stages.
proof fn lemma_stage_list_roundtrip(p: Seq<ValueStage>)
    ensures
        stage_list(string_list(Seq::new(p.len(), |i: int| schema_stage_name(p[i])))) == Some(p),
{
    lemma_keywords_distinct();
    let items = string_list(Seq::new(p.len(), |i: int| schema_stage_name(p[i])))->Array_0;
    assert forall|i: int| 0 <= i < items.len() implies stage_of(#[trigger] items[i]) == Some(p[i]) by {
        assert(items[i] == JsonV::String(schema_stage_name(p[i])));
        reveal_strlit("coerce-to-string");
        reveal_strlit("widen-int-to-float");
        reveal_strlit("coerce_to_string");
        reveal_strlit("widen_int_to_float");
        if p[i] == ValueStage::CoerceToString {
            assert("coerce-to-string"@[0] != "widen-int-to-float"@[0]);
            assert("coerce-to-string"@[0] != "widen_int_to_float"@[0]);
        } else {
            assert("widen-int-to-float"@[0] != "coerce-to-string"@[0]);
            assert("widen-int-to-float"@[0] != "coerce_to_string"@[0]);
        }
    }
    assert(crate::schema::json_schema::from_canonical::all_stages(items));
    assert(Seq::new(items.len(), |i: int| stage_of(items[i])->0) =~= p);
}

/// A field's `x-mdvs` members read back as its globs and stages.
proof fn lemma_x_mdvs_roundtrip(name: Seq<char>, f: TomlFieldV, m: Members)
    requires
        entries_get(m, "x-mdvs"@) == (if x_mdvs_members(f).len() > 0 {
            Some(JsonV::Object(x_mdvs_members(f)))
        } else {
            None
        }),
    ensures
        extract_x_mdvs(name, m) == Ok::<(Seq<Seq<char>>, Seq<Seq<char>>, Seq<ValueStage>), Seq<char>>((f.allowed, f.required, f.preprocess)),
{
    lemma_keywords_distinct();
    let x = x_mdvs_members(f);
    let empty = Seq::<(Seq<char>, JsonV)>::empty();
    let e1: Members = if !default_allowed_spec(f.allowed) {
        entries_insert(empty, "allowed"@, string_list(f.allowed))
    } else {
        empty
    };
    let e2 = if f.required.len() > 0 {
        entries_insert(e1, "required"@, string_list(f.required))
    } else {
        e1
    };
    let names = Seq::new(f.preprocess.len(), |i: int| schema_stage_name(f.preprocess[i]));
    if !default_allowed_spec(f.allowed) {
        lemma_insert_nonempty(empty, "allowed"@, string_list(f.allowed));
        lemma_get_insert(empty, "allowed"@, string_list(f.allowed), "allowed"@);
        lemma_get_insert(empty, "allowed"@, string_list(f.allowed), "required"@);
        lemma_get_insert(empty, "allowed"@, string_list(f.allowed), "preprocess"@);
    }
    if f.required.len() > 0 {
        lemma_insert_nonempty(e1, "required"@, string_list(f.required));
        lemma_get_insert(e1, "required"@, string_list(f.required), "allowed"@);
        lemma_get_insert(e1, "required"@, string_list(f.required), "required"@);
        lemma_get_insert(e1, "required"@, string_list(f.required), "preprocess"@);
    }
    if f.preprocess.len() > 0 {
        lemma_insert_nonempty(e2, "preprocess"@, string_list(names));
        lemma_get_insert(e2, "preprocess"@, string_list(names), "allowed"@);
        lemma_get_insert(e2, "preprocess"@, string_list(names), "required"@);
        lemma_get_insert(e2, "preprocess"@, string_list(names), "preprocess"@);
    }
    lemma_string_list_roundtrip(f.allowed);
    lemma_string_list_roundtrip(f.required);
    lemma_stage_list_roundtrip(f.preprocess);
    if default_allowed_spec(f.allowed) {
        assert(f.allowed =~= seq!["**"@]);
    }
    if f.required.len() == 0 {
        assert(f.required =~= Seq::<Seq<char>>::empty());
    }
    if f.preprocess.len() == 0 {
        assert(f.preprocess =~= Seq::<ValueStage>::empty());
    }
}

/// The structural keywords differ from the constraint keywords and from
/// one another.
proof fn lemma_structure_keys_distinct()
    ensures
        "items"@ != "enum"@,
        "items"@ != "minimum"@,
        "items"@ != "maximum"@,
        "items"@ != "minLength"@,
        "items"@ != "maxLength"@,
        "items"@ != "pattern"@,
        "properties"@ != "enum"@,
        "properties"@ != "minimum"@,
        "properties"@ != "maximum"@,
        "properties"@ != "minLength"@,
        "properties"@ != "maxLength"@,
        "properties"@ != "pattern"@,
        "additionalProperties"@ != "enum"@,
        "additionalProperties"@ != "minimum"@,
        "additionalProperties"@ != "maximum"@,
        "additionalProperties"@ != "minLength"@,
        "additionalProperties"@ != "maxLength"@,
        "additionalProperties"@ != "pattern"@,
        "items"@ != "properties"@,
        "format"@ != "properties"@,
        "object"@ != "null"@,
{
    reveal_strlit("object");
    reveal_strlit("null");
    assert("object"@.len() != "null"@.len());
    reveal_strlit("items");
    reveal_strlit("properties");
    reveal_strlit("additionalProperties");
    reveal_strlit("enum");
    reveal_strlit("minimum");
    reveal_strlit("maximum");
    reveal_strlit("minLength");
    reveal_strlit("maxLength");
    reveal_strlit("pattern");
    reveal_strlit("format");
    assert("items"@.len() != "enum"@.len());
    assert("items"@.len() != "minimum"@.len());
    assert("items"@.len() != "maximum"@.len());
    assert("items"@.len() != "minLength"@.len());
    assert("items"@.len() != "maxLength"@.len());
    assert("items"@.len() != "pattern"@.len());
    assert("properties"@.len() != "enum"@.len());
    assert("properties"@.len() != "minimum"@.len());
    assert("properties"@.len() != "maximum"@.len());
    assert("properties"@.len() != "minLength"@.len());
    assert("properties"@.len() != "maxLength"@.len());
    assert("properties"@.len() != "pattern"@.len());
    assert("additionalProperties"@.len() != "enum"@.len());
    assert("additionalProperties"@.len() != "minimum"@.len());
    assert("additionalProperties"@.len() != "maximum"@.len());
    assert("additionalProperties"@.len() != "minLength"@.len());
    assert("additionalProperties"@.len() != "maxLength"@.len());
    assert("additionalProperties"@.len() != "pattern"@.len());
    assert("items"@.len() != "properties"@.len());
    assert("format"@.len() != "properties"@.len());
}

/// After an insertion, every other key finds what it found before.
proof fn lemma_get_insert_all(e: Members, k: Seq<char>, v: JsonV)
    ensures
        forall|k2: Seq<char>| k2 != k ==> #[trigger] entries_get(entries_insert(e, k, v), k2) == entries_get(e, k2),
        entries_get(entries_insert(e, k, v), k) == Some(v),
        entries_insert(e, k, v).len() > 0,
{
    assert forall|k2: Seq<char>| k2 != k implies #[trigger] entries_get(entries_insert(e, k, v), k2) == entries_get(e, k2) by {
        lemma_get_insert(e, k, v, k2);
    }
    lemma_get_insert(e, k, v, k);
    lemma_insert_nonempty(e, k, v);
}

/// The properties written for an object's children, one per child in
/// order.
pub open spec fn property_list(fields: Seq<(Seq<char>, FieldTypeV)>) -> Members {
    Seq::new(fields.len() as nat, |i: int| (fields[i].0, JsonV::Object(type_subschema(fields[i].1, false, None))))
}

/// Children named in increasing order are written in that order.
proof fn lemma_object_properties_in_order(fields: Seq<(Seq<char>, FieldTypeV)>)
    requires
        sorted_keys(fields),
    ensures
        object_properties(fields) == property_list(fields),
    decreases fields.len(),
{
    if fields.len() > 0 {
        let init = fields.drop_last();
        assert forall|i: int, j: int| 0 <= i < j < init.len() implies seq_lt(#[trigger] init[i].0, #[trigger] init[j].0) by {
            assert(init[i] == fields[i] && init[j] == fields[j]);
        }
        lemma_object_properties_in_order(init);
        let p = property_list(init);
        let last = fields.last();
        assert forall|i: int| 0 <= i < p.len() implies seq_lt(#[trigger] p[i].0, last.0) by {
            assert(p[i].0 == fields[i].0);
            assert(seq_lt(fields[i].0, fields[fields.len() - 1].0));
        }
        lemma_insert_last(p, last.0, JsonV::Object(type_subschema(last.1, false, None)));
        assert(p.push((last.0, JsonV::Object(type_subschema(last.1, false, None)))) =~= property_list(fields));
    } else {
        assert(property_list(fields) =~= Seq::<(Seq<char>, JsonV)>::empty());
    }
}

/// Reading the properties of children named in increasing order, from the
/// `k`-th on, after the first `k` children were read, gives the children.
proof fn lemma_object_children_read(name: Seq<char>, fields: Seq<(Seq<char>, FieldTypeV)>, k: int)
    requires
        sorted_keys(fields),
        0 <= k <= fields.len(),
        forall|i: int| 0 <= i < fields.len() ==> extract_type(
            (#[trigger] fields[i]).0,
            type_subschema(fields[i].1, false, None),
        ) == Ok::<(FieldTypeV, bool), Seq<char>>((fields[i].1, false)),
    ensures
        object_children(name, property_list(fields), k, fields.take(k)) == Ok::<Seq<(Seq<char>, FieldTypeV)>, Seq<char>>(fields),
    decreases fields.len() - k,
{
    let props = property_list(fields);
    if k < fields.len() {
        let cur = fields[k];
        assert(props[k] == (cur.0, JsonV::Object(type_subschema(cur.1, false, None))));
        let done = fields.take(k);
        assert forall|i: int| 0 <= i < done.len() implies seq_lt(#[trigger] done[i].0, cur.0) by {
            assert(done[i] == fields[i]);
        }
        lemma_insert_last(done, cur.0, cur.1);
        assert(done.push((cur.0, cur.1)) =~= fields.take(k + 1));
        lemma_object_children_read(name, fields, k + 1);
    } else {
        assert(fields.take(k) =~= fields);
    }
}

/// The schema of a portable type reads back as the type, with the
/// nullability it was written with; it has a `type` keyword (not the bare
/// word `object` unless the type is an object) and no `x-mdvs`, and
/// without constraints it has no constraint keyword.
proof fn lemma_type_roundtrip(name: Seq<char>, ft: FieldTypeV, nullable: bool, c: Option<ConstraintsV>)
    requires
        portable_type(ft),
    ensures
        extract_type(name, type_subschema(ft, nullable, c)) == Ok::<(FieldTypeV, bool), Seq<char>>((ft, nullable)),
        entries_get(type_subschema(ft, nullable, c), "x-mdvs"@) is None,
        type_subschema(ft, nullable, c).len() > 0,
        !(ft is Object) ==> entries_get(type_subschema(ft, nullable, c), "type"@) != Some(JsonV::String("object"@)),
        c is None ==> no_constraint_keys(type_subschema(ft, nullable, c)),
    decreases ft,
{
    lemma_keywords_distinct();
    lemma_structure_keys_distinct();
    let empty = Seq::<(Seq<char>, JsonV)>::empty();
    let sub = type_subschema(ft, nullable, c);
    match ft {
        FieldTypeV::Array(inner) => {
            let items_sub = type_subschema(*inner, false, c);
            lemma_type_roundtrip(name, *inner, false, c);
            let t1 = entries_insert(empty, "type"@, type_value("array"@, nullable));
            lemma_get_insert_all(empty, "type"@, type_value("array"@, nullable));
            lemma_get_insert_all(t1, "items"@, JsonV::Object(items_sub));
            assert(entries_get(sub, "items"@) == Some(JsonV::Object(items_sub)));
            assert(entries_get(sub, "x-mdvs"@) is None);
            lemma_type_value_roundtrip(name, "array"@, nullable, sub);
            assert(entries_get(sub, "enum"@) is None);
            assert(entries_get(sub, "minimum"@) is None);
            assert(entries_get(sub, "maximum"@) is None);
            assert(entries_get(sub, "minLength"@) is None);
            assert(entries_get(sub, "maxLength"@) is None);
            assert(entries_get(sub, "pattern"@) is None);
        },
        FieldTypeV::Object(fields) => {
            assert forall|i: int| 0 <= i < fields.len() implies extract_type(
                (#[trigger] fields[i]).0,
                type_subschema(fields[i].1, false, None),
            ) == Ok::<(FieldTypeV, bool), Seq<char>>((fields[i].1, false)) by {
                assert(portable_type(fields[i].1));
                lemma_type_roundtrip(fields[i].0, fields[i].1, false, None);
            }
            lemma_object_properties_in_order(fields);
            lemma_object_children_read(name, fields, 0);
            assert(fields.take(0) =~= Seq::<(Seq<char>, FieldTypeV)>::empty());
            let props = object_properties(fields);
            let t1 = entries_insert(empty, "type"@, type_value("object"@, nullable));
            let t2 = entries_insert(t1, "additionalProperties"@, JsonV::Bool(true));
            lemma_get_insert_all(empty, "type"@, type_value("object"@, nullable));
            lemma_get_insert_all(t1, "additionalProperties"@, JsonV::Bool(true));
            lemma_get_insert_all(t2, "properties"@, JsonV::Object(props));
            assert(entries_get(sub, "properties"@) == Some(JsonV::Object(props)));
            assert(entries_get(sub, "x-mdvs"@) is None);
            lemma_type_value_roundtrip(name, "object"@, nullable, sub);
            assert(entries_get(sub, "enum"@) is None);
            assert(entries_get(sub, "minimum"@) is None);
            assert(entries_get(sub, "maximum"@) is None);
            assert(entries_get(sub, "minLength"@) is None);
            assert(entries_get(sub, "maxLength"@) is None);
            assert(entries_get(sub, "pattern"@) is None);
        },
        _ => {
            let cc = if ft is Boolean {
                None
            } else {
                c
            };
            assert(sub == type_subschema(ft, nullable, cc));
            lemma_scalar_members(ft, nullable, cc);
            lemma_scalar_type_roundtrip(name, ft, nullable, sub);
            assert(entries_get(sub, "type"@) is Some);
        },
    }
}

/// `extract_type` reads the `type`, `format`, `items` and `properties`
/// keywords only.
proof fn lemma_extract_type_by_keys(name: Seq<char>, a: Members, b: Members)
    requires
        entries_get(a, "type"@) == entries_get(b, "type"@),
        entries_get(a, "format"@) == entries_get(b, "format"@),
        entries_get(a, "items"@) == entries_get(b, "items"@),
        entries_get(a, "properties"@) == entries_get(b, "properties"@),
    ensures
        extract_type(name, a) == extract_type(name, b),
{
}

/// **Round trip of a field through its canonical schema.** A field whose
/// type is a scalar, an array (of arrays, to any depth) of scalars, or an
/// array of objects whose children are such types, and whose constraints,
/// when it has any, set at least one kind, hold only literals that JSON
/// carries and apply to a scalar or an array of scalars other than
/// booleans, is read back from the schema written for it as the same
/// field: name, type, globs, nullability, constraints and preprocessing.
pub proof fn lemma_field_schema_roundtrip(f: TomlFieldV)
    requires
        portable_field(f),
    ensures
        field_subschema(f) is Object,
        field_subschema(f)->Object_0.len() > 0,
        !is_intermediate(field_subschema(f)),
        field_from_subschema(f.name, field_subschema(f)->Object_0) == Ok::<TomlFieldV, Seq<char>>(f),
{
    lemma_keywords_distinct();
    lemma_structure_keys_distinct();
    let ft = type_of(f.field_type)->Ok_0;
    lemma_serde_of_type(f.field_type);
    let nullable = f.nullable;
    let c = f.constraints;
    let sub = type_subschema(ft, nullable, c);
    let x = x_mdvs_members(f);
    let m = field_subschema(f)->Object_0;
    let empty = Seq::<(Seq<char>, JsonV)>::empty();
    lemma_type_roundtrip(f.name, ft, nullable, c);
    if x.len() > 0 {
        lemma_get_insert_all(sub, "x-mdvs"@, JsonV::Object(x));
    }
    assert(entries_get(m, "type"@) == entries_get(sub, "type"@));
    assert(entries_get(m, "format"@) == entries_get(sub, "format"@));
    assert(entries_get(m, "items"@) == entries_get(sub, "items"@));
    assert(entries_get(m, "properties"@) == entries_get(sub, "properties"@));
    lemma_extract_type_by_keys(f.name, m, sub);
    match ft {
        FieldTypeV::Array(inner) => {
            let items_sub = type_subschema(*inner, false, c);
            let t1 = entries_insert(empty, "type"@, type_value("array"@, nullable));
            lemma_get_insert_all(t1, "items"@, JsonV::Object(items_sub));
            assert(entries_get(m, "items"@) == Some(JsonV::Object(items_sub)));
            if let Some(cc) = c {
                lemma_scalar_members(*inner, false, c);
                let base = entries_insert(empty, "type"@, type_value(scalar_name(*inner), false));
                lemma_constraints_roundtrip(f.name, base, false, cc, nullable);
            } else {
                lemma_type_roundtrip(f.name, *inner, false, None);
            }
        },
        _ => {
            assert(entries_get(m, "enum"@) == entries_get(sub, "enum"@));
            assert(entries_get(m, "minimum"@) == entries_get(sub, "minimum"@));
            assert(entries_get(m, "maximum"@) == entries_get(sub, "maximum"@));
            assert(entries_get(m, "minLength"@) == entries_get(sub, "minLength"@));
            assert(entries_get(m, "maxLength"@) == entries_get(sub, "maxLength"@));
            assert(entries_get(m, "pattern"@) == entries_get(sub, "pattern"@));
            lemma_constraints_by_keys(f.name, m, sub, nullable);
            if let Some(cc) = c {
                lemma_scalar_members(ft, nullable, c);
                let base = entries_insert(empty, "type"@, type_value(scalar_name(ft), nullable));
                lemma_constraints_roundtrip(f.name, base, nullable, cc, nullable);
            }
        },
    }
    lemma_x_mdvs_roundtrip(f.name, f, m);
}

// ---------------------------------------------------------------------------
// Whole documents
// ---------------------------------------------------------------------------

/// Each element's image, in order, one after another.
pub open spec fn flat_map<A, B>(s: Seq<A>, h: spec_fn(A) -> Seq<B>) -> Seq<B>
    decreases s.len(),
{
    if s.len() == 0 {
        Seq::empty()
    } else {
        h(s[0]) + flat_map(s.drop_first(), h)
    }
}

pub(crate) proof fn lemma_flat_map_append<A, B>(a: Seq<A>, b: Seq<A>, h: spec_fn(A) -> Seq<B>)
    ensures
        flat_map(a + b, h) == flat_map(a, h) + flat_map(b, h),
    decreases a.len(),
{
    if a.len() == 0 {
        assert(a + b =~= b);
        assert(Seq::<B>::empty() + flat_map(b, h) =~= flat_map(b, h));
    } else {
        assert((a + b).drop_first() =~= a.drop_first() + b);
        lemma_flat_map_append(a.drop_first(), b, h);
        assert(h(a[0]) + (flat_map(a.drop_first(), h) + flat_map(b, h)) =~= (h(a[0]) + flat_map(a.drop_first(), h)) + flat_map(b, h));
    }
}

pub(crate) proof fn lemma_flat_map_remove<A, B>(s: Seq<A>, k: int, h: spec_fn(A) -> Seq<B>)
    requires
        0 <= k < s.len(),
    ensures
        flat_map(s, h).to_multiset() == flat_map(s.remove(k), h).to_multiset().add(h(s[k]).to_multiset()),
    decreases s.len(),
{
    broadcast use vstd::multiset::group_multiset_axioms;
    vstd::seq_lib::lemma_multiset_commutative(h(s[0]), flat_map(s.drop_first(), h));
    if k == 0 {
        assert(s.remove(0) =~= s.drop_first());
        assert(flat_map(s, h).to_multiset() =~= flat_map(s.remove(k), h).to_multiset().add(h(s[k]).to_multiset()));
    } else {
        let t = s.drop_first();
        lemma_flat_map_remove(t, k - 1, h);
        assert(s.remove(k).drop_first() =~= t.remove(k - 1));
        assert(s.remove(k)[0] == s[0]);
        assert(s.remove(k).len() > 0);
        vstd::seq_lib::lemma_multiset_commutative(h(s[0]), flat_map(t.remove(k - 1), h));
        assert(t[k - 1] == s[k]);
        assert(flat_map(s, h).to_multiset() =~= flat_map(s.remove(k), h).to_multiset().add(h(s[k]).to_multiset()));
    }
}

/// Sequences with the same elements have images with the same elements.
pub(crate) proof fn lemma_flat_map_perm<A, B>(s1: Seq<A>, s2: Seq<A>, h: spec_fn(A) -> Seq<B>)
    requires
        s1.to_multiset() == s2.to_multiset(),
    ensures
        flat_map(s1, h).to_multiset() == flat_map(s2, h).to_multiset(),
    decreases s1.len(),
{
    broadcast use vstd::multiset::group_multiset_axioms;
    broadcast use vstd::seq_lib::group_to_multiset_ensures;
    if s1.len() == 0 {
        vstd::seq_lib::to_multiset_len(s1);
        vstd::seq_lib::to_multiset_len(s2);
        assert(s2.len() == 0);
        assert(s1 =~= s2);
    } else {
        let x = s1[0];
        assert(s1.to_multiset().count(x) > 0);
        assert(s2.contains(x));
        let k = choose|k: int| 0 <= k < s2.len() && s2[k] == x;
        assert(s1.remove(0) =~= s1.drop_first());
        assert(s1.drop_first().to_multiset() =~= s2.remove(k).to_multiset());
        lemma_flat_map_perm(s1.drop_first(), s2.remove(k), h);
        lemma_flat_map_remove(s2, k, h);
        lemma_flat_map_remove(s1, 0, h);
    }
}

/// The field a top-level property reads back as, when it is a leaf.
pub open spec fn leaf_of(e: (Seq<char>, JsonV)) -> Seq<TomlFieldV> {
    match e.1 {
        JsonV::Object(m) => if m.len() > 0 && !is_intermediate(e.1) {
            match field_from_subschema(e.0, m) {
                Ok(f) => seq![f],
                Err(_) => Seq::empty(),
            }
        } else {
            Seq::empty()
        },
        _ => Seq::empty(),
    }
}

/// The ignored name a top-level property reads back as, when its schema
/// is empty.
pub open spec fn ignored_of(e: (Seq<char>, JsonV)) -> Seq<Seq<char>> {
    match e.1 {
        JsonV::Object(m) => if m.len() == 0 {
            seq![e.0]
        } else {
            Seq::empty()
        },
        _ => Seq::empty(),
    }
}

/// A top-level property that the walk reads as a leaf or an ignored name.
pub open spec fn simple_entry(e: (Seq<char>, JsonV)) -> bool {
    &&& e.1 is Object
    &&& (e.1->Object_0.len() == 0 || (!is_intermediate(e.1) && field_from_subschema(e.0, e.1->Object_0) is Ok))
}

/// Walking top-level properties that are leaves and ignored names reads
/// each of them in order.
proof fn lemma_walk_simple(p: Members, i: int, acc: (Seq<TomlFieldV>, Seq<Seq<char>>))
    requires
        0 <= i <= p.len(),
        forall|j: int| 0 <= j < p.len() ==> simple_entry(#[trigger] p[j]),
    ensures
        walk_props(p, i, Seq::empty(), true, acc) == Ok::<(Seq<TomlFieldV>, Seq<Seq<char>>), Seq<char>>((
            acc.0 + flat_map(p.skip(i), |e: (Seq<char>, JsonV)| leaf_of(e)),
            acc.1 + flat_map(p.skip(i), |e: (Seq<char>, JsonV)| ignored_of(e)),
        )),
    decreases p.len() - i,
{
    let lf = |e: (Seq<char>, JsonV)| leaf_of(e);
    let ig = |e: (Seq<char>, JsonV)| ignored_of(e);
    if i == p.len() {
        assert(p.skip(i).len() == 0);
        assert(acc.0 + flat_map(p.skip(i), lf) =~= acc.0);
        assert(acc.1 + flat_map(p.skip(i), ig) =~= acc.1);
    } else {
        let e = p[i];
        assert(simple_entry(e));
        let m = e.1->Object_0;
        assert(crate::schema::json_schema::from_canonical::full_name(Seq::empty(), e.0) == e.0);
        let next: (Seq<TomlFieldV>, Seq<Seq<char>>) = if m.len() == 0 {
            (acc.0, acc.1.push(e.0))
        } else {
            (acc.0.push(field_from_subschema(e.0, m)->Ok_0), acc.1)
        };
        lemma_walk_simple(p, i + 1, next);
        assert(p.skip(i).drop_first() =~= p.skip(i + 1));
        assert(p.skip(i)[0] == e);
        assert(flat_map(p.skip(i), lf) == lf(e) + flat_map(p.skip(i + 1), lf));
        assert(flat_map(p.skip(i), ig) == ig(e) + flat_map(p.skip(i + 1), ig));
        if m.len() == 0 {
            assert(lf(e) =~= Seq::<TomlFieldV>::empty());
            assert(acc.0 + flat_map(p.skip(i + 1), lf) =~= acc.0 + (lf(e) + flat_map(p.skip(i + 1), lf)));
            assert(acc.1.push(e.0) + flat_map(p.skip(i + 1), ig) =~= acc.1 + (ig(e) + flat_map(p.skip(i + 1), ig)));
        } else {
            assert(ig(e) =~= Seq::<Seq<char>>::empty());
            assert(acc.0.push(field_from_subschema(e.0, m)->Ok_0) + flat_map(p.skip(i + 1), lf) =~= acc.0 + (lf(e) + flat_map(p.skip(i + 1), lf)));
            assert(acc.1 + flat_map(p.skip(i + 1), ig) =~= acc.1 + (ig(e) + flat_map(p.skip(i + 1), ig)));
        }
    }
}

/// A field as a top-level property.
pub open spec fn field_entry(f: TomlFieldV) -> (Seq<char>, JsonV) {
    (f.name, field_subschema(f))
}

/// An ignored name as a top-level property.
pub open spec fn ignore_entry(n: Seq<char>) -> (Seq<char>, JsonV) {
    (n, JsonV::Object(Seq::empty()))
}

/// A configuration whose fields are [`portable_field`]s with undotted,
/// distinct names, and whose ignored names are distinct and name no field.
pub open spec fn flat_config(fields: Seq<TomlFieldV>, ignore: Seq<Seq<char>>) -> bool {
    &&& forall|i: int| 0 <= i < fields.len() ==> portable_field(#[trigger] fields[i])
    &&& forall|i: int| 0 <= i < fields.len() ==> !(#[trigger] fields[i]).name.contains('.')
    &&& forall|i: int, j: int| 0 <= i < j < fields.len() ==> (#[trigger] fields[i]).name != (#[trigger] fields[j]).name
    &&& forall|i: int, j: int| 0 <= i < j < ignore.len() ==> #[trigger] ignore[i] != #[trigger] ignore[j]
    &&& forall|i: int, j: int| 0 <= i < ignore.len() && 0 <= j < fields.len() ==> #[trigger] ignore[i] != (#[trigger] fields[j]).name
}

/// An undotted name is one segment.
proof fn lemma_split_undotted(s: Seq<char>, cur: Seq<char>)
    requires
        !s.contains('.'),
    ensures
        crate::schema::json_schema::to_canonical::split_from(s, cur) == seq![cur + s],
    decreases s.len(),
{
    if s.len() == 0 {
        assert(cur + s =~= cur);
    } else {
        assert(s[0] != '.') by {
            if s[0] == '.' {
                assert(s.contains('.'));
            }
        }
        assert forall|i: int| 0 <= i < s.drop_first().len() implies s.drop_first()[i] != '.' by {
            if s.drop_first()[i] == '.' {
                assert(s[i + 1] == '.');
                assert(s.contains('.'));
            }
        }
        lemma_split_undotted(s.drop_first(), cur.push(s[0]));
        assert(cur.push(s[0]) + s.drop_first() =~= cur + s);
    }
}

/// Inserting a key that is not there adds the entry.
pub(crate) proof fn lemma_insert_fresh(e: Members, k: Seq<char>, v: JsonV)
    requires
        forall|j: int| 0 <= j < e.len() ==> (#[trigger] e[j]).0 != k,
    ensures
        entries_insert(e, k, v).to_multiset() == e.to_multiset().insert((k, v)),
{
    let keys = crate::keyed::keys_of_view(e);
    crate::keyed::lemma_pos_from_bounds(keys, k, 0);
    let p = crate::keyed::key_pos(keys, k);
    if p < keys.len() {
        assert(keys[p] == e[p].0);
    }
    assert(!crate::keyed::key_found(keys, k));
    vstd::seq_lib::to_multiset_insert(e, p, (k, v));
}

/// The properties written for undotted fields are their entries.
proof fn lemma_field_properties_flat(fields: Seq<TomlFieldV>)
    requires
        forall|i: int| 0 <= i < fields.len() ==> !(#[trigger] fields[i]).name.contains('.'),
        forall|i: int, j: int| 0 <= i < j < fields.len() ==> (#[trigger] fields[i]).name != (#[trigger] fields[j]).name,
    ensures
        crate::schema::json_schema::to_canonical::field_properties(fields).to_multiset()
            == fields.map_values(|f: TomlFieldV| field_entry(f)).to_multiset(),
        forall|j: int| 0 <= j < crate::schema::json_schema::to_canonical::field_properties(fields).len()
            ==> entry_of_field(#[trigger] crate::schema::json_schema::to_canonical::field_properties(fields)[j], fields),
    decreases fields.len(),
{
    broadcast use vstd::seq_lib::group_to_multiset_ensures;
    let fp = crate::schema::json_schema::to_canonical::field_properties(fields);
    if fields.len() == 0 {
        assert(fields.map_values(|f: TomlFieldV| field_entry(f)) =~= Seq::<(Seq<char>, JsonV)>::empty());
    } else {
        let init = fields.drop_last();
        let last = fields.last();
        assert forall|i: int| 0 <= i < init.len() implies !(#[trigger] init[i]).name.contains('.') by {
            assert(init[i] == fields[i]);
        }
        assert forall|i: int, j: int| 0 <= i < j < init.len() implies (#[trigger] init[i]).name != (#[trigger] init[j]).name by {
            assert(init[i] == fields[i]);
            assert(init[j] == fields[j]);
        }
        lemma_field_properties_flat(init);
        let prev = crate::schema::json_schema::to_canonical::field_properties(init);
        assert(!fields[fields.len() - 1].name.contains('.'));
        lemma_split_undotted(last.name, Seq::empty());
        assert(Seq::<char>::empty() + last.name =~= last.name);
        assert(fp == entries_insert(prev, last.name, field_subschema(last)));
        assert forall|j: int| 0 <= j < prev.len() implies (#[trigger] prev[j]).0 != last.name by {
            assert(entry_of_field(prev[j], init));
            let i = choose|i: int| 0 <= i < init.len() && prev[j] == field_entry(init[i]);
            assert(init[i] == fields[i]);
            assert(fields[i].name != fields[fields.len() - 1].name);
        }
        lemma_insert_fresh(prev, last.name, field_subschema(last));
        assert(fields.map_values(|f: TomlFieldV| field_entry(f)) =~= init.map_values(|f: TomlFieldV| field_entry(f)).push(field_entry(last)));
        lemma_insert_members_of(prev, last.name, field_subschema(last));
        assert forall|j: int| 0 <= j < fp.len() implies entry_of_field(#[trigger] fp[j], fields) by {
            if fp[j] != field_entry(last) {
                let a = choose|a: int| 0 <= a < prev.len() && fp[j] == prev[a];
                assert(entry_of_field(prev[a], init));
                let i = choose|i: int| 0 <= i < init.len() && prev[a] == field_entry(init[i]);
                assert(init[i] == fields[i]);
            } else {
                assert(fields[fields.len() - 1] == last);
            }
        }
    }
}

/// The members after an insertion are the inserted one and members from
/// before.
pub(crate) proof fn lemma_insert_members_of(e: Members, k: Seq<char>, v: JsonV)
    ensures
        forall|j: int| 0 <= j < entries_insert(e, k, v).len() ==> #[trigger] entries_insert(e, k, v)[j] == (k, v)
            || exists|i: int| 0 <= i < e.len() && entries_insert(e, k, v)[j] == e[i],
{
    let keys = crate::keyed::keys_of_view(e);
    crate::keyed::lemma_pos_from_bounds(keys, k, 0);
    let n = entries_insert(e, k, v);
    let p = crate::keyed::key_pos(keys, k);
    assert forall|j: int| 0 <= j < n.len() implies #[trigger] n[j] == (k, v) || exists|i: int|
        0 <= i < e.len() && n[j] == e[i] by {
        if crate::keyed::key_found(keys, k) {
            if j != p {
                assert(n[j] == e[j]);
            }
        } else {
            if j < p {
                assert(n[j] == e[j]);
            } else if j > p {
                assert(n[j] == e[j - 1]);
            }
        }
    }
}

/// Whether `e` is the entry of one of the fields.
pub open spec fn entry_of_field(e: (Seq<char>, JsonV), fields: Seq<TomlFieldV>) -> bool {
    exists|i: int| 0 <= i < fields.len() && e == field_entry(fields[i])
}

/// Whether `e` is the entry of one of the ignored names.
pub open spec fn entry_of_ignored(e: (Seq<char>, JsonV), ignore: Seq<Seq<char>>) -> bool {
    exists|i: int| 0 <= i < ignore.len() && e == ignore_entry(ignore[i])
}

/// Adding ignored names that are fresh adds their entries.
proof fn lemma_ignore_properties_flat(props: Members, fields: Seq<TomlFieldV>, ignore: Seq<Seq<char>>)
    requires
        forall|j: int| 0 <= j < props.len() ==> entry_of_field(#[trigger] props[j], fields),
        forall|i: int, j: int| 0 <= i < j < ignore.len() ==> #[trigger] ignore[i] != #[trigger] ignore[j],
        forall|i: int, j: int| 0 <= i < ignore.len() && 0 <= j < fields.len() ==> #[trigger] ignore[i] != (#[trigger] fields[j]).name,
    ensures
        crate::schema::json_schema::to_canonical::ignore_properties(props, ignore).to_multiset()
            == props.to_multiset().add(ignore.map_values(|n: Seq<char>| ignore_entry(n)).to_multiset()),
        forall|j: int| 0 <= j < crate::schema::json_schema::to_canonical::ignore_properties(props, ignore).len() ==>
            entry_of_field(#[trigger] crate::schema::json_schema::to_canonical::ignore_properties(props, ignore)[j], fields)
            || entry_of_ignored(crate::schema::json_schema::to_canonical::ignore_properties(props, ignore)[j], ignore),
    decreases ignore.len(),
{
    broadcast use vstd::multiset::group_multiset_axioms;
    broadcast use vstd::seq_lib::group_to_multiset_ensures;
    let ip = crate::schema::json_schema::to_canonical::ignore_properties(props, ignore);
    if ignore.len() == 0 {
        assert(ignore.map_values(|n: Seq<char>| ignore_entry(n)) =~= Seq::<(Seq<char>, JsonV)>::empty());
        assert(props.to_multiset().add(vstd::multiset::Multiset::empty()) =~= props.to_multiset());
    } else {
        let init = ignore.drop_last();
        let last = ignore.last();
        assert forall|i: int, j: int| 0 <= i < j < init.len() implies #[trigger] init[i] != #[trigger] init[j] by {
            assert(init[i] == ignore[i]);
            assert(init[j] == ignore[j]);
        }
        assert forall|i: int, j: int| 0 <= i < init.len() && 0 <= j < fields.len() implies #[trigger] init[i] != (#[trigger] fields[j]).name by {
            assert(init[i] == ignore[i]);
        }
        lemma_ignore_properties_flat(props, fields, init);
        let prev = crate::schema::json_schema::to_canonical::ignore_properties(props, init);
        assert(ip == entries_insert(prev, last, JsonV::Object(Seq::empty())));
        assert forall|j: int| 0 <= j < prev.len() implies (#[trigger] prev[j]).0 != last by {
            let e = prev[j];
            assert(entry_of_field(e, fields) || entry_of_ignored(e, init));
            if entry_of_field(e, fields) {
                let i = choose|i: int| 0 <= i < fields.len() && e == field_entry(fields[i]);
                assert(ignore[ignore.len() - 1] != fields[i].name);
            } else {
                let i = choose|i: int| 0 <= i < init.len() && e == ignore_entry(init[i]);
                assert(init[i] == ignore[i]);
                assert(ignore[i] != ignore[ignore.len() - 1]);
            }
        }
        lemma_insert_fresh(prev, last, JsonV::Object(Seq::empty()));
        assert(ignore.map_values(|n: Seq<char>| ignore_entry(n)) =~= init.map_values(|n: Seq<char>| ignore_entry(n)).push(ignore_entry(last)));
        assert(ip.to_multiset() =~= props.to_multiset().add(ignore.map_values(|n: Seq<char>| ignore_entry(n)).to_multiset()));
        lemma_insert_members_of(prev, last, JsonV::Object(Seq::empty()));
        assert forall|j: int| 0 <= j < ip.len() implies entry_of_field(#[trigger] ip[j], fields) || entry_of_ignored(ip[j], ignore) by {
            let e = ip[j];
            if e == ignore_entry(last) {
                assert(ignore[ignore.len() - 1] == last);
            } else {
                let a = choose|a: int| 0 <= a < prev.len() && e == prev[a];
                assert(entry_of_field(prev[a], fields) || entry_of_ignored(prev[a], init));
                if !entry_of_field(e, fields) {
                    let i = choose|i: int| 0 <= i < init.len() && prev[a] == ignore_entry(init[i]);
                    assert(init[i] == ignore[i]);
                }
            }
        }
    }
}

/// The fields' entries read back as the fields.
proof fn lemma_leaves_of_fields(fields: Seq<TomlFieldV>)
    requires
        forall|i: int| 0 <= i < fields.len() ==> portable_field(#[trigger] fields[i]),
    ensures
        flat_map(fields.map_values(|f: TomlFieldV| field_entry(f)), |e: (Seq<char>, JsonV)| leaf_of(e)) == fields,
        flat_map(fields.map_values(|f: TomlFieldV| field_entry(f)), |e: (Seq<char>, JsonV)| ignored_of(e)) == Seq::<Seq<char>>::empty(),
    decreases fields.len(),
{
    let es = fields.map_values(|f: TomlFieldV| field_entry(f));
    if fields.len() > 0 {
        assert(portable_field(fields[0]));
        lemma_field_schema_roundtrip(fields[0]);
        let rest = fields.drop_first();
        assert forall|i: int| 0 <= i < rest.len() implies portable_field(#[trigger] rest[i]) by {
            assert(rest[i] == fields[i + 1]);
        }
        lemma_leaves_of_fields(rest);
        assert(es.drop_first() =~= rest.map_values(|f: TomlFieldV| field_entry(f)));
        assert(es[0] == field_entry(fields[0]));
        assert(seq![fields[0]] + rest =~= fields);
        assert(Seq::<Seq<char>>::empty() + Seq::<Seq<char>>::empty() =~= Seq::<Seq<char>>::empty());
    } else {
        assert(es.len() == 0);
        assert(fields =~= Seq::<TomlFieldV>::empty());
    }
}

/// The ignored names' entries read back as the names.
proof fn lemma_leaves_of_ignored(ignore: Seq<Seq<char>>)
    ensures
        flat_map(ignore.map_values(|n: Seq<char>| ignore_entry(n)), |e: (Seq<char>, JsonV)| leaf_of(e)) == Seq::<TomlFieldV>::empty(),
        flat_map(ignore.map_values(|n: Seq<char>| ignore_entry(n)), |e: (Seq<char>, JsonV)| ignored_of(e)) == ignore,
    decreases ignore.len(),
{
    let es = ignore.map_values(|n: Seq<char>| ignore_entry(n));
    if ignore.len() > 0 {
        let rest = ignore.drop_first();
        lemma_leaves_of_ignored(rest);
        assert(es.drop_first() =~= rest.map_values(|n: Seq<char>| ignore_entry(n)));
        assert(es[0] == ignore_entry(ignore[0]));
        assert(seq![ignore[0]] + rest =~= ignore);
        assert(Seq::<TomlFieldV>::empty() + Seq::<TomlFieldV>::empty() =~= Seq::<TomlFieldV>::empty());
    } else {
        assert(es.len() == 0);
        assert(ignore =~= Seq::<Seq<char>>::empty());
    }
}

/// **Round trip of a configuration through its canonical schema.** For a
/// configuration whose fields are [`portable_field`]s with undotted,
/// distinct names, and whose ignored names are distinct and name no field,
/// reading back the canonical schema gives the same field definitions and
/// the same ignored names (in key order rather than the configuration's).
pub proof fn lemma_canonical_roundtrip(fields: Seq<TomlFieldV>, ignore: Seq<Seq<char>>)
    requires
        flat_config(fields, ignore),
    ensures
        canonical_import(canonical(fields, ignore)) is Ok,
        canonical_import(canonical(fields, ignore))->Ok_0.0.to_multiset() == fields.to_multiset(),
        canonical_import(canonical(fields, ignore))->Ok_0.1.to_multiset() == ignore.to_multiset(),
{
    broadcast use vstd::multiset::group_multiset_axioms;
    lemma_keywords_distinct();
    let lf = |e: (Seq<char>, JsonV)| leaf_of(e);
    let ig = |e: (Seq<char>, JsonV)| ignored_of(e);
    let fp = crate::schema::json_schema::to_canonical::field_properties(fields);
    lemma_field_properties_flat(fields);
    lemma_ignore_properties_flat(fp, fields, ignore);
    let p = crate::schema::json_schema::to_canonical::ignore_properties(fp, ignore);
    let fe = fields.map_values(|f: TomlFieldV| field_entry(f));
    let ie = ignore.map_values(|n: Seq<char>| ignore_entry(n));
    vstd::seq_lib::lemma_multiset_commutative(fe, ie);
    assert(p.to_multiset() == (fe + ie).to_multiset());
    assert forall|j: int| 0 <= j < p.len() implies simple_entry(#[trigger] p[j]) by {
        let e = p[j];
        assert(entry_of_field(e, fields) || entry_of_ignored(e, ignore));
        if entry_of_field(e, fields) {
            let i = choose|i: int| 0 <= i < fields.len() && e == field_entry(fields[i]);
            assert(portable_field(fields[i]));
            lemma_field_schema_roundtrip(fields[i]);
        }
    }
    lemma_walk_simple(p, 0, (Seq::empty(), Seq::empty()));
    assert(p.skip(0) =~= p);
    assert(Seq::<TomlFieldV>::empty() + flat_map(p, lf) =~= flat_map(p, lf));
    assert(Seq::<Seq<char>>::empty() + flat_map(p, ig) =~= flat_map(p, ig));
    let empty = Seq::<(Seq<char>, JsonV)>::empty();
    let r1 = entries_insert(empty, "$schema"@, JsonV::String(crate::schema::json_schema::to_canonical::JSON_SCHEMA_DRAFT@));
    let r2 = entries_insert(r1, "type"@, JsonV::String("object"@));
    let r3 = entries_insert(r2, "properties"@, JsonV::Object(p));
    lemma_get_insert(r2, "properties"@, JsonV::Object(p), "properties"@);
    lemma_get_insert(r3, "additionalProperties"@, JsonV::Bool(true), "properties"@);
    assert(crate::json::member(canonical(fields, ignore), "properties"@) == Some(JsonV::Object(p)));
    lemma_flat_map_perm(p, fe + ie, lf);
    lemma_flat_map_perm(p, fe + ie, ig);
    lemma_flat_map_append(fe, ie, lf);
    lemma_flat_map_append(fe, ie, ig);
    lemma_leaves_of_fields(fields);
    lemma_leaves_of_ignored(ignore);
    assert(fields + Seq::<TomlFieldV>::empty() =~= fields);
    assert(Seq::<Seq<char>>::empty() + ignore =~= ignore);
}

} // verus!
