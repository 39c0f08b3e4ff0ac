//! Canonical JSON Schema back to `mdvs.toml` field definitions.
//!
//! Only the shapes [`dsl_to_canonical`](super::to_canonical::dsl_to_canonical)
//! produces are accepted; anything else is refused with a message naming
//! the property. Intermediate object nodes are walked into, extending the
//! dotted name; leaves become one field each; empty schemas at the top
//! level are ignored names.

use vstd::prelude::*;
use crate::field_type::{FieldType, FieldTypeV, field_pairs_view, object_field_insert};
use crate::json::{JsonNumber, JsonNumV, JsonV, JsonValue, json_entries_view, json_items_view, json_size, json_text, lemma_get_size, lemma_json_entries_view, lemma_json_items_view, lemma_member_size, member, members_size, object_get, to_json_string};
use crate::keyed::{entries_get, entries_insert};
use crate::preprocess::ValueStage;
use crate::schema::config::{TomlField, TomlFieldV, field_views};
use crate::schema::constraints::{Constraints, ConstraintsV};
use crate::schema::json_schema::{is_intermediate, is_intermediate_object};
use crate::schema::shared::{FieldTypeSerde, serde_of};
use crate::schema::toml_value::{TomlV, TomlValue, toml_items_view};
use crate::text::{lemma_views_push, owned, push_str, str_eq, views};

verus! {

/// Members of a JSON object.
pub type Members = Seq<(Seq<char>, JsonV)>;

/// The fields and ignored names read back from a canonical schema.
#[derive(Debug)]
pub struct CanonicalImport {
    /// One field per leaf property, named by its dotted path.
    pub fields: Vec<TomlField>,
    /// Names of empty top-level schemas.
    pub ignore: Vec<String>,
}

/// `property '<name>': <msg>`.
pub open spec fn perr(name: Seq<char>, msg: Seq<char>) -> Seq<char> {
    "property '"@ + name + "': "@ + msg
}

/// The names in a `type` array, `"null"` set apart; refused at the first
/// entry that is not a string.
pub open spec fn type_union(name: Seq<char>, arr: Seq<JsonV>) -> Result<(Seq<Seq<char>>, bool), Seq<char>>
    decreases arr.len(),
{
    if arr.len() == 0 {
        Ok((Seq::empty(), false))
    } else {
        match type_union(name, arr.drop_last()) {
            Err(e) => Err(e),
            Ok((names, has_null)) => match arr.last() {
                JsonV::String(s) => if s == "null"@ {
                    Ok((names, true))
                } else {
                    Ok((names.push(s), has_null))
                },
                _ => Err(perr(name, "type array contains a non-string entry"@)),
            },
        }
    }
}

/// The type name and nullability a schema's `type` keyword gives.
pub open spec fn type_name_of(name: Seq<char>, sub: Members) -> Result<(Seq<char>, bool), Seq<char>> {
    match entries_get(sub, "type"@) {
        None => Err(perr(name, "missing 'type' keyword"@)),
        Some(JsonV::String(s)) => Ok((s, false)),
        Some(JsonV::Array(arr)) => match type_union(name, arr) {
            Err(e) => Err(e),
            Ok((names, has_null)) => if names.len() != 1 {
                Err(perr(name, "type union must be exactly one non-null type plus optional null"@))
            } else {
                Ok((names[0], has_null))
            },
        },
        Some(_) => Err(perr(name, "'type' must be a string or array of strings"@)),
    }
}

/// The field type and nullability of a schema: `string` (with format
/// `date` or `date-time`), `integer`, `number`, `boolean`, `array` (its
/// `items` read the same way), `object` (its `properties` read the same
/// way, each child under its own name).
pub open spec fn extract_type(name: Seq<char>, sub: Members) -> Result<(FieldTypeV, bool), Seq<char>>
    decreases members_size(sub), 0nat,
{
    match type_name_of(name, sub) {
        Err(e) => Err(e),
        Ok((ts, nullable)) => if ts == "string"@ {
            match entries_get(sub, "format"@) {
                Some(JsonV::String(f)) => if f == "date"@ {
                    Ok((FieldTypeV::Date, nullable))
                } else if f == "date-time"@ {
                    Ok((FieldTypeV::DateTime, nullable))
                } else {
                    Err(perr(name, "unsupported format '"@ + f + "' on string type"@))
                },
                _ => Ok((FieldTypeV::String, nullable)),
            }
        } else if ts == "integer"@ {
            Ok((FieldTypeV::Integer, nullable))
        } else if ts == "number"@ {
            Ok((FieldTypeV::Float, nullable))
        } else if ts == "boolean"@ {
            Ok((FieldTypeV::Boolean, nullable))
        } else if ts == "array"@ {
            match entries_get(sub, "items"@) {
                Some(JsonV::Object(items)) => {
                    proof {
                        lemma_get_size(sub, "items"@);
                    }
                    match extract_type(name, items) {
                        Err(e) => Err(e),
                        Ok((inner, _)) => Ok((FieldTypeV::Array(Box::new(inner)), nullable)),
                    }
                },
                _ => Err(perr(name, "type 'array' requires 'items' object"@)),
            }
        } else if ts == "object"@ {
            match entries_get(sub, "properties"@) {
                Some(JsonV::Object(p)) => {
                    proof {
                        lemma_get_size(sub, "properties"@);
                    }
                    match object_children(name, p, 0, Seq::empty()) {
                        Err(e) => Err(e),
                        Ok(children) => Ok((FieldTypeV::Object(children), nullable)),
                    }
                },
                _ => Ok((FieldTypeV::Object(Seq::empty()), nullable)),
            }
        } else {
            Err(perr(name, "unsupported type '"@ + ts + "'"@))
        },
    }
}

/// The children of an object type, from `props[k..]` on, added to `acc`.
pub open spec fn object_children(
    name: Seq<char>,
    props: Members,
    k: int,
    acc: Seq<(Seq<char>, FieldTypeV)>,
) -> Result<Seq<(Seq<char>, FieldTypeV)>, Seq<char>>
    decreases members_size(props), props.len() - k,
{
    if k < 0 || k >= props.len() {
        Ok(acc)
    } else {
        match props[k].1 {
            JsonV::Object(cm) => {
                proof {
                    lemma_member_size(props, k);
                }
                match extract_type(props[k].0, cm) {
                    Err(e) => Err(e),
                    Ok((child, _)) => object_children(
                        name,
                        props,
                        k + 1,
                        entries_insert(acc, props[k].0, child),
                    ),
                }
            },
            _ => Err(perr(name, "inner Object child '"@ + props[k].0 + "' schema must be an object"@)),
        }
    }
}

/// A JSON literal as a TOML literal: strings, booleans, integers and
/// floats carry over (a large unsigned integer as its nearest float, when
/// known); anything else has no TOML form here.
pub open spec fn json_to_toml(v: JsonV) -> Option<TomlV> {
    match v {
        JsonV::String(s) => Some(TomlV::String(s)),
        JsonV::Bool(b) => Some(TomlV::Boolean(b)),
        JsonV::Number(n) => match n {
            JsonNumV::Int(i) => Some(TomlV::Integer(i)),
            JsonNumV::BigUint(_, Some(f)) => Some(TomlV::Float(f)),
            JsonNumV::BigUint(_, None) => None,
            JsonNumV::Float(f) => Some(TomlV::Float(f)),
        },
        _ => None,
    }
}

/// A JSON value as an unsigned integer, when it is one.
pub open spec fn as_u64(v: JsonV) -> Option<u64> {
    match v {
        JsonV::Number(JsonNumV::Int(i)) => if i >= 0 {
            Some(i as u64)
        } else {
            None
        },
        JsonV::Number(JsonNumV::BigUint(u, _)) => Some(u as u64),
        _ => None,
    }
}

/// The categories of an `enum` list: null dropped (refused unless the field
/// is nullable), every other entry converted; refused at the first problem.
pub open spec fn enum_categories(name: Seq<char>, arr: Seq<JsonV>, nullable: bool) -> Result<
    Seq<TomlV>,
    Seq<char>,
>
    decreases arr.len(),
{
    if arr.len() == 0 {
        Ok(Seq::empty())
    } else {
        match enum_categories(name, arr.drop_last(), nullable) {
            Err(e) => Err(e),
            Ok(cats) => {
                let v = arr.last();
                if v is Null {
                    if !nullable {
                        Err(perr(name, "'enum' contains null but type is not nullable"@))
                    } else {
                        Ok(cats)
                    }
                } else {
                    match json_to_toml(v) {
                        Some(t) => Ok(cats.push(t)),
                        None => Err(perr(name, "unsupported enum value "@ + json_text(v))),
                    }
                }
            },
        }
    }
}

/// A bound (`minimum` / `maximum`), refused when it has no TOML form.
pub open spec fn bound_of(name: Seq<char>, src: Members, key: Seq<char>, label: Seq<char>) -> Result<
    Option<TomlV>,
    Seq<char>,
> {
    match entries_get(src, key) {
        None => Ok(None),
        Some(v) => match json_to_toml(v) {
            Some(t) => Ok(Some(t)),
            None => Err(perr(name, "unsupported '"@ + label + "' value"@)),
        },
    }
}

/// Whether any constraint keyword is present.
pub open spec fn has_constraint(src: Members) -> bool {
    entries_get(src, "enum"@) is Some || entries_get(src, "minimum"@) is Some || entries_get(
        src,
        "maximum"@,
    ) is Some || entries_get(src, "minLength"@) is Some || entries_get(src, "maxLength"@) is Some
        || entries_get(src, "pattern"@) is Some
}

/// The constraints of a schema (or of its `items` for arrays): none when
/// no constraint keyword is present; a `minLength` / `maxLength` that is
/// not an unsigned integer and a `pattern` that is not a string are
/// skipped.
pub open spec fn extract_constraints(name: Seq<char>, src: Members, nullable: bool) -> Result<
    Option<ConstraintsV>,
    Seq<char>,
> {
    if !has_constraint(src) {
        Ok(None)
    } else {
        let cats: Result<Option<Seq<TomlV>>, Seq<char>> = match entries_get(src, "enum"@) {
            None => Ok(None),
            Some(JsonV::Array(arr)) => match enum_categories(name, arr, nullable) {
                Err(e) => Err(e),
                Ok(c) => Ok(Some(c)),
            },
            Some(_) => Err(perr(name, "'enum' must be an array"@)),
        };
        match cats {
            Err(e) => Err(e),
            Ok(categories) => match bound_of(name, src, "minimum"@, "minimum"@) {
                Err(e) => Err(e),
                Ok(min) => match bound_of(name, src, "maximum"@, "maximum"@) {
                    Err(e) => Err(e),
                    Ok(max) => Ok(
                        Some(
                            ConstraintsV {
                                categories,
                                min,
                                max,
                                min_length: match entries_get(src, "minLength"@) {
                                    Some(v) => as_u64(v),
                                    None => None,
                                },
                                max_length: match entries_get(src, "maxLength"@) {
                                    Some(v) => as_u64(v),
                                    None => None,
                                },
                                pattern: match entries_get(src, "pattern"@) {
                                    Some(JsonV::String(p)) => Some(p),
                                    _ => None,
                                },
                            },
                        ),
                    ),
                },
            },
        }
    }
}

/// Whether every item is a string.
pub open spec fn all_strings(items: Seq<JsonV>) -> bool {
    forall|i: int| 0 <= i < items.len() ==> #[trigger] items[i] is String
}

/// An array of strings, when `v` is one.
pub open spec fn string_array(v: JsonV) -> Option<Seq<Seq<char>>> {
    match v {
        JsonV::Array(items) => if all_strings(items) {
            Some(Seq::new(items.len(), |i: int| items[i]->String_0))
        } else {
            None
        },
        _ => None,
    }
}

/// The stage a name stands for: its kebab-case schema name, or its
/// snake_case `mdvs.toml` name.
pub open spec fn stage_named(s: Seq<char>) -> Option<ValueStage> {
    if s == "coerce-to-string"@ || s == "coerce_to_string"@ {
        Some(ValueStage::CoerceToString)
    } else if s == "widen-int-to-float"@ || s == "widen_int_to_float"@ {
        Some(ValueStage::WidenIntToFloat)
    } else {
        None
    }
}

/// A stage as serde reads one: its name, or an object whose one member is
/// the name with a null value.
pub open spec fn stage_of(v: JsonV) -> Option<ValueStage> {
    match v {
        JsonV::String(s) => stage_named(s),
        JsonV::Object(m) => if m.len() == 1 && m[0].1 is Null {
            stage_named(m[0].0)
        } else {
            None
        },
        _ => None,
    }
}

/// Whether every item is a stage.
pub open spec fn all_stages(items: Seq<JsonV>) -> bool {
    forall|i: int| 0 <= i < items.len() ==> #[trigger] stage_of(items[i]) is Some
}

/// A list of stages, when `v` is an array of stages.
pub open spec fn stage_list(v: JsonV) -> Option<Seq<ValueStage>> {
    match v {
        JsonV::Array(items) => if all_stages(items) {
            Some(Seq::new(items.len(), |i: int| stage_of(items[i])->0))
        } else {
            None
        },
        _ => None,
    }
}

/// Why a preprocess list was refused.
pub open spec fn stage_list_detail() -> Seq<char> {
    "expected an array of stage names (`coerce_to_string`, `widen_int_to_float`)"@
}

/// `allowed`, `required` and `preprocess` from a property's `x-mdvs`
/// (defaults `["**"]`, none, none).
pub open spec fn extract_x_mdvs(name: Seq<char>, sub: Members) -> Result<
    (Seq<Seq<char>>, Seq<Seq<char>>, Seq<ValueStage>),
    Seq<char>,
> {
    match entries_get(sub, "x-mdvs"@) {
        None => Ok((seq!["**"@], Seq::empty(), Seq::empty())),
        Some(JsonV::Object(xm)) => {
            let allowed: Result<Seq<Seq<char>>, Seq<char>> = match entries_get(xm, "allowed"@) {
                None => Ok(seq!["**"@]),
                Some(v) => match string_array(v) {
                    Some(a) => Ok(a),
                    None => Err(perr(name, "'x-mdvs.allowed' must be an array of strings"@)),
                },
            };
            let required: Result<Seq<Seq<char>>, Seq<char>> = match entries_get(xm, "required"@) {
                None => Ok(Seq::empty()),
                Some(v) => match string_array(v) {
                    Some(a) => Ok(a),
                    None => Err(perr(name, "'x-mdvs.required' must be an array of strings"@)),
                },
            };
            let preprocess: Result<Seq<ValueStage>, Seq<char>> = match entries_get(
                xm,
                "preprocess"@,
            ) {
                None => Ok(Seq::empty()),
                Some(v) => match stage_list(v) {
                    Some(s) => Ok(s),
                    None => Err(
                        perr(name, "invalid 'x-mdvs.preprocess' entry: "@ + stage_list_detail()),
                    ),
                },
            };
            match allowed {
                Err(e) => Err(e),
                Ok(a) => match required {
                    Err(e) => Err(e),
                    Ok(r) => match preprocess {
                        Err(e) => Err(e),
                        Ok(p) => Ok((a, r, p)),
                    },
                },
            }
        },
        Some(_) => Err(perr(name, "'x-mdvs' must be an object"@)),
    }
}

/// A leaf property as a field definition.
pub open spec fn field_from_subschema(name: Seq<char>, sub: Members) -> Result<TomlFieldV, Seq<char>> {
    match extract_type(name, sub) {
        Err(e) => Err(e),
        Ok((ft, nullable)) => {
            let src: Result<Members, Seq<char>> = if ft is Array {
                match entries_get(sub, "items"@) {
                    Some(JsonV::Object(i)) => Ok(i),
                    _ => Err(perr(name, "array type missing 'items' object"@)),
                }
            } else {
                Ok(sub)
            };
            match src {
                Err(e) => Err(e),
                Ok(src) => match extract_constraints(name, src, nullable) {
                    Err(e) => Err(e),
                    Ok(constraints) => match extract_x_mdvs(name, sub) {
                        Err(e) => Err(e),
                        Ok((allowed, required, preprocess)) => Ok(
                            TomlFieldV {
                                name,
                                field_type: serde_of(ft),
                                allowed,
                                required,
                                nullable,
                                constraints,
                                preprocess,
                            },
                        ),
                    },
                },
            }
        },
    }
}

/// `prefix.name`, or `name` at the top.
pub open spec fn full_name(prefix: Seq<char>, name: Seq<char>) -> Seq<char> {
    if prefix.len() == 0 {
        name
    } else {
        prefix + "."@ + name
    }
}

/// Fields and ignored names found so far.
pub type Found = (Seq<TomlFieldV>, Seq<Seq<char>>);

/// The properties from index `i` on, walked in order: empty top-level
/// schemas are ignored names, intermediate objects are walked into, other
/// object schemas are leaves; refused at the first problem.
pub open spec fn walk_props(props: Members, i: int, prefix: Seq<char>, top: bool, acc: Found) -> Result<
    Found,
    Seq<char>,
>
    decreases members_size(props), props.len() - i,
{
    if i < 0 || i >= props.len() {
        Ok(acc)
    } else {
        let name = props[i].0;
        let full = full_name(prefix, name);
        let step: Result<Found, Seq<char>> = match props[i].1 {
            JsonV::Object(m) => if m.len() == 0 {
                if top {
                    Ok((acc.0, acc.1.push(name)))
                } else {
                    Err(perr(full, "empty schema is not allowed at nested depth"@))
                }
            } else if is_intermediate(props[i].1) {
                match entries_get(m, "properties"@) {
                    Some(JsonV::Object(inner)) => {
                        proof {
                            lemma_member_size(props, i);
                            lemma_get_size(m, "properties"@);
                        }
                        walk_props(inner, 0, full, false, acc)
                    },
                    _ => Err(
                        perr(full, "internal error — intermediate object missing properties"@),
                    ),
                }
            } else {
                match field_from_subschema(full, m) {
                    Ok(f) => Ok((acc.0.push(f), acc.1)),
                    Err(e) => Err(e),
                }
            },
            _ => Err(perr(full, "schema must be an object"@)),
        };
        match step {
            Err(e) => Err(e),
            Ok(next) => walk_props(props, i + 1, prefix, top, next),
        }
    }
}

/// The field definitions and ignored names of a canonical schema.
pub open spec fn canonical_import(schema: JsonV) -> Result<Found, Seq<char>> {
    match member(schema, "properties"@) {
        Some(JsonV::Object(p)) => walk_props(p, 0, Seq::empty(), true, (Seq::empty(), Seq::empty())),
        _ => Err("schema is missing 'properties' block"@),
    }
}


fn perr_string(name: &str, msg: &str) -> (r: String)
    ensures
        r@ == perr(name@, msg@),
{
    let mut s = owned("property '");
    push_str(&mut s, name);
    push_str(&mut s, "': ");
    push_str(&mut s, msg);
    s
}

proof fn lemma_type_union_err(name: Seq<char>, arr: Seq<JsonV>, k: int)
    requires
        0 <= k <= arr.len(),
        type_union(name, arr.take(k)) is Err,
    ensures
        type_union(name, arr) == type_union(name, arr.take(k)),
    decreases arr.len() - k,
{
    if k == arr.len() {
        assert(arr.take(k) =~= arr);
    } else {
        assert(arr.take(k + 1).drop_last() =~= arr.take(k));
        lemma_type_union_err(name, arr, k + 1);
    }
}

fn type_union_exec(name: &str, arr: &Vec<JsonValue>) -> (r: Result<(Vec<String>, bool), String>)
    ensures
        match r {
            Ok((names, has_null)) => type_union(name@, json_items_view(arr@)) == Ok::<
                (Seq<Seq<char>>, bool),
                Seq<char>,
            >((views(names@), has_null)),
            Err(e) => type_union(name@, json_items_view(arr@)) == Err::<(Seq<Seq<char>>, bool), Seq<char>>(
                e@,
            ),
        },
{
    let ghost a = json_items_view(arr@);
    proof {
        lemma_json_items_view(arr@);
    }
    let mut names: Vec<String> = Vec::new();
    let mut has_null = false;
    let mut i: usize = 0;
    assert(a.take(0) =~= Seq::<JsonV>::empty());
    assert(views(names@) =~= Seq::<Seq<char>>::empty());
    while i < arr.len()
        invariant
            i <= arr@.len(),
            a == json_items_view(arr@),
            a.len() == arr@.len(),
            forall|j: int| 0 <= j < arr@.len() ==> #[trigger] a[j] == arr@[j]@,
            type_union(name@, a.take(i as int)) == Ok::<(Seq<Seq<char>>, bool), Seq<char>>(
                (views(names@), has_null),
            ),
        decreases arr@.len() - i,
    {
        assert(a.take(i + 1).drop_last() =~= a.take(i as int));
        assert(a.take(i + 1).last() == arr@[i as int]@);
        match &arr[i] {
            JsonValue::String(s) => {
                if str_eq(s.as_str(), "null") {
                    has_null = true;
                } else {
                    let c = s.clone();
                    proof {
                        lemma_views_push(names@, c);
                    }
                    names.push(c);
                }
            },
            _ => {
                let e = perr_string(name, "type array contains a non-string entry");
                proof {
                    lemma_type_union_err(name@, a, i + 1);
                }
                return Err(e);
            },
        }
        i = i + 1;
    }
    assert(a.take(arr@.len() as int) =~= a);
    Ok((names, has_null))
}

fn type_name_exec(name: &str, sub: &Vec<(String, JsonValue)>) -> (r: Result<(String, bool), String>)
    ensures
        match r {
            Ok((ts, n)) => type_name_of(name@, json_entries_view(sub@)) == Ok::<(Seq<char>, bool), Seq<char>>(
                (ts@, n),
            ),
            Err(e) => type_name_of(name@, json_entries_view(sub@)) == Err::<(Seq<char>, bool), Seq<char>>(
                e@,
            ),
        },
{
    match object_get(sub, "type") {
        None => Err(perr_string(name, "missing 'type' keyword")),
        Some(JsonValue::String(s)) => Ok((s.clone(), false)),
        Some(JsonValue::Array(arr)) => match type_union_exec(name, arr) {
            Err(e) => Err(e),
            Ok((names, has_null)) => if names.len() != 1 {
                Err(perr_string(name, "type union must be exactly one non-null type plus optional null"))
            } else {
                Ok((names[0].clone(), has_null))
            },
        },
        Some(_) => Err(perr_string(name, "'type' must be a string or array of strings")),
    }
}

/// The field type and nullability a schema describes.
pub fn extract_type_exec(name: &str, sub: &Vec<(String, JsonValue)>) -> (r: Result<(FieldType, bool), String>)
    ensures
        match r {
            Ok((ft, n)) => extract_type(name@, json_entries_view(sub@)) == Ok::<(FieldTypeV, bool), Seq<char>>(
                (ft@, n),
            ),
            Err(e) => extract_type(name@, json_entries_view(sub@)) == Err::<(FieldTypeV, bool), Seq<char>>(
                e@,
            ),
        },
    decreases members_size(json_entries_view(sub@)), 0nat,
{
    let ghost sv = json_entries_view(sub@);
    let (ts, nullable) = match type_name_exec(name, sub) {
        Err(e) => return Err(e),
        Ok(t) => t,
    };
    if str_eq(ts.as_str(), "string") {
        match object_get(sub, "format") {
            Some(JsonValue::String(f)) => if str_eq(f.as_str(), "date") {
                Ok((FieldType::Date, nullable))
            } else if str_eq(f.as_str(), "date-time") {
                Ok((FieldType::DateTime, nullable))
            } else {
                let mut msg = owned("unsupported format '");
                push_str(&mut msg, f.as_str());
                push_str(&mut msg, "' on string type");
                Err(perr_string(name, msg.as_str()))
            },
            _ => Ok((FieldType::String, nullable)),
        }
    } else if str_eq(ts.as_str(), "integer") {
        Ok((FieldType::Integer, nullable))
    } else if str_eq(ts.as_str(), "number") {
        Ok((FieldType::Float, nullable))
    } else if str_eq(ts.as_str(), "boolean") {
        Ok((FieldType::Boolean, nullable))
    } else if str_eq(ts.as_str(), "array") {
        match object_get(sub, "items") {
            Some(JsonValue::Object(items)) => {
                proof {
                    lemma_get_size(sv, "items"@);
                }
                match extract_type_exec(name, items) {
                    Err(e) => Err(e),
                    Ok((inner, _)) => Ok((FieldType::Array(Box::new(inner)), nullable)),
                }
            },
            _ => Err(perr_string(name, "type 'array' requires 'items' object")),
        }
    } else if str_eq(ts.as_str(), "object") {
        match object_get(sub, "properties") {
            Some(JsonValue::Object(p)) => {
                proof {
                    lemma_get_size(sv, "properties"@);
                }
                let mut children: Vec<(String, FieldType)> = Vec::new();
                assert(field_pairs_view(children@) =~= Seq::<(Seq<char>, FieldTypeV)>::empty());
                match object_children_exec(name, p, 0, &mut children) {
                    Err(e) => Err(e),
                    Ok(()) => Ok((FieldType::Object(children), nullable)),
                }
            },
            _ => {
                let children: Vec<(String, FieldType)> = Vec::new();
                assert(field_pairs_view(children@) =~= Seq::<(Seq<char>, FieldTypeV)>::empty());
                Ok((FieldType::Object(children), nullable))
            },
        }
    } else {
        let mut msg = owned("unsupported type '");
        push_str(&mut msg, ts.as_str());
        push_str(&mut msg, "'");
        Err(perr_string(name, msg.as_str()))
    }
}

fn object_children_exec(
    name: &str,
    props: &Vec<(String, JsonValue)>,
    k: usize,
    acc: &mut Vec<(String, FieldType)>,
) -> (r: Result<(), String>)
    requires
        k <= props@.len(),
    ensures
        match r {
            Ok(()) => object_children(name@, json_entries_view(props@), k as int, field_pairs_view(old(acc)@))
                == Ok::<Seq<(Seq<char>, FieldTypeV)>, Seq<char>>(field_pairs_view(final(acc)@)),
            Err(e) => object_children(name@, json_entries_view(props@), k as int, field_pairs_view(old(acc)@))
                == Err::<Seq<(Seq<char>, FieldTypeV)>, Seq<char>>(e@),
        },
    decreases members_size(json_entries_view(props@)), props@.len() - k,
{
    let ghost pv = json_entries_view(props@);
    proof {
        lemma_json_entries_view(props@);
    }
    if k >= props.len() {
        return Ok(());
    }
    assert(pv[k as int] == (props@[k as int].0@, props@[k as int].1@));
    match &props[k].1 {
        JsonValue::Object(cm) => {
            proof {
                lemma_member_size(pv, k as int);
            }
            match extract_type_exec(props[k].0.as_str(), cm) {
                Err(e) => Err(e),
                Ok((child, _)) => {
                    object_field_insert(acc, props[k].0.clone(), child);
                    object_children_exec(name, props, k + 1, acc)
                },
            }
        },
        _ => {
            let mut msg = owned("inner Object child '");
            push_str(&mut msg, props[k].0.as_str());
            push_str(&mut msg, "' schema must be an object");
            Err(perr_string(name, msg.as_str()))
        },
    }
}


/// A JSON literal as a TOML literal, if it has one.
pub fn json_to_toml_value(v: &JsonValue) -> (r: Option<TomlValue>)
    ensures
        match r {
            Some(t) => json_to_toml(v@) == Some(t@),
            None => json_to_toml(v@) is None,
        },
{
    match v {
        JsonValue::String(s) => Some(TomlValue::String(s.clone())),
        JsonValue::Bool(b) => Some(TomlValue::Boolean(*b)),
        JsonValue::Number(n) => match n {
            JsonNumber::Int(i) => Some(TomlValue::Integer(*i)),
            JsonNumber::BigUint(_, Some(f)) => Some(TomlValue::Float(f.duplicate())),
            JsonNumber::BigUint(_, None) => None,
            JsonNumber::Float(f) => Some(TomlValue::Float(f.duplicate())),
        },
        _ => None,
    }
}

fn as_u64_exec(v: &JsonValue) -> (r: Option<u64>)
    ensures
        r == as_u64(v@),
{
    match v {
        JsonValue::Number(JsonNumber::Int(i)) => if *i >= 0 {
            Some(*i as u64)
        } else {
            None
        },
        JsonValue::Number(JsonNumber::BigUint(u, _)) => Some(*u),
        _ => None,
    }
}

proof fn lemma_enum_err(name: Seq<char>, arr: Seq<JsonV>, nullable: bool, k: int)
    requires
        0 <= k <= arr.len(),
        enum_categories(name, arr.take(k), nullable) is Err,
    ensures
        enum_categories(name, arr, nullable) == enum_categories(name, arr.take(k), nullable),
    decreases arr.len() - k,
{
    if k == arr.len() {
        assert(arr.take(k) =~= arr);
    } else {
        assert(arr.take(k + 1).drop_last() =~= arr.take(k));
        lemma_enum_err(name, arr, nullable, k + 1);
    }
}

fn enum_exec(name: &str, arr: &Vec<JsonValue>, nullable: bool) -> (r: Result<Vec<TomlValue>, String>)
    ensures
        match r {
            Ok(c) => enum_categories(name@, json_items_view(arr@), nullable) == Ok::<Seq<TomlV>, Seq<char>>(
                toml_items_view(c@),
            ),
            Err(e) => enum_categories(name@, json_items_view(arr@), nullable) == Err::<
                Seq<TomlV>,
                Seq<char>,
            >(e@),
        },
{
    let ghost a = json_items_view(arr@);
    proof {
        lemma_json_items_view(arr@);
    }
    let mut cats: Vec<TomlValue> = Vec::new();
    let mut i: usize = 0;
    assert(a.take(0) =~= Seq::<JsonV>::empty());
    assert(toml_items_view(cats@) =~= Seq::<TomlV>::empty());
    while i < arr.len()
        invariant
            i <= arr@.len(),
            a == json_items_view(arr@),
            a.len() == arr@.len(),
            forall|j: int| 0 <= j < arr@.len() ==> #[trigger] a[j] == arr@[j]@,
            enum_categories(name@, a.take(i as int), nullable) == Ok::<Seq<TomlV>, Seq<char>>(
                toml_items_view(cats@),
            ),
        decreases arr@.len() - i,
    {
        assert(a.take(i + 1).drop_last() =~= a.take(i as int));
        assert(a.take(i + 1).last() == arr@[i as int]@);
        match &arr[i] {
            JsonValue::Null => {
                if !nullable {
                    let e = perr_string(name, "'enum' contains null but type is not nullable");
                    proof {
                        lemma_enum_err(name@, a, nullable, i + 1);
                    }
                    return Err(e);
                }
            },
            v => match json_to_toml_value(v) {
                Some(t) => {
                    proof {
                        crate::schema::toml_value::lemma_toml_items_view(cats@);
                        crate::schema::toml_value::lemma_toml_items_view(cats@.push(t));
                        assert(toml_items_view(cats@.push(t)) =~= toml_items_view(cats@).push(t@));
                    }
                    cats.push(t);
                },
                None => {
                    let mut msg = owned("unsupported enum value ");
                    let text = to_json_string(v);
                    push_str(&mut msg, text.as_str());
                    let e = perr_string(name, msg.as_str());
                    proof {
                        lemma_enum_err(name@, a, nullable, i + 1);
                    }
                    return Err(e);
                },
            },
        }
        i = i + 1;
    }
    assert(a.take(arr@.len() as int) =~= a);
    Ok(cats)
}

fn bound_exec(name: &str, src: &Vec<(String, JsonValue)>, key: &str, label: &str) -> (r: Result<
    Option<TomlValue>,
    String,
>)
    ensures
        match r {
            Ok(b) => bound_of(name@, json_entries_view(src@), key@, label@) == Ok::<Option<TomlV>, Seq<char>>(
                match b {
                    Some(t) => Some(t@),
                    None => None,
                },
            ),
            Err(e) => bound_of(name@, json_entries_view(src@), key@, label@) == Err::<
                Option<TomlV>,
                Seq<char>,
            >(e@),
        },
{
    match object_get(src, key) {
        None => Ok(None),
        Some(v) => match json_to_toml_value(v) {
            Some(t) => Ok(Some(t)),
            None => {
                let mut msg = owned("unsupported '");
                push_str(&mut msg, label);
                push_str(&mut msg, "' value");
                Err(perr_string(name, msg.as_str()))
            },
        },
    }
}

fn has_key(src: &Vec<(String, JsonValue)>, key: &str) -> (r: bool)
    ensures
        r == entries_get(json_entries_view(src@), key@) is Some,
{
    match object_get(src, key) {
        Some(_) => true,
        None => false,
    }
}

/// The constraints a schema (or its `items`) carries.
pub fn extract_constraints_exec(name: &str, src: &Vec<(String, JsonValue)>, nullable: bool) -> (r: Result<
    Option<Constraints>,
    String,
>)
    ensures
        match r {
            Ok(c) => extract_constraints(name@, json_entries_view(src@), nullable) == Ok::<
                Option<ConstraintsV>,
                Seq<char>,
            >(
                match c {
                    Some(c) => Some(c@),
                    None => None,
                },
            ),
            Err(e) => extract_constraints(name@, json_entries_view(src@), nullable) == Err::<
                Option<ConstraintsV>,
                Seq<char>,
            >(e@),
        },
{
    let any = has_key(src, "enum") || has_key(src, "minimum") || has_key(src, "maximum") || has_key(
        src,
        "minLength",
    ) || has_key(src, "maxLength") || has_key(src, "pattern");
    if !any {
        return Ok(None);
    }
    let categories = match object_get(src, "enum") {
        None => None,
        Some(JsonValue::Array(arr)) => match enum_exec(name, arr, nullable) {
            Err(e) => return Err(e),
            Ok(c) => Some(c),
        },
        Some(_) => return Err(perr_string(name, "'enum' must be an array")),
    };
    let min = match bound_exec(name, src, "minimum", "minimum") {
        Err(e) => return Err(e),
        Ok(b) => b,
    };
    let max = match bound_exec(name, src, "maximum", "maximum") {
        Err(e) => return Err(e),
        Ok(b) => b,
    };
    let min_length = match object_get(src, "minLength") {
        Some(v) => as_u64_exec(v),
        None => None,
    };
    let max_length = match object_get(src, "maxLength") {
        Some(v) => as_u64_exec(v),
        None => None,
    };
    let pattern = match object_get(src, "pattern") {
        Some(JsonValue::String(p)) => Some(p.clone()),
        _ => None,
    };
    Ok(Some(Constraints { categories, min, max, min_length, max_length, pattern }))
}

fn string_array_exec(v: &JsonValue) -> (r: Option<Vec<String>>)
    ensures
        match r {
            Some(a) => string_array(v@) == Some(views(a@)),
            None => string_array(v@) is None,
        },
{
    match v {
        JsonValue::Array(items) => {
            proof {
                lemma_json_items_view(items@);
            }
            let ghost iv = json_items_view(items@);
            let mut out: Vec<String> = Vec::new();
            let mut i: usize = 0;
            while i < items.len()
                invariant
                    i <= items@.len(),
                    iv == json_items_view(items@),
                    iv.len() == items@.len(),
                    forall|j: int| 0 <= j < items@.len() ==> #[trigger] iv[j] == items@[j]@,
                    forall|j: int| 0 <= j < i ==> #[trigger] iv[j] is String,
                    v@ == JsonV::Array(iv),
                    views(out@) == Seq::new(i as nat, |j: int| iv[j]->String_0),
                decreases items@.len() - i,
            {
                match &items[i] {
                    JsonValue::String(s) => {
                        let c = s.clone();
                        proof {
                            lemma_views_push(out@, c);
                        }
                        out.push(c);
                    },
                    _ => {
                        assert(!(iv[i as int] is String));
                        assert(!all_strings(iv));
                        return None;
                    },
                }
                i = i + 1;
                assert(views(out@) =~= Seq::new(i as nat, |j: int| iv[j]->String_0));
            }
            Some(out)
        },
        _ => None,
    }
}

fn stage_named_exec(s: &str) -> (r: Option<ValueStage>)
    ensures
        r == stage_named(s@),
{
    if str_eq(s, "coerce-to-string") || str_eq(s, "coerce_to_string") {
        Some(ValueStage::CoerceToString)
    } else if str_eq(s, "widen-int-to-float") || str_eq(s, "widen_int_to_float") {
        Some(ValueStage::WidenIntToFloat)
    } else {
        None
    }
}

fn stage_of_exec(v: &JsonValue) -> (r: Option<ValueStage>)
    ensures
        r == stage_of(v@),
{
    match v {
        JsonValue::String(s) => stage_named_exec(s.as_str()),
        JsonValue::Object(m) => {
            proof {
                lemma_json_entries_view(m@);
            }
            if m.len() == 1 {
                match &m[0].1 {
                    JsonValue::Null => stage_named_exec(m[0].0.as_str()),
                    _ => None,
                }
            } else {
                None
            }
        },
        _ => None,
    }
}

fn stage_list_exec(v: &JsonValue) -> (r: Option<Vec<ValueStage>>)
    ensures
        match r {
            Some(a) => stage_list(v@) == Some(a@),
            None => stage_list(v@) is None,
        },
{
    match v {
        JsonValue::Array(items) => {
            proof {
                lemma_json_items_view(items@);
            }
            let ghost iv = json_items_view(items@);
            let mut out: Vec<ValueStage> = Vec::new();
            let mut i: usize = 0;
            while i < items.len()
                invariant
                    i <= items@.len(),
                    iv == json_items_view(items@),
                    iv.len() == items@.len(),
                    forall|j: int| 0 <= j < items@.len() ==> #[trigger] iv[j] == items@[j]@,
                    forall|j: int| 0 <= j < i ==> #[trigger] stage_of(iv[j]) is Some,
                    v@ == JsonV::Array(iv),
                    out@ == Seq::new(i as nat, |j: int| stage_of(iv[j])->0),
                decreases items@.len() - i,
            {
                match stage_of_exec(&items[i]) {
                    Some(st) => out.push(st),
                    None => {
                        assert(stage_of(iv[i as int]) is None);
                        assert(!all_stages(iv));
                        return None;
                    },
                }
                i = i + 1;
                assert(out@ =~= Seq::new(i as nat, |j: int| stage_of(iv[j])->0));
            }
            Some(out)
        },
        _ => None,
    }
}

fn extract_x_mdvs_exec(name: &str, sub: &Vec<(String, JsonValue)>) -> (r: Result<
    (Vec<String>, Vec<String>, Vec<ValueStage>),
    String,
>)
    ensures
        match r {
            Ok((a, q, p)) => extract_x_mdvs(name@, json_entries_view(sub@)) == Ok::<
                (Seq<Seq<char>>, Seq<Seq<char>>, Seq<ValueStage>),
                Seq<char>,
            >((views(a@), views(q@), p@)),
            Err(e) => extract_x_mdvs(name@, json_entries_view(sub@)) == Err::<
                (Seq<Seq<char>>, Seq<Seq<char>>, Seq<ValueStage>),
                Seq<char>,
            >(e@),
        },
{
    let xm = match object_get(sub, "x-mdvs") {
        None => {
            let a = crate::schema::config::default_allowed();
            let q: Vec<String> = Vec::new();
            let p: Vec<ValueStage> = Vec::new();
            assert(views(q@) =~= Seq::<Seq<char>>::empty());
            assert(p@ =~= Seq::<ValueStage>::empty());
            return Ok((a, q, p));
        },
        Some(JsonValue::Object(xm)) => xm,
        Some(_) => return Err(perr_string(name, "'x-mdvs' must be an object")),
    };
    let allowed = match object_get(xm, "allowed") {
        None => crate::schema::config::default_allowed(),
        Some(v) => match string_array_exec(v) {
            Some(a) => a,
            None => return Err(perr_string(name, "'x-mdvs.allowed' must be an array of strings")),
        },
    };
    let required = match object_get(xm, "required") {
        None => {
            let q: Vec<String> = Vec::new();
            assert(views(q@) =~= Seq::<Seq<char>>::empty());
            q
        },
        Some(v) => match string_array_exec(v) {
            Some(a) => a,
            None => return Err(perr_string(name, "'x-mdvs.required' must be an array of strings")),
        },
    };
    let preprocess = match object_get(xm, "preprocess") {
        None => {
            let p: Vec<ValueStage> = Vec::new();
            assert(p@ =~= Seq::<ValueStage>::empty());
            p
        },
        Some(v) => match stage_list_exec(v) {
            Some(s) => s,
            None => {
                let mut msg = owned("invalid 'x-mdvs.preprocess' entry: ");
                push_str(
                    &mut msg,
                    "expected an array of stage names (`coerce_to_string`, `widen_int_to_float`)",
                );
                return Err(perr_string(name, msg.as_str()));
            },
        },
    };
    Ok((allowed, required, preprocess))
}

/// A leaf property as a field definition.
pub fn field_from_subschema_exec(name: &str, sub: &Vec<(String, JsonValue)>) -> (r: Result<TomlField, String>)
    ensures
        match r {
            Ok(f) => field_from_subschema(name@, json_entries_view(sub@)) == Ok::<TomlFieldV, Seq<char>>(f@),
            Err(e) => field_from_subschema(name@, json_entries_view(sub@)) == Err::<TomlFieldV, Seq<char>>(
                e@,
            ),
        },
{
    let (ft, nullable) = match extract_type_exec(name, sub) {
        Err(e) => return Err(e),
        Ok(t) => t,
    };
    let is_array = match ft {
        FieldType::Array(_) => true,
        _ => false,
    };
    let constraints = if is_array {
        match object_get(sub, "items") {
            Some(JsonValue::Object(items)) => match extract_constraints_exec(name, items, nullable) {
                Err(e) => return Err(e),
                Ok(c) => c,
            },
            _ => return Err(perr_string(name, "array type missing 'items' object")),
        }
    } else {
        match extract_constraints_exec(name, sub, nullable) {
            Err(e) => return Err(e),
            Ok(c) => c,
        }
    };
    let (allowed, required, preprocess) = match extract_x_mdvs_exec(name, sub) {
        Err(e) => return Err(e),
        Ok(x) => x,
    };
    Ok(
        TomlField {
            name: owned(name),
            field_type: FieldTypeSerde::from(&ft),
            allowed,
            required,
            nullable,
            constraints,
            preprocess,
        },
    )
}

fn full_name_string(prefix: &str, name: &str) -> (r: String)
    ensures
        r@ == full_name(prefix@, name@),
{
    if prefix.unicode_len() == 0 {
        owned(name)
    } else {
        let mut s = owned(prefix);
        push_str(&mut s, ".");
        push_str(&mut s, name);
        s
    }
}

fn walk_exec(
    props: &Vec<(String, JsonValue)>,
    i: usize,
    prefix: &str,
    top: bool,
    fields: &mut Vec<TomlField>,
    ignore: &mut Vec<String>,
) -> (r: Result<(), String>)
    requires
        i <= props@.len(),
    ensures
        match r {
            Ok(()) => walk_props(
                json_entries_view(props@),
                i as int,
                prefix@,
                top,
                (field_views(old(fields)@), views(old(ignore)@)),
            ) == Ok::<Found, Seq<char>>((field_views(final(fields)@), views(final(ignore)@))),
            Err(e) => walk_props(
                json_entries_view(props@),
                i as int,
                prefix@,
                top,
                (field_views(old(fields)@), views(old(ignore)@)),
            ) == Err::<Found, Seq<char>>(e@),
        },
    decreases members_size(json_entries_view(props@)), props@.len() - i,
{
    let ghost pv = json_entries_view(props@);
    proof {
        lemma_json_entries_view(props@);
    }
    if i >= props.len() {
        return Ok(());
    }
    assert(pv[i as int] == (props@[i as int].0@, props@[i as int].1@));
    let name = props[i].0.as_str();
    let full = full_name_string(prefix, name);
    match &props[i].1 {
        JsonValue::Object(m) => {
            proof {
                lemma_json_entries_view(m@);
            }
            if m.len() == 0 {
                if top {
                    let c = props[i].0.clone();
                    proof {
                        lemma_views_push(ignore@, c);
                    }
                    ignore.push(c);
                } else {
                    return Err(perr_string(full.as_str(), "empty schema is not allowed at nested depth"));
                }
            } else if is_intermediate_object(&props[i].1) {
                match object_get(m, "properties") {
                    Some(JsonValue::Object(inner)) => {
                        proof {
                            lemma_member_size(pv, i as int);
                            lemma_get_size(json_entries_view(m@), "properties"@);
                        }
                        match walk_exec(inner, 0, full.as_str(), false, fields, ignore) {
                            Err(e) => return Err(e),
                            Ok(()) => {},
                        }
                    },
                    _ => {
                        return Err(
                            perr_string(
                                full.as_str(),
                                "internal error — intermediate object missing properties",
                            ),
                        );
                    },
                }
            } else {
                match field_from_subschema_exec(full.as_str(), m) {
                    Ok(f) => {
                        proof {
                            assert(field_views(fields@.push(f)) =~= field_views(fields@).push(f@));
                        }
                        fields.push(f);
                    },
                    Err(e) => return Err(e),
                }
            }
        },
        _ => return Err(perr_string(full.as_str(), "schema must be an object")),
    }
    walk_exec(props, i + 1, prefix, top, fields, ignore)
}

/// The field definitions and ignored names of a canonical schema, as
/// [`canonical_import`] gives them.
pub fn canonical_to_dsl(schema: &JsonValue) -> (r: Result<CanonicalImport, String>)
    ensures
        match r {
            Ok(c) => canonical_import(schema@) == Ok::<Found, Seq<char>>(
                (field_views(c.fields@), views(c.ignore@)),
            ),
            Err(e) => canonical_import(schema@) == Err::<Found, Seq<char>>(e@),
        },
{
    match schema.get("properties") {
        Some(JsonValue::Object(p)) => {
            let mut fields: Vec<TomlField> = Vec::new();
            let mut ignore: Vec<String> = Vec::new();
            assert(field_views(fields@) =~= Seq::<TomlFieldV>::empty());
            assert(views(ignore@) =~= Seq::<Seq<char>>::empty());
            proof {
                reveal_strlit("");
            }
            assert(""@ =~= Seq::<char>::empty());
            match walk_exec(p, 0, "", true, &mut fields, &mut ignore) {
                Err(e) => Err(e),
                Ok(()) => Ok(CanonicalImport { fields, ignore }),
            }
        },
        _ => Err(owned("schema is missing 'properties' block")),
    }
}

} // verus!
