//! Translation between the `mdvs.toml` DSL and canonical JSON Schema
//! 2020-12, and the check that keeps schemas within the mdvs subset.

use vstd::prelude::*;
use crate::json::{JsonV, JsonValue, json_entries_view, object_get};
use crate::keyed::{entries_get, entries_insert};
use crate::text::{owned, str_eq};

/// DSL to canonical schema.
pub mod to_canonical;
/// Canonical schema back to the DSL.
pub mod from_canonical;
/// The subset check.
pub mod validate;
/// A field read back from its schema is the field.
pub mod roundtrip;
/// Canonical schemas are within the mdvs subset.
pub mod in_subset;
/// The round trip of configurations with dotted names.
pub mod tree_roundtrip;
/// The canonical schema does not depend on order.
pub mod order;
/// Fields that validation accepts carry over through the schema.
pub mod valid_roundtrip;

verus! {

/// Members of an intermediate object node: an open object with (so far)
/// no properties.
pub open spec fn intermediate_entries() -> Seq<(Seq<char>, JsonV)> {
    entries_insert(
        entries_insert(
            entries_insert(Seq::empty(), "type"@, JsonV::String("object"@)),
            "additionalProperties"@,
            JsonV::Bool(true),
        ),
        "properties"@,
        JsonV::Object(Seq::empty()),
    )
}

/// Whether a schema has the shape of an intermediate object node: an
/// object schema with `type: "object"`, a `properties` object and no
/// `x-mdvs` member.
pub open spec fn is_intermediate(v: JsonV) -> bool {
    match v {
        JsonV::Object(e) => entries_get(e, "type"@) == Some(JsonV::String("object"@)) && (match entries_get(
            e,
            "properties"@,
        ) {
            Some(JsonV::Object(_)) => true,
            _ => false,
        }) && entries_get(e, "x-mdvs"@) is None,
        _ => false,
    }
}

/// Members of a fresh intermediate object node.
pub fn intermediate_object_schema() -> (r: Vec<(String, JsonValue)>)
    ensures
        json_entries_view(r@) == intermediate_entries(),
{
    let mut e: Vec<(String, JsonValue)> = Vec::new();
    assert(json_entries_view(e@) =~= Seq::<(Seq<char>, JsonV)>::empty());
    crate::json::object_insert(&mut e, owned("type"), JsonValue::String(owned("object")));
    crate::json::object_insert(&mut e, owned("additionalProperties"), JsonValue::Bool(true));
    let empty: Vec<(String, JsonValue)> = Vec::new();
    assert(json_entries_view(empty@) =~= Seq::<(Seq<char>, JsonV)>::empty());
    crate::json::object_insert(&mut e, owned("properties"), JsonValue::Object(empty));
    e
}

/// Whether a schema has the shape of an intermediate object node.
pub fn is_intermediate_object(v: &JsonValue) -> (r: bool)
    ensures
        r == is_intermediate(v@),
{
    match v {
        JsonValue::Object(e) => {
            let type_ok = match object_get(e, "type") {
                Some(JsonValue::String(s)) => str_eq(s.as_str(), "object"),
                _ => false,
            };
            let props_ok = match object_get(e, "properties") {
                Some(JsonValue::Object(_)) => true,
                _ => false,
            };
            let no_x = match object_get(e, "x-mdvs") {
                Some(_) => false,
                None => true,
            };
            type_ok && props_ok && no_x
        },
        _ => false,
    }
}

} // verus!
