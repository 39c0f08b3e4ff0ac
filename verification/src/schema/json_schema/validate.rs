//! The check that rejects JSON Schema documents using keywords outside the
//! mdvs subset, before they are read back into field definitions.

use vstd::prelude::*;
use crate::json::{JsonV, JsonValue, json_entries_view, json_size, lemma_json_entries_view, lemma_member_size, members_size};
use crate::text::{owned, push_str, str_eq};

verus! {

/// Where a schema node sits.
#[derive(Clone, Copy, PartialEq, Eq, Structural)]
pub enum Location {
    /// The top-level schema document.
    Root,
    /// A property at any depth (under `properties`, `items` or
    /// `additionalProperties`).
    Property,
}

/// The JSON Schema keywords mdvs supports.
pub open spec fn allowed_keyword(k: Seq<char>) -> bool {
    k == "type"@ || k == "properties"@ || k == "required"@ || k == "additionalProperties"@ || k
        == "items"@ || k == "enum"@ || k == "const"@ || k == "minimum"@ || k == "maximum"@ || k
        == "exclusiveMinimum"@ || k == "exclusiveMaximum"@ || k == "multipleOf"@ || k
        == "minLength"@ || k == "maxLength"@ || k == "pattern"@ || k == "minItems"@ || k
        == "maxItems"@ || k == "uniqueItems"@ || k == "format"@ || k == "$schema"@ || k == "$id"@
        || k == "title"@ || k == "description"@ || k == "x-mdvs"@
}

/// Common keywords mdvs does not support, with the reason given.
pub open spec fn hard_reject(k: Seq<char>) -> Option<Seq<char>> {
    if k == "oneOf"@ {
        Some(
            "composition keywords are out of scope; use path-scoped fields (x-mdvs.allowed/required) instead"@,
        )
    } else if k == "anyOf"@ || k == "allOf"@ || k == "not"@ {
        Some("composition keywords are out of scope"@)
    } else if k == "if"@ || k == "then"@ || k == "else"@ {
        Some("conditional keywords are out of scope"@)
    } else if k == "$ref"@ {
        Some("reference keywords are out of scope; mdvs schemas are self-contained"@)
    } else if k == "$defs"@ {
        Some("reference keywords are out of scope"@)
    } else if k == "dependentRequired"@ || k == "dependentSchemas"@ {
        Some("dependent keywords are out of scope"@)
    } else if k == "patternProperties"@ {
        Some("patternProperties is out of scope; declare each field explicitly"@)
    } else if k == "prefixItems"@ {
        Some("prefixItems (tuple validation) is out of scope; use uniform items"@)
    } else if k == "contains"@ {
        Some("contains is out of scope"@)
    } else if k == "propertyNames"@ {
        Some("propertyNames is out of scope"@)
    } else {
        None
    }
}

/// The `x-mdvs` sub-keys recognized at a location.
pub open spec fn mdvs_subkey(loc: Location, k: Seq<char>) -> bool {
    match loc {
        Location::Root => k == "preprocess"@ || k == "definitions"@,
        Location::Property => k == "allowed"@ || k == "required"@ || k == "preprocess"@,
    }
}

/// The recognized `x-mdvs` sub-keys at a location, as listed in messages.
pub open spec fn mdvs_subkeys_text(loc: Location) -> Seq<char> {
    match loc {
        Location::Root => "[\"preprocess\", \"definitions\"]"@,
        Location::Property => "[\"allowed\", \"required\", \"preprocess\"]"@,
    }
}

/// The supported `format` values.
pub open spec fn allowed_format(f: Seq<char>) -> bool {
    f == "date"@ || f == "date-time"@
}

/// A node: objects are checked member by member, anything else passes.
pub open spec fn subset(node: JsonV, loc: Location) -> Result<(), Seq<char>>
    decreases json_size(node), 0int,
{
    match node {
        JsonV::Object(m) => subset_members(m, 0, loc),
        _ => Ok(()),
    }
}

/// The first `x-mdvs` sub-key from `j` on that is not recognized.
pub open spec fn bad_subkey(xm: Seq<(Seq<char>, JsonV)>, j: int, loc: Location) -> Option<Seq<char>>
    decreases xm.len() - j,
{
    if j < 0 || j >= xm.len() {
        None
    } else if !mdvs_subkey(loc, xm[j].0) {
        Some(xm[j].0)
    } else {
        bad_subkey(xm, j + 1, loc)
    }
}

/// The members of an object node from index `i` on, in order: a
/// hard-rejected or unknown keyword is refused; `properties` must be an
/// object whose values pass at property level; `items` (and an object
/// `additionalProperties`) pass at property level; `format` must be a
/// supported string; `x-mdvs` must be an object with recognized sub-keys.
pub open spec fn subset_members(m: Seq<(Seq<char>, JsonV)>, i: int, loc: Location) -> Result<(), Seq<char>>
    decreases members_size(m), m.len() - i,
{
    if i < 0 || i >= m.len() {
        Ok(())
    } else {
        let key = m[i].0;
        let value = m[i].1;
        proof {
            lemma_member_size(m, i);
        }
        let here: Result<(), Seq<char>> = if hard_reject(key) is Some {
            Err("'"@ + key + "' is not supported by mdvs — "@ + hard_reject(key)->0)
        } else if !allowed_keyword(key) {
            Err("unknown keyword '"@ + key + "' is not part of the mdvs schema subset"@)
        } else if key == "properties"@ {
            match value {
                JsonV::Object(props) => subset_props(props, 0),
                _ => Err("'properties' must be an object"@),
            }
        } else if key == "items"@ {
            subset(value, Location::Property)
        } else if key == "additionalProperties"@ && value is Object {
            subset(value, Location::Property)
        } else if key == "format"@ {
            match value {
                JsonV::String(f) => if allowed_format(f) {
                    Ok(())
                } else {
                    Err(
                        "format '"@ + f
                            + "' is not supported by mdvs — use 'pattern' for regex-based validation"@,
                    )
                },
                _ => Err("'format' must be a string"@),
            }
        } else if key == "x-mdvs"@ {
            match value {
                JsonV::Object(xm) => match bad_subkey(xm, 0, loc) {
                    Some(k) => Err(
                        "unknown 'x-mdvs."@ + k + "' sub-key (recognized: "@ + mdvs_subkeys_text(loc)
                            + ")"@,
                    ),
                    None => Ok(()),
                },
                _ => Err("'x-mdvs' must be an object"@),
            }
        } else {
            Ok(())
        };
        match here {
            Err(e) => Err(e),
            Ok(()) => subset_members(m, i + 1, loc),
        }
    }
}

/// The property schemas from index `j` on, each at property level.
pub open spec fn subset_props(props: Seq<(Seq<char>, JsonV)>, j: int) -> Result<(), Seq<char>>
    decreases members_size(props), props.len() - j,
{
    if j < 0 || j >= props.len() {
        Ok(())
    } else {
        proof {
            lemma_member_size(props, j);
        }
        match subset(props[j].1, Location::Property) {
            Err(e) => Err(e),
            Ok(()) => subset_props(props, j + 1),
        }
    }
}

fn hard_reject_exec(k: &str) -> (r: Option<&'static str>)
    ensures
        match r {
            Some(s) => hard_reject(k@) == Some(s@),
            None => hard_reject(k@) is None,
        },
{
    if str_eq(k, "oneOf") {
        Some(
            "composition keywords are out of scope; use path-scoped fields (x-mdvs.allowed/required) instead",
        )
    } else if str_eq(k, "anyOf") || str_eq(k, "allOf") || str_eq(k, "not") {
        Some("composition keywords are out of scope")
    } else if str_eq(k, "if") || str_eq(k, "then") || str_eq(k, "else") {
        Some("conditional keywords are out of scope")
    } else if str_eq(k, "$ref") {
        Some("reference keywords are out of scope; mdvs schemas are self-contained")
    } else if str_eq(k, "$defs") {
        Some("reference keywords are out of scope")
    } else if str_eq(k, "dependentRequired") || str_eq(k, "dependentSchemas") {
        Some("dependent keywords are out of scope")
    } else if str_eq(k, "patternProperties") {
        Some("patternProperties is out of scope; declare each field explicitly")
    } else if str_eq(k, "prefixItems") {
        Some("prefixItems (tuple validation) is out of scope; use uniform items")
    } else if str_eq(k, "contains") {
        Some("contains is out of scope")
    } else if str_eq(k, "propertyNames") {
        Some("propertyNames is out of scope")
    } else {
        None
    }
}

fn allowed_keyword_exec(k: &str) -> (r: bool)
    ensures
        r == allowed_keyword(k@),
{
    str_eq(k, "type") || str_eq(k, "properties") || str_eq(k, "required") || str_eq(
        k,
        "additionalProperties",
    ) || str_eq(k, "items") || str_eq(k, "enum") || str_eq(k, "const") || str_eq(k, "minimum")
        || str_eq(k, "maximum") || str_eq(k, "exclusiveMinimum") || str_eq(k, "exclusiveMaximum")
        || str_eq(k, "multipleOf") || str_eq(k, "minLength") || str_eq(k, "maxLength") || str_eq(
        k,
        "pattern",
    ) || str_eq(k, "minItems") || str_eq(k, "maxItems") || str_eq(k, "uniqueItems") || str_eq(
        k,
        "format",
    ) || str_eq(k, "$schema") || str_eq(k, "$id") || str_eq(k, "title") || str_eq(k, "description")
        || str_eq(k, "x-mdvs")
}

fn mdvs_subkey_exec(loc: Location, k: &str) -> (r: bool)
    ensures
        r == mdvs_subkey(loc, k@),
{
    match loc {
        Location::Root => str_eq(k, "preprocess") || str_eq(k, "definitions"),
        Location::Property => str_eq(k, "allowed") || str_eq(k, "required") || str_eq(k, "preprocess"),
    }
}

fn subkeys_text(loc: Location) -> (r: &'static str)
    ensures
        r@ == mdvs_subkeys_text(loc),
{
    match loc {
        Location::Root => "[\"preprocess\", \"definitions\"]",
        Location::Property => "[\"allowed\", \"required\", \"preprocess\"]",
    }
}

fn bad_subkey_exec(xm: &Vec<(String, JsonValue)>, loc: Location) -> (r: Option<&String>)
    ensures
        match r {
            Some(k) => bad_subkey(json_entries_view(xm@), 0, loc) == Some(k@),
            None => bad_subkey(json_entries_view(xm@), 0, loc) is None,
        },
{
    proof {
        lemma_json_entries_view(xm@);
    }
    let ghost e = json_entries_view(xm@);
    let mut j: usize = 0;
    while j < xm.len()
        invariant
            j <= xm@.len(),
            e == json_entries_view(xm@),
            e.len() == xm@.len(),
            forall|t: int| 0 <= t < xm@.len() ==> #[trigger] e[t].0 == xm@[t].0@,
            bad_subkey(e, 0, loc) == bad_subkey(e, j as int, loc),
        decreases xm@.len() - j,
    {
        if !mdvs_subkey_exec(loc, xm[j].0.as_str()) {
            return Some(&xm[j].0);
        }
        j = j + 1;
    }
    None
}

fn subset_exec(node: &JsonValue, loc: Location) -> (r: Result<(), String>)
    ensures
        match r {
            Ok(()) => subset(node@, loc) == Ok::<(), Seq<char>>(()),
            Err(e) => subset(node@, loc) == Err::<(), Seq<char>>(e@),
        },
    decreases json_size(node@), 0int,
{
    match node {
        JsonValue::Object(m) => subset_members_exec(m, 0, loc),
        _ => Ok(()),
    }
}

fn subset_members_exec(m: &Vec<(String, JsonValue)>, i: usize, loc: Location) -> (r: Result<(), String>)
    requires
        i <= m@.len(),
    ensures
        match r {
            Ok(()) => subset_members(json_entries_view(m@), i as int, loc) == Ok::<(), Seq<char>>(()),
            Err(e) => subset_members(json_entries_view(m@), i as int, loc) == Err::<(), Seq<char>>(e@),
        },
    decreases members_size(json_entries_view(m@)), m@.len() - i,
{
    let ghost mv = json_entries_view(m@);
    proof {
        lemma_json_entries_view(m@);
    }
    if i >= m.len() {
        return Ok(());
    }
    assert(mv[i as int] == (m@[i as int].0@, m@[i as int].1@));
    proof {
        lemma_member_size(mv, i as int);
    }
    let key = m[i].0.as_str();
    let value = &m[i].1;
    if let Some(reason) = hard_reject_exec(key) {
        let mut e = owned("'");
        push_str(&mut e, key);
        push_str(&mut e, "' is not supported by mdvs — ");
        push_str(&mut e, reason);
        return Err(e);
    }
    if !allowed_keyword_exec(key) {
        let mut e = owned("unknown keyword '");
        push_str(&mut e, key);
        push_str(&mut e, "' is not part of the mdvs schema subset");
        return Err(e);
    }
    if str_eq(key, "properties") {
        match value {
            JsonValue::Object(props) => match subset_props_exec(props, 0) {
                Err(e) => return Err(e),
                Ok(()) => {},
            },
            _ => return Err(owned("'properties' must be an object")),
        }
    } else if str_eq(key, "items") {
        match subset_exec(value, Location::Property) {
            Err(e) => return Err(e),
            Ok(()) => {},
        }
    } else if str_eq(key, "additionalProperties") && (match value {
        JsonValue::Object(_) => true,
        _ => false,
    }) {
        match subset_exec(value, Location::Property) {
            Err(e) => return Err(e),
            Ok(()) => {},
        }
    } else if str_eq(key, "format") {
        match value {
            JsonValue::String(f) => if !(str_eq(f.as_str(), "date") || str_eq(f.as_str(), "date-time")) {
                let mut e = owned("format '");
                push_str(&mut e, f.as_str());
                push_str(&mut e, "' is not supported by mdvs — use 'pattern' for regex-based validation");
                return Err(e);
            },
            _ => return Err(owned("'format' must be a string")),
        }
    } else if str_eq(key, "x-mdvs") {
        match value {
            JsonValue::Object(xm) => match bad_subkey_exec(xm, loc) {
                Some(k) => {
                    let mut e = owned("unknown 'x-mdvs.");
                    push_str(&mut e, k.as_str());
                    push_str(&mut e, "' sub-key (recognized: ");
                    push_str(&mut e, subkeys_text(loc));
                    push_str(&mut e, ")");
                    return Err(e);
                },
                None => {},
            },
            _ => return Err(owned("'x-mdvs' must be an object")),
        }
    }
    subset_members_exec(m, i + 1, loc)
}

fn subset_props_exec(props: &Vec<(String, JsonValue)>, j: usize) -> (r: Result<(), String>)
    requires
        j <= props@.len(),
    ensures
        match r {
            Ok(()) => subset_props(json_entries_view(props@), j as int) == Ok::<(), Seq<char>>(()),
            Err(e) => subset_props(json_entries_view(props@), j as int) == Err::<(), Seq<char>>(e@),
        },
    decreases members_size(json_entries_view(props@)), props@.len() - j,
{
    let ghost pv = json_entries_view(props@);
    proof {
        lemma_json_entries_view(props@);
    }
    if j >= props.len() {
        return Ok(());
    }
    assert(pv[j as int] == (props@[j as int].0@, props@[j as int].1@));
    proof {
        lemma_member_size(pv, j as int);
    }
    match subset_exec(&props[j].1, Location::Property) {
        Err(e) => Err(e),
        Ok(()) => subset_props_exec(props, j + 1),
    }
}

/// Check that a JSON Schema stays within the mdvs subset: `Ok` exactly
/// when [`subset`] passes the document at the root, else its message.
pub fn validate_mdvs_schema(schema: &JsonValue) -> (r: Result<(), String>)
    ensures
        match r {
            Ok(()) => subset(schema@, Location::Root) == Ok::<(), Seq<char>>(()),
            Err(e) => subset(schema@, Location::Root) == Err::<(), Seq<char>>(e@),
        },
{
    subset_exec(schema, Location::Root)
}

} // verus!
