//! Every canonical schema written for a configuration is within the mdvs
//! subset, so the check accepts it.

use vstd::prelude::*;
use crate::field_type::FieldTypeV;
use crate::json::JsonV;
use crate::keyed::{entries_get, entries_insert, get_from, key_found, key_pos, keys_of_view, lemma_pos_from_bounds};
use crate::schema::config::TomlFieldV;
use crate::schema::constraints::ConstraintsV;
use crate::schema::json_schema::to_canonical::{
    Members, apply_constraints, canonical, field_properties, field_subschema, ignore_properties,
    insert_at_path, insert_count, insert_literal, object_properties, string_list, type_subschema,
    type_value, x_mdvs_members, JSON_SCHEMA_DRAFT,
};
use crate::schema::json_schema::validate::{
    Location, allowed_format, allowed_keyword, bad_subkey, hard_reject, mdvs_subkey, subset,
    subset_members, subset_props,
};
use crate::schema::json_schema::{intermediate_entries, is_intermediate};
use crate::schema::shared::type_of;

verus! {

/// What the check asks of one member of a schema object at a location.
pub open spec fn member_ok(key: Seq<char>, value: JsonV, loc: Location) -> bool {
    &&& hard_reject(key) is None
    &&& allowed_keyword(key)
    &&& (key == "properties"@ ==> (value matches JsonV::Object(props) && subset_props(props, 0) is Ok))
    &&& (key == "items"@ ==> subset(value, Location::Property) is Ok)
    &&& (key == "additionalProperties"@ && value is Object ==> subset(value, Location::Property) is Ok)
    &&& (key == "format"@ ==> (value matches JsonV::String(f) && allowed_format(f)))
    &&& (key == "x-mdvs"@ ==> (value matches JsonV::Object(xm) && bad_subkey(xm, 0, loc) is None))
}

/// Every member of `m` is [`member_ok`].
pub open spec fn members_ok(m: Members, loc: Location) -> bool {
    forall|j: int| 0 <= j < m.len() ==> member_ok(#[trigger] m[j].0, m[j].1, loc)
}

/// Every property schema in `p` passes at property level, and the members
/// of each object schema among them are acceptable.
pub open spec fn props_ok(p: Members) -> bool {
    forall|j: int| 0 <= j < p.len() ==> prop_ok(#[trigger] p[j].1)
}

/// A property schema that passes, with acceptable members when it is an
/// object.
pub open spec fn prop_ok(v: JsonV) -> bool {
    &&& subset(v, Location::Property) is Ok
    &&& (v matches JsonV::Object(m) ==> members_ok(m, Location::Property))
}

/// The check passes an object whose members each pass.
proof fn lemma_subset_members(m: Members, i: int, loc: Location)
    requires
        0 <= i <= m.len(),
        forall|j: int| i <= j < m.len() ==> member_ok(#[trigger] m[j].0, m[j].1, loc),
    ensures
        subset_members(m, i, loc) is Ok,
    decreases m.len() - i,
{
    if i < m.len() {
        lemma_subset_members(m, i + 1, loc);
        assert(member_ok(m[i].0, m[i].1, loc));
    }
}

/// The check passes the properties exactly when each schema passes.
proof fn lemma_subset_props(p: Members, j: int)
    requires
        0 <= j <= p.len(),
    ensures
        subset_props(p, j) is Ok <==> (forall|k: int| j <= k < p.len() ==> subset(#[trigger] p[k].1, Location::Property) is Ok),
    decreases p.len() - j,
{
    if j < p.len() {
        lemma_subset_props(p, j + 1);
    }
}

/// The members after an insertion are the inserted one and members from
/// before.
proof fn lemma_insert_members(e: Members, k: Seq<char>, v: JsonV)
    ensures
        forall|j: int| 0 <= j < entries_insert(e, k, v).len() ==> #[trigger] entries_insert(e, k, v)[j] == (k, v)
            || exists|i: int| 0 <= i < e.len() && entries_insert(e, k, v)[j] == e[i],
{
    let keys = keys_of_view(e);
    lemma_pos_from_bounds(keys, k, 0);
    let n = entries_insert(e, k, v);
    let p = key_pos(keys, k);
    assert forall|j: int| 0 <= j < n.len() implies #[trigger] n[j] == (k, v) || exists|i: int|
        0 <= i < e.len() && n[j] == e[i] by {
        if key_found(keys, k) {
            if j != p {
                assert(n[j] == e[j]);
            }
        } else {
            if j < p {
                assert(n[j] == e[j]);
            } else if j > p {
                assert(n[j] == e[j - 1]);
            }
        }
    }
}

/// Inserting an acceptable member keeps all members acceptable.
proof fn lemma_insert_ok(e: Members, k: Seq<char>, v: JsonV, loc: Location)
    requires
        members_ok(e, loc),
        member_ok(k, v, loc),
    ensures
        members_ok(entries_insert(e, k, v), loc),
{
    lemma_insert_members(e, k, v);
    let n = entries_insert(e, k, v);
    assert forall|j: int| 0 <= j < n.len() implies member_ok(#[trigger] n[j].0, n[j].1, loc) by {
        if n[j] != (k, v) {
            let i = choose|i: int| 0 <= i < e.len() && n[j] == e[i];
            assert(member_ok(e[i].0, e[i].1, loc));
        }
    }
}

/// Inserting an acceptable property schema keeps all of them acceptable.
proof fn lemma_insert_prop_ok(e: Members, k: Seq<char>, v: JsonV)
    requires
        props_ok(e),
        prop_ok(v),
    ensures
        props_ok(entries_insert(e, k, v)),
{
    lemma_insert_members(e, k, v);
    let n = entries_insert(e, k, v);
    assert forall|j: int| 0 <= j < n.len() implies prop_ok(#[trigger] n[j].1) by {
        if n[j] != (k, v) {
            let i = choose|i: int| 0 <= i < e.len() && n[j] == e[i];
            assert(prop_ok(e[i].1));
        }
    }
}

/// An object schema whose members are acceptable passes.
proof fn lemma_object_ok(m: Members, loc: Location)
    requires
        members_ok(m, loc),
    ensures
        subset(JsonV::Object(m), loc) is Ok,
{
    lemma_subset_members(m, 0, loc);
}

/// Properties that are each acceptable pass as a `properties` block.
proof fn lemma_props_pass(p: Members)
    requires
        props_ok(p),
    ensures
        subset_props(p, 0) is Ok,
{
    lemma_subset_props(p, 0);
    assert forall|k: int| 0 <= k < p.len() implies subset(#[trigger] p[k].1, Location::Property) is Ok by {
        assert(prop_ok(p[k].1));
    }
}

/// The keywords a canonical schema uses are supported and distinct.
proof fn lemma_keywords()
    ensures
        hard_reject("type"@) is None,
        allowed_keyword("type"@),
        hard_reject("format"@) is None,
        allowed_keyword("format"@),
        hard_reject("items"@) is None,
        allowed_keyword("items"@),
        hard_reject("enum"@) is None,
        allowed_keyword("enum"@),
        hard_reject("minimum"@) is None,
        allowed_keyword("minimum"@),
        hard_reject("maximum"@) is None,
        allowed_keyword("maximum"@),
        hard_reject("minLength"@) is None,
        allowed_keyword("minLength"@),
        hard_reject("maxLength"@) is None,
        allowed_keyword("maxLength"@),
        hard_reject("pattern"@) is None,
        allowed_keyword("pattern"@),
        hard_reject("x-mdvs"@) is None,
        allowed_keyword("x-mdvs"@),
        hard_reject("additionalProperties"@) is None,
        allowed_keyword("additionalProperties"@),
        hard_reject("properties"@) is None,
        allowed_keyword("properties"@),
        hard_reject("$schema"@) is None,
        allowed_keyword("$schema"@),
        "type"@ != "properties"@,
        "type"@ != "items"@,
        "type"@ != "additionalProperties"@,
        "type"@ != "format"@,
        "type"@ != "x-mdvs"@,
        "format"@ != "properties"@,
        "format"@ != "items"@,
        "format"@ != "additionalProperties"@,
        "format"@ != "x-mdvs"@,
        "items"@ != "properties"@,
        "items"@ != "additionalProperties"@,
        "items"@ != "format"@,
        "items"@ != "x-mdvs"@,
        "enum"@ != "properties"@,
        "enum"@ != "items"@,
        "enum"@ != "additionalProperties"@,
        "enum"@ != "format"@,
        "enum"@ != "x-mdvs"@,
        "minimum"@ != "properties"@,
        "minimum"@ != "items"@,
        "minimum"@ != "additionalProperties"@,
        "minimum"@ != "format"@,
        "minimum"@ != "x-mdvs"@,
        "maximum"@ != "properties"@,
        "maximum"@ != "items"@,
        "maximum"@ != "additionalProperties"@,
        "maximum"@ != "format"@,
        "maximum"@ != "x-mdvs"@,
        "minLength"@ != "properties"@,
        "minLength"@ != "items"@,
        "minLength"@ != "additionalProperties"@,
        "minLength"@ != "format"@,
        "minLength"@ != "x-mdvs"@,
        "maxLength"@ != "properties"@,
        "maxLength"@ != "items"@,
        "maxLength"@ != "additionalProperties"@,
        "maxLength"@ != "format"@,
        "maxLength"@ != "x-mdvs"@,
        "pattern"@ != "properties"@,
        "pattern"@ != "items"@,
        "pattern"@ != "additionalProperties"@,
        "pattern"@ != "format"@,
        "pattern"@ != "x-mdvs"@,
        "x-mdvs"@ != "properties"@,
        "x-mdvs"@ != "items"@,
        "x-mdvs"@ != "additionalProperties"@,
        "x-mdvs"@ != "format"@,
        "additionalProperties"@ != "properties"@,
        "additionalProperties"@ != "items"@,
        "additionalProperties"@ != "format"@,
        "additionalProperties"@ != "x-mdvs"@,
        "properties"@ != "items"@,
        "properties"@ != "additionalProperties"@,
        "properties"@ != "format"@,
        "properties"@ != "x-mdvs"@,
        "$schema"@ != "properties"@,
        "$schema"@ != "items"@,
        "$schema"@ != "additionalProperties"@,
        "$schema"@ != "format"@,
        "$schema"@ != "x-mdvs"@,
        mdvs_subkey(Location::Property, "allowed"@),
        mdvs_subkey(Location::Property, "required"@),
        mdvs_subkey(Location::Property, "preprocess"@),
{
    reveal_strlit("$defs");
    reveal_strlit("$id");
    reveal_strlit("$ref");
    reveal_strlit("$schema");
    reveal_strlit("additionalProperties");
    reveal_strlit("allOf");
    reveal_strlit("allowed");
    reveal_strlit("anyOf");
    reveal_strlit("const");
    reveal_strlit("contains");
    reveal_strlit("definitions");
    reveal_strlit("dependentRequired");
    reveal_strlit("dependentSchemas");
    reveal_strlit("description");
    reveal_strlit("else");
    reveal_strlit("enum");
    reveal_strlit("exclusiveMaximum");
    reveal_strlit("exclusiveMinimum");
    reveal_strlit("format");
    reveal_strlit("if");
    reveal_strlit("items");
    reveal_strlit("maxItems");
    reveal_strlit("maxLength");
    reveal_strlit("maximum");
    reveal_strlit("minItems");
    reveal_strlit("minLength");
    reveal_strlit("minimum");
    reveal_strlit("multipleOf");
    reveal_strlit("not");
    reveal_strlit("oneOf");
    reveal_strlit("pattern");
    reveal_strlit("patternProperties");
    reveal_strlit("prefixItems");
    reveal_strlit("preprocess");
    reveal_strlit("properties");
    reveal_strlit("propertyNames");
    reveal_strlit("required");
    reveal_strlit("then");
    reveal_strlit("title");
    reveal_strlit("type");
    reveal_strlit("uniqueItems");
    reveal_strlit("x-mdvs");
    assert("type"@.len() != "properties"@.len());
    assert("type"@.len() != "items"@.len());
    assert("type"@.len() != "additionalProperties"@.len());
    assert("type"@.len() != "format"@.len());
    assert("type"@.len() != "x-mdvs"@.len());
    assert("type"@.len() != "oneOf"@.len());
    assert("type"@.len() != "anyOf"@.len());
    assert("type"@.len() != "allOf"@.len());
    assert("type"@.len() != "not"@.len());
    assert("type"@.len() != "if"@.len());
    assert("type"@[1] != "then"@[1]);
    assert("type"@[0] != "else"@[0]);
    assert("type"@[0] != "$ref"@[0]);
    assert("type"@.len() != "$defs"@.len());
    assert("type"@.len() != "dependentRequired"@.len());
    assert("type"@.len() != "dependentSchemas"@.len());
    assert("type"@.len() != "patternProperties"@.len());
    assert("type"@.len() != "prefixItems"@.len());
    assert("type"@.len() != "contains"@.len());
    assert("type"@.len() != "propertyNames"@.len());
    assert("format"@.len() != "properties"@.len());
    assert("format"@.len() != "items"@.len());
    assert("format"@.len() != "additionalProperties"@.len());
    assert("format"@[0] != "x-mdvs"@[0]);
    assert("format"@.len() != "oneOf"@.len());
    assert("format"@.len() != "anyOf"@.len());
    assert("format"@.len() != "allOf"@.len());
    assert("format"@.len() != "not"@.len());
    assert("format"@.len() != "if"@.len());
    assert("format"@.len() != "then"@.len());
    assert("format"@.len() != "else"@.len());
    assert("format"@.len() != "$ref"@.len());
    assert("format"@.len() != "$defs"@.len());
    assert("format"@.len() != "dependentRequired"@.len());
    assert("format"@.len() != "dependentSchemas"@.len());
    assert("format"@.len() != "patternProperties"@.len());
    assert("format"@.len() != "prefixItems"@.len());
    assert("format"@.len() != "contains"@.len());
    assert("format"@.len() != "propertyNames"@.len());
    assert("items"@.len() != "properties"@.len());
    assert("items"@.len() != "additionalProperties"@.len());
    assert("items"@.len() != "format"@.len());
    assert("items"@.len() != "x-mdvs"@.len());
    assert("items"@[0] != "oneOf"@[0]);
    assert("items"@[0] != "anyOf"@[0]);
    assert("items"@[0] != "allOf"@[0]);
    assert("items"@.len() != "not"@.len());
    assert("items"@.len() != "if"@.len());
    assert("items"@.len() != "then"@.len());
    assert("items"@.len() != "else"@.len());
    assert("items"@.len() != "$ref"@.len());
    assert("items"@[0] != "$defs"@[0]);
    assert("items"@.len() != "dependentRequired"@.len());
    assert("items"@.len() != "dependentSchemas"@.len());
    assert("items"@.len() != "patternProperties"@.len());
    assert("items"@.len() != "prefixItems"@.len());
    assert("items"@.len() != "contains"@.len());
    assert("items"@.len() != "propertyNames"@.len());
    assert("enum"@.len() != "properties"@.len());
    assert("enum"@.len() != "items"@.len());
    assert("enum"@.len() != "additionalProperties"@.len());
    assert("enum"@.len() != "format"@.len());
    assert("enum"@.len() != "x-mdvs"@.len());
    assert("enum"@.len() != "oneOf"@.len());
    assert("enum"@.len() != "anyOf"@.len());
    assert("enum"@.len() != "allOf"@.len());
    assert("enum"@.len() != "not"@.len());
    assert("enum"@.len() != "if"@.len());
    assert("enum"@[0] != "then"@[0]);
    assert("enum"@[1] != "else"@[1]);
    assert("enum"@[0] != "$ref"@[0]);
    assert("enum"@.len() != "$defs"@.len());
    assert("enum"@.len() != "dependentRequired"@.len());
    assert("enum"@.len() != "dependentSchemas"@.len());
    assert("enum"@.len() != "patternProperties"@.len());
    assert("enum"@.len() != "prefixItems"@.len());
    assert("enum"@.len() != "contains"@.len());
    assert("enum"@.len() != "propertyNames"@.len());
    assert("minimum"@.len() != "properties"@.len());
    assert("minimum"@.len() != "items"@.len());
    assert("minimum"@.len() != "additionalProperties"@.len());
    assert("minimum"@.len() != "format"@.len());
    assert("minimum"@.len() != "x-mdvs"@.len());
    assert("minimum"@.len() != "oneOf"@.len());
    assert("minimum"@.len() != "anyOf"@.len());
    assert("minimum"@.len() != "allOf"@.len());
    assert("minimum"@.len() != "not"@.len());
    assert("minimum"@.len() != "if"@.len());
    assert("minimum"@.len() != "then"@.len());
    assert("minimum"@.len() != "else"@.len());
    assert("minimum"@.len() != "$ref"@.len());
    assert("minimum"@.len() != "$defs"@.len());
    assert("minimum"@.len() != "dependentRequired"@.len());
    assert("minimum"@.len() != "dependentSchemas"@.len());
    assert("minimum"@.len() != "patternProperties"@.len());
    assert("minimum"@.len() != "prefixItems"@.len());
    assert("minimum"@.len() != "contains"@.len());
    assert("minimum"@.len() != "propertyNames"@.len());
    assert("maximum"@.len() != "properties"@.len());
    assert("maximum"@.len() != "items"@.len());
    assert("maximum"@.len() != "additionalProperties"@.len());
    assert("maximum"@.len() != "format"@.len());
    assert("maximum"@.len() != "x-mdvs"@.len());
    assert("maximum"@.len() != "oneOf"@.len());
    assert("maximum"@.len() != "anyOf"@.len());
    assert("maximum"@.len() != "allOf"@.len());
    assert("maximum"@.len() != "not"@.len());
    assert("maximum"@.len() != "if"@.len());
    assert("maximum"@.len() != "then"@.len());
    assert("maximum"@.len() != "else"@.len());
    assert("maximum"@.len() != "$ref"@.len());
    assert("maximum"@.len() != "$defs"@.len());
    assert("maximum"@.len() != "dependentRequired"@.len());
    assert("maximum"@.len() != "dependentSchemas"@.len());
    assert("maximum"@.len() != "patternProperties"@.len());
    assert("maximum"@.len() != "prefixItems"@.len());
    assert("maximum"@.len() != "contains"@.len());
    assert("maximum"@.len() != "propertyNames"@.len());
    assert("minLength"@.len() != "properties"@.len());
    assert("minLength"@.len() != "items"@.len());
    assert("minLength"@.len() != "additionalProperties"@.len());
    assert("minLength"@.len() != "format"@.len());
    assert("minLength"@.len() != "x-mdvs"@.len());
    assert("minLength"@.len() != "oneOf"@.len());
    assert("minLength"@.len() != "anyOf"@.len());
    assert("minLength"@.len() != "allOf"@.len());
    assert("minLength"@.len() != "not"@.len());
    assert("minLength"@.len() != "if"@.len());
    assert("minLength"@.len() != "then"@.len());
    assert("minLength"@.len() != "else"@.len());
    assert("minLength"@.len() != "$ref"@.len());
    assert("minLength"@.len() != "$defs"@.len());
    assert("minLength"@.len() != "dependentRequired"@.len());
    assert("minLength"@.len() != "dependentSchemas"@.len());
    assert("minLength"@.len() != "patternProperties"@.len());
    assert("minLength"@.len() != "prefixItems"@.len());
    assert("minLength"@.len() != "contains"@.len());
    assert("minLength"@.len() != "propertyNames"@.len());
    assert("maxLength"@.len() != "properties"@.len());
    assert("maxLength"@.len() != "items"@.len());
    assert("maxLength"@.len() != "additionalProperties"@.len());
    assert("maxLength"@.len() != "format"@.len());
    assert("maxLength"@.len() != "x-mdvs"@.len());
    assert("maxLength"@.len() != "oneOf"@.len());
    assert("maxLength"@.len() != "anyOf"@.len());
    assert("maxLength"@.len() != "allOf"@.len());
    assert("maxLength"@.len() != "not"@.len());
    assert("maxLength"@.len() != "if"@.len());
    assert("maxLength"@.len() != "then"@.len());
    assert("maxLength"@.len() != "else"@.len());
    assert("maxLength"@.len() != "$ref"@.len());
    assert("maxLength"@.len() != "$defs"@.len());
    assert("maxLength"@.len() != "dependentRequired"@.len());
    assert("maxLength"@.len() != "dependentSchemas"@.len());
    assert("maxLength"@.len() != "patternProperties"@.len());
    assert("maxLength"@.len() != "prefixItems"@.len());
    assert("maxLength"@.len() != "contains"@.len());
    assert("maxLength"@.len() != "propertyNames"@.len());
    assert("pattern"@.len() != "properties"@.len());
    assert("pattern"@.len() != "items"@.len());
    assert("pattern"@.len() != "additionalProperties"@.len());
    assert("pattern"@.len() != "format"@.len());
    assert("pattern"@.len() != "x-mdvs"@.len());
    assert("pattern"@.len() != "oneOf"@.len());
    assert("pattern"@.len() != "anyOf"@.len());
    assert("pattern"@.len() != "allOf"@.len());
    assert("pattern"@.len() != "not"@.len());
    assert("pattern"@.len() != "if"@.len());
    assert("pattern"@.len() != "then"@.len());
    assert("pattern"@.len() != "else"@.len());
    assert("pattern"@.len() != "$ref"@.len());
    assert("pattern"@.len() != "$defs"@.len());
    assert("pattern"@.len() != "dependentRequired"@.len());
    assert("pattern"@.len() != "dependentSchemas"@.len());
    assert("pattern"@.len() != "patternProperties"@.len());
    assert("pattern"@.len() != "prefixItems"@.len());
    assert("pattern"@.len() != "contains"@.len());
    assert("pattern"@.len() != "propertyNames"@.len());
    assert("x-mdvs"@.len() != "properties"@.len());
    assert("x-mdvs"@.len() != "items"@.len());
    assert("x-mdvs"@.len() != "additionalProperties"@.len());
    assert("x-mdvs"@[0] != "format"@[0]);
    assert("x-mdvs"@.len() != "oneOf"@.len());
    assert("x-mdvs"@.len() != "anyOf"@.len());
    assert("x-mdvs"@.len() != "allOf"@.len());
    assert("x-mdvs"@.len() != "not"@.len());
    assert("x-mdvs"@.len() != "if"@.len());
    assert("x-mdvs"@.len() != "then"@.len());
    assert("x-mdvs"@.len() != "else"@.len());
    assert("x-mdvs"@.len() != "$ref"@.len());
    assert("x-mdvs"@.len() != "$defs"@.len());
    assert("x-mdvs"@.len() != "dependentRequired"@.len());
    assert("x-mdvs"@.len() != "dependentSchemas"@.len());
    assert("x-mdvs"@.len() != "patternProperties"@.len());
    assert("x-mdvs"@.len() != "prefixItems"@.len());
    assert("x-mdvs"@.len() != "contains"@.len());
    assert("x-mdvs"@.len() != "propertyNames"@.len());
    assert("additionalProperties"@.len() != "properties"@.len());
    assert("additionalProperties"@.len() != "items"@.len());
    assert("additionalProperties"@.len() != "format"@.len());
    assert("additionalProperties"@.len() != "x-mdvs"@.len());
    assert("additionalProperties"@.len() != "oneOf"@.len());
    assert("additionalProperties"@.len() != "anyOf"@.len());
    assert("additionalProperties"@.len() != "allOf"@.len());
    assert("additionalProperties"@.len() != "not"@.len());
    assert("additionalProperties"@.len() != "if"@.len());
    assert("additionalProperties"@.len() != "then"@.len());
    assert("additionalProperties"@.len() != "else"@.len());
    assert("additionalProperties"@.len() != "$ref"@.len());
    assert("additionalProperties"@.len() != "$defs"@.len());
    assert("additionalProperties"@.len() != "dependentRequired"@.len());
    assert("additionalProperties"@.len() != "dependentSchemas"@.len());
    assert("additionalProperties"@.len() != "patternProperties"@.len());
    assert("additionalProperties"@.len() != "prefixItems"@.len());
    assert("additionalProperties"@.len() != "contains"@.len());
    assert("additionalProperties"@.len() != "propertyNames"@.len());
    assert("properties"@.len() != "items"@.len());
    assert("properties"@.len() != "additionalProperties"@.len());
    assert("properties"@.len() != "format"@.len());
    assert("properties"@.len() != "x-mdvs"@.len());
    assert("properties"@.len() != "oneOf"@.len());
    assert("properties"@.len() != "anyOf"@.len());
    assert("properties"@.len() != "allOf"@.len());
    assert("properties"@.len() != "not"@.len());
    assert("properties"@.len() != "if"@.len());
    assert("properties"@.len() != "then"@.len());
    assert("properties"@.len() != "else"@.len());
    assert("properties"@.len() != "$ref"@.len());
    assert("properties"@.len() != "$defs"@.len());
    assert("properties"@.len() != "dependentRequired"@.len());
    assert("properties"@.len() != "dependentSchemas"@.len());
    assert("properties"@.len() != "patternProperties"@.len());
    assert("properties"@.len() != "prefixItems"@.len());
    assert("properties"@.len() != "contains"@.len());
    assert("properties"@.len() != "propertyNames"@.len());
    assert("$schema"@.len() != "properties"@.len());
    assert("$schema"@.len() != "items"@.len());
    assert("$schema"@.len() != "additionalProperties"@.len());
    assert("$schema"@.len() != "format"@.len());
    assert("$schema"@.len() != "x-mdvs"@.len());
    assert("$schema"@.len() != "oneOf"@.len());
    assert("$schema"@.len() != "anyOf"@.len());
    assert("$schema"@.len() != "allOf"@.len());
    assert("$schema"@.len() != "not"@.len());
    assert("$schema"@.len() != "if"@.len());
    assert("$schema"@.len() != "then"@.len());
    assert("$schema"@.len() != "else"@.len());
    assert("$schema"@.len() != "$ref"@.len());
    assert("$schema"@.len() != "$defs"@.len());
    assert("$schema"@.len() != "dependentRequired"@.len());
    assert("$schema"@.len() != "dependentSchemas"@.len());
    assert("$schema"@.len() != "patternProperties"@.len());
    assert("$schema"@.len() != "prefixItems"@.len());
    assert("$schema"@.len() != "contains"@.len());
    assert("$schema"@.len() != "propertyNames"@.len());
}

/// The members of an object the check passes are each acceptable.
proof fn lemma_members_of_passing(m: Members, i: int, loc: Location)
    requires
        0 <= i <= m.len(),
        subset_members(m, i, loc) is Ok,
    ensures
        forall|j: int| i <= j < m.len() ==> member_ok(#[trigger] m[j].0, m[j].1, loc),
    decreases m.len() - i,
{
    lemma_keywords();
    if i < m.len() {
        lemma_members_of_passing(m, i + 1, loc);
        assert(member_ok(m[i].0, m[i].1, loc));
    }
}

/// A property schema the check passes is acceptable.
proof fn lemma_passing_prop(v: JsonV)
    requires
        subset(v, Location::Property) is Ok,
    ensures
        prop_ok(v),
{
    if let JsonV::Object(m) = v {
        lemma_members_of_passing(m, 0, Location::Property);
    }
}

/// Properties that pass as a `properties` block are each acceptable.
proof fn lemma_passing_props(p: Members)
    requires
        subset_props(p, 0) is Ok,
    ensures
        props_ok(p),
{
    lemma_subset_props(p, 0);
    assert forall|j: int| 0 <= j < p.len() implies prop_ok(#[trigger] p[j].1) by {
        lemma_passing_prop(p[j].1);
    }
}

/// Constraint keywords are acceptable members.
proof fn lemma_apply_ok(e: Members, nullable: bool, c: Option<ConstraintsV>)
    requires
        members_ok(e, Location::Property),
    ensures
        members_ok(apply_constraints(e, nullable, c), Location::Property),
{
    lemma_keywords();
    if let Some(c) = c {
        let e1 = match c.categories {
            Some(cats) => {
                let v = JsonV::Array(
                    crate::schema::json_schema::to_canonical::enum_values(cats) + (if nullable {
                        seq![JsonV::Null]
                    } else {
                        Seq::empty()
                    }),
                );
                lemma_insert_ok(e, "enum"@, v, Location::Property);
                entries_insert(e, "enum"@, v)
            },
            None => e,
        };
        let e2 = insert_literal(e1, "minimum"@, c.min);
        if let Some(t) = c.min {
            if let Some(j) = crate::schema::json_schema::to_canonical::toml_to_json(t) {
                lemma_insert_ok(e1, "minimum"@, j, Location::Property);
            }
        }
        let e3 = insert_literal(e2, "maximum"@, c.max);
        if let Some(t) = c.max {
            if let Some(j) = crate::schema::json_schema::to_canonical::toml_to_json(t) {
                lemma_insert_ok(e2, "maximum"@, j, Location::Property);
            }
        }
        let e4 = insert_count(e3, "minLength"@, c.min_length);
        if let Some(n) = c.min_length {
            lemma_insert_ok(e3, "minLength"@, crate::schema::json_schema::to_canonical::count_json(n), Location::Property);
        }
        let e5 = insert_count(e4, "maxLength"@, c.max_length);
        if let Some(n) = c.max_length {
            lemma_insert_ok(e4, "maxLength"@, crate::schema::json_schema::to_canonical::count_json(n), Location::Property);
        }
        if let Some(pt) = c.pattern {
            lemma_insert_ok(e5, "pattern"@, JsonV::String(pt), Location::Property);
        }
    }
}

/// The schema of a type has acceptable members.
proof fn lemma_type_ok(ft: FieldTypeV, nullable: bool, c: Option<ConstraintsV>)
    ensures
        members_ok(type_subschema(ft, nullable, c), Location::Property),
        prop_ok(JsonV::Object(type_subschema(ft, nullable, c))),
    decreases ft,
{
    lemma_keywords();
    reveal_strlit("date");
    reveal_strlit("date-time");
    let empty = Seq::<(Seq<char>, JsonV)>::empty();
    match ft {
        FieldTypeV::Array(inner) => {
            lemma_type_ok(*inner, false, c);
            let t1 = entries_insert(empty, "type"@, type_value("array"@, nullable));
            lemma_insert_ok(empty, "type"@, type_value("array"@, nullable), Location::Property);
            lemma_insert_ok(t1, "items"@, JsonV::Object(type_subschema(*inner, false, c)), Location::Property);
        },
        FieldTypeV::Object(fields) => {
            lemma_object_props_ok(fields);
            lemma_props_pass(object_properties(fields));
            let t1 = entries_insert(empty, "type"@, type_value("object"@, nullable));
            lemma_insert_ok(empty, "type"@, type_value("object"@, nullable), Location::Property);
            let t2 = entries_insert(t1, "additionalProperties"@, JsonV::Bool(true));
            lemma_insert_ok(t1, "additionalProperties"@, JsonV::Bool(true), Location::Property);
            lemma_insert_ok(t2, "properties"@, JsonV::Object(object_properties(fields)), Location::Property);
        },
        FieldTypeV::Date | FieldTypeV::DateTime => {
            let f: Seq<char> = if ft is Date { "date"@ } else { "date-time"@ };
            let t1 = entries_insert(empty, "type"@, type_value("string"@, nullable));
            lemma_insert_ok(empty, "type"@, type_value("string"@, nullable), Location::Property);
            lemma_insert_ok(t1, "format"@, JsonV::String(f), Location::Property);
            lemma_apply_ok(entries_insert(t1, "format"@, JsonV::String(f)), nullable, c);
        },
        _ => {
            let ty: Seq<char> = match ft {
                FieldTypeV::Boolean => "boolean"@,
                FieldTypeV::Integer => "integer"@,
                FieldTypeV::Float => "number"@,
                _ => "string"@,
            };
            lemma_insert_ok(empty, "type"@, type_value(ty, nullable), Location::Property);
            lemma_apply_ok(entries_insert(empty, "type"@, type_value(ty, nullable)), nullable, c);
            lemma_apply_ok(entries_insert(empty, "type"@, type_value(ty, nullable)), nullable, None);
        },
    }
    lemma_object_ok(type_subschema(ft, nullable, c), Location::Property);
}

/// The properties of an object type are acceptable.
proof fn lemma_object_props_ok(fields: Seq<(Seq<char>, FieldTypeV)>)
    ensures
        props_ok(object_properties(fields)),
    decreases fields,
{
    if fields.len() > 0 {
        lemma_object_props_ok(fields.drop_last());
        lemma_type_ok(fields.last().1, false, None);
        lemma_insert_prop_ok(
            object_properties(fields.drop_last()),
            fields.last().0,
            JsonV::Object(type_subschema(fields.last().1, false, None)),
        );
    }
}

/// A field's `x-mdvs` members are recognized property-level sub-keys.
proof fn lemma_x_mdvs_keys(f: TomlFieldV)
    ensures
        bad_subkey(x_mdvs_members(f), 0, Location::Property) is None,
{
    lemma_keywords();
    let empty = Seq::<(Seq<char>, JsonV)>::empty();
    let e1: Members = if !crate::schema::json_schema::to_canonical::default_allowed_spec(f.allowed) {
        entries_insert(empty, "allowed"@, string_list(f.allowed))
    } else {
        empty
    };
    lemma_insert_members(empty, "allowed"@, string_list(f.allowed));
    let e2 = if f.required.len() > 0 {
        entries_insert(e1, "required"@, string_list(f.required))
    } else {
        e1
    };
    lemma_insert_members(e1, "required"@, string_list(f.required));
    let names = string_list(Seq::new(f.preprocess.len(), |i: int| crate::preprocess::schema_stage_name(f.preprocess[i])));
    lemma_insert_members(e2, "preprocess"@, names);
    let x = x_mdvs_members(f);
    assert(forall|j: int| 0 <= j < e1.len() ==> mdvs_subkey(Location::Property, #[trigger] e1[j].0));
    assert(forall|j: int| 0 <= j < e2.len() ==> mdvs_subkey(Location::Property, #[trigger] e2[j].0)) by {
        assert forall|j: int| 0 <= j < e2.len() implies mdvs_subkey(Location::Property, #[trigger] e2[j].0) by {
            if f.required.len() > 0 && e2[j] != ("required"@, string_list(f.required)) {
                let i = choose|i: int| 0 <= i < e1.len() && e2[j] == e1[i];
                assert(mdvs_subkey(Location::Property, e1[i].0));
            }
        }
    }
    assert forall|j: int| 0 <= j < x.len() implies mdvs_subkey(Location::Property, #[trigger] x[j].0) by {
        if f.preprocess.len() > 0 && x[j] != ("preprocess"@, names) {
            let i = choose|i: int| 0 <= i < e2.len() && x[j] == e2[i];
            assert(mdvs_subkey(Location::Property, e2[i].0));
        }
    }
    lemma_bad_subkey_none(x, 0);
}

proof fn lemma_bad_subkey_none(xm: Members, j: int)
    requires
        0 <= j,
        forall|i: int| 0 <= i < xm.len() ==> mdvs_subkey(Location::Property, #[trigger] xm[i].0),
    ensures
        bad_subkey(xm, j, Location::Property) is None,
    decreases xm.len() - j,
{
    if j < xm.len() {
        assert(mdvs_subkey(Location::Property, xm[j].0));
        lemma_bad_subkey_none(xm, j + 1);
    }
}

/// A field's schema is an acceptable property schema.
proof fn lemma_field_ok(f: TomlFieldV)
    ensures
        prop_ok(field_subschema(f)),
{
    lemma_keywords();
    match type_of(f.field_type) {
        Err(_) => {
            lemma_object_ok(Seq::empty(), Location::Property);
        },
        Ok(ft) => {
            let sub = type_subschema(ft, f.nullable, f.constraints);
            lemma_type_ok(ft, f.nullable, f.constraints);
            let x = x_mdvs_members(f);
            if x.len() > 0 {
                lemma_x_mdvs_keys(f);
                lemma_insert_ok(sub, "x-mdvs"@, JsonV::Object(x), Location::Property);
                lemma_object_ok(entries_insert(sub, "x-mdvs"@, JsonV::Object(x)), Location::Property);
            }
        },
    }
}

/// A fresh intermediate node is acceptable.
proof fn lemma_intermediate_ok()
    ensures
        members_ok(intermediate_entries(), Location::Property),
{
    lemma_keywords();
    let empty = Seq::<(Seq<char>, JsonV)>::empty();
    let t1 = entries_insert(empty, "type"@, JsonV::String("object"@));
    lemma_insert_ok(empty, "type"@, JsonV::String("object"@), Location::Property);
    let t2 = entries_insert(t1, "additionalProperties"@, JsonV::Bool(true));
    lemma_insert_ok(t1, "additionalProperties"@, JsonV::Bool(true), Location::Property);
    lemma_props_pass(empty);
    lemma_insert_ok(t2, "properties"@, JsonV::Object(empty), Location::Property);
}

/// Placing an acceptable schema at a dotted path keeps the properties
/// acceptable.
proof fn lemma_insert_at_path_ok(props: Members, segs: Seq<Seq<char>>, leaf: JsonV)
    requires
        props_ok(props),
        prop_ok(leaf),
    ensures
        props_ok(insert_at_path(props, segs, leaf)),
    decreases segs.len(),
{
    lemma_keywords();
    if segs.len() == 1 {
        lemma_insert_prop_ok(props, segs[0], leaf);
    } else if segs.len() > 1 {
        let node: Members = match entries_get(props, segs[0]) {
            Some(n) => if is_intermediate(n) {
                n->Object_0
            } else {
                intermediate_entries()
            },
            None => intermediate_entries(),
        };
        match entries_get(props, segs[0]) {
            Some(n) => {
                crate::keyed::lemma_get_member(props, segs[0], 0);
                let i = choose|i: int| 0 <= i < props.len() && props[i] == (segs[0], n);
                assert(prop_ok(props[i].1));
                if !is_intermediate(n) {
                    lemma_intermediate_ok();
                }
            },
            None => {
                lemma_intermediate_ok();
            },
        }
        assert(members_ok(node, Location::Property));
        let inner: Members = match entries_get(node, "properties"@) {
            Some(JsonV::Object(p)) => p,
            _ => Seq::empty(),
        };
        match entries_get(node, "properties"@) {
            Some(v) => {
                crate::keyed::lemma_get_member(node, "properties"@, 0);
                let i = choose|i: int| 0 <= i < node.len() && node[i] == ("properties"@, v);
                assert(member_ok(node[i].0, node[i].1, Location::Property));
                if let JsonV::Object(p) = v {
                    lemma_passing_props(p);
                }
            },
            None => {},
        }
        assert(props_ok(inner));
        lemma_insert_at_path_ok(inner, segs.drop_first(), leaf);
        let new_inner = insert_at_path(inner, segs.drop_first(), leaf);
        lemma_props_pass(new_inner);
        lemma_insert_ok(node, "properties"@, JsonV::Object(new_inner), Location::Property);
        let new_node = entries_insert(node, "properties"@, JsonV::Object(new_inner));
        lemma_object_ok(new_node, Location::Property);
        lemma_insert_prop_ok(props, segs[0], JsonV::Object(new_node));
    }
}

/// The properties written for the fields are acceptable.
proof fn lemma_field_properties_ok(fields: Seq<TomlFieldV>)
    ensures
        props_ok(field_properties(fields)),
    decreases fields.len(),
{
    if fields.len() > 0 {
        lemma_field_properties_ok(fields.drop_last());
        lemma_field_ok(fields.last());
        lemma_insert_at_path_ok(
            field_properties(fields.drop_last()),
            crate::schema::json_schema::to_canonical::split_dots(fields.last().name),
            field_subschema(fields.last()),
        );
    }
}

/// Adding the ignored names keeps the properties acceptable.
proof fn lemma_ignore_properties_ok(props: Members, ignore: Seq<Seq<char>>)
    requires
        props_ok(props),
    ensures
        props_ok(ignore_properties(props, ignore)),
    decreases ignore.len(),
{
    if ignore.len() > 0 {
        lemma_ignore_properties_ok(props, ignore.drop_last());
        lemma_object_ok(Seq::empty(), Location::Property);
        lemma_insert_prop_ok(ignore_properties(props, ignore.drop_last()), ignore.last(), JsonV::Object(Seq::empty()));
    }
}

/// **Canonical schemas are within the subset.** The schema written for any
/// configuration passes the subset check: it uses only supported keywords,
/// supported formats and recognized `x-mdvs` sub-keys, at every depth.
pub proof fn lemma_canonical_in_subset(fields: Seq<TomlFieldV>, ignore: Seq<Seq<char>>)
    ensures
        subset(canonical(fields, ignore), Location::Root) is Ok,
{
    lemma_keywords();
    let props = ignore_properties(field_properties(fields), ignore);
    lemma_field_properties_ok(fields);
    lemma_ignore_properties_ok(field_properties(fields), ignore);
    lemma_props_pass(props);
    let empty = Seq::<(Seq<char>, JsonV)>::empty();
    let r1 = entries_insert(empty, "$schema"@, JsonV::String(JSON_SCHEMA_DRAFT@));
    lemma_insert_ok(empty, "$schema"@, JsonV::String(JSON_SCHEMA_DRAFT@), Location::Root);
    let r2 = entries_insert(r1, "type"@, JsonV::String("object"@));
    lemma_insert_ok(r1, "type"@, JsonV::String("object"@), Location::Root);
    let r3 = entries_insert(r2, "properties"@, JsonV::Object(props));
    lemma_insert_ok(r2, "properties"@, JsonV::Object(props), Location::Root);
    lemma_insert_ok(r3, "additionalProperties"@, JsonV::Bool(true), Location::Root);
    lemma_object_ok(entries_insert(r3, "additionalProperties"@, JsonV::Bool(true)), Location::Root);
}

} // verus!
