//! `<<NAME>>` placeholder substitution in JSON templates.
//!
//! A marker is a JSON string whose entire content is `<<NAME>>` with a
//! non-empty name. With a value for the name the marker becomes that
//! string; with none (or when the name is not listed) the marker is pruned:
//! its object member or array item is removed. Anything else is kept as is.

use vstd::prelude::*;
use crate::json::{JsonV, JsonValue, json_entries_view, json_items_view, lemma_json_entries_view, lemma_json_items_push, lemma_json_items_view, object_insert};
use crate::keyed::entries_insert;
use crate::text::{chars_of, str_eq, string_from_range};

verus! {

/// The name of a marker string: what lies between a leading `<<` and a
/// trailing `>>`, when that is not empty.
pub open spec fn marker(s: Seq<char>) -> Option<Seq<char>> {
    if s.len() >= 5 && s[0] == '<' && s[1] == '<' && s[s.len() - 2] == '>' && s[s.len() - 1] == '>' {
        Some(s.subrange(2, s.len() - 2))
    } else {
        None
    }
}

/// The value given for `name`: the first listed, or `None` when unlisted.
pub open spec fn var_lookup(vars: Seq<(Seq<char>, Option<Seq<char>>)>, name: Seq<char>, j: int) -> Option<
    Option<Seq<char>>,
>
    decreases vars.len() - j,
{
    if j < 0 || j >= vars.len() {
        None
    } else if vars[j].0 == name {
        Some(vars[j].1)
    } else {
        var_lookup(vars, name, j + 1)
    }
}

/// Whether a value is a marker whose name has no value.
pub open spec fn pruned(v: JsonV, vars: Seq<(Seq<char>, Option<Seq<char>>)>) -> bool {
    match v {
        JsonV::String(s) => match marker(s) {
            Some(n) => !(var_lookup(vars, n, 0) matches Some(Some(_))),
            None => false,
        },
        _ => false,
    }
}

/// A template with its markers substituted: a marker with a value becomes
/// that string (a bare marker without one becomes null); objects and
/// arrays lose their pruned members and items and are substituted
/// throughout; anything else is kept.
pub open spec fn subst(v: JsonV, vars: Seq<(Seq<char>, Option<Seq<char>>)>) -> JsonV
    decreases v,
{
    match v {
        JsonV::String(s) => match marker(s) {
            Some(n) => match var_lookup(vars, n, 0) {
                Some(Some(value)) => JsonV::String(value),
                _ => JsonV::Null,
            },
            None => JsonV::String(s),
        },
        JsonV::Object(m) => JsonV::Object(subst_members(m, vars)),
        JsonV::Array(items) => JsonV::Array(subst_items(items, vars)),
        other => other,
    }
}

pub open spec fn subst_members(m: Seq<(Seq<char>, JsonV)>, vars: Seq<(Seq<char>, Option<Seq<char>>)>) -> Seq<
    (Seq<char>, JsonV),
>
    decreases m,
{
    if m.len() == 0 {
        Seq::empty()
    } else {
        let prev = subst_members(m.drop_last(), vars);
        if pruned(m.last().1, vars) {
            prev
        } else {
            entries_insert(prev, m.last().0, subst(m.last().1, vars))
        }
    }
}

pub open spec fn subst_items(s: Seq<JsonV>, vars: Seq<(Seq<char>, Option<Seq<char>>)>) -> Seq<JsonV>
    decreases s,
{
    if s.len() == 0 {
        Seq::empty()
    } else {
        let prev = subst_items(s.drop_last(), vars);
        if pruned(s.last(), vars) {
            prev
        } else {
            prev.push(subst(s.last(), vars))
        }
    }
}

/// Whether two variable lists give the same value for every marker that
/// occurs in a template (names the template never uses may differ).
pub open spec fn same_for_markers(
    v: JsonV,
    vars1: Seq<(Seq<char>, Option<Seq<char>>)>,
    vars2: Seq<(Seq<char>, Option<Seq<char>>)>,
) -> bool
    decreases v,
{
    match v {
        JsonV::String(s) => match marker(s) {
            Some(n) => var_lookup(vars1, n, 0) == var_lookup(vars2, n, 0),
            None => true,
        },
        JsonV::Object(m) => same_for_member_markers(m, vars1, vars2),
        JsonV::Array(items) => same_for_item_markers(items, vars1, vars2),
        _ => true,
    }
}

pub open spec fn same_for_member_markers(
    m: Seq<(Seq<char>, JsonV)>,
    vars1: Seq<(Seq<char>, Option<Seq<char>>)>,
    vars2: Seq<(Seq<char>, Option<Seq<char>>)>,
) -> bool
    decreases m,
{
    if m.len() == 0 {
        true
    } else {
        same_for_member_markers(m.drop_last(), vars1, vars2) && same_for_markers(m.last().1, vars1, vars2)
    }
}

pub open spec fn same_for_item_markers(
    s: Seq<JsonV>,
    vars1: Seq<(Seq<char>, Option<Seq<char>>)>,
    vars2: Seq<(Seq<char>, Option<Seq<char>>)>,
) -> bool
    decreases s,
{
    if s.len() == 0 {
        true
    } else {
        same_for_item_markers(s.drop_last(), vars1, vars2) && same_for_markers(s.last(), vars1, vars2)
    }
}

/// Variables the template never names make no difference: two variable
/// lists that agree on every marker of a template substitute it alike.
pub proof fn lemma_subst_unused_vars(
    v: JsonV,
    vars1: Seq<(Seq<char>, Option<Seq<char>>)>,
    vars2: Seq<(Seq<char>, Option<Seq<char>>)>,
)
    requires
        same_for_markers(v, vars1, vars2),
    ensures
        subst(v, vars1) == subst(v, vars2),
        pruned(v, vars1) == pruned(v, vars2),
    decreases v, 1int,
{
    match v {
        JsonV::Object(m) => lemma_subst_members_unused(m, vars1, vars2),
        JsonV::Array(items) => lemma_subst_items_unused(items, vars1, vars2),
        _ => {},
    }
}

proof fn lemma_subst_members_unused(
    m: Seq<(Seq<char>, JsonV)>,
    vars1: Seq<(Seq<char>, Option<Seq<char>>)>,
    vars2: Seq<(Seq<char>, Option<Seq<char>>)>,
)
    requires
        same_for_member_markers(m, vars1, vars2),
    ensures
        subst_members(m, vars1) == subst_members(m, vars2),
    decreases m, 0int,
{
    if m.len() > 0 {
        lemma_subst_members_unused(m.drop_last(), vars1, vars2);
        lemma_subst_unused_vars(m.last().1, vars1, vars2);
    }
}

proof fn lemma_subst_items_unused(
    s: Seq<JsonV>,
    vars1: Seq<(Seq<char>, Option<Seq<char>>)>,
    vars2: Seq<(Seq<char>, Option<Seq<char>>)>,
)
    requires
        same_for_item_markers(s, vars1, vars2),
    ensures
        subst_items(s, vars1) == subst_items(s, vars2),
    decreases s, 0int,
{
    if s.len() > 0 {
        lemma_subst_items_unused(s.drop_last(), vars1, vars2);
        lemma_subst_unused_vars(s.last(), vars1, vars2);
    }
}

/// Variables as models.
pub open spec fn vars_view(vars: Seq<(String, Option<String>)>) -> Seq<(Seq<char>, Option<Seq<char>>)> {
    Seq::new(
        vars.len(),
        |i: int|
            (
                vars[i].0@,
                match vars[i].1 {
                    Some(v) => Some(v@),
                    None => None,
                },
            ),
    )
}

/// The name of a marker string, if it is one.
pub fn parse_marker(s: &str) -> (r: Option<String>)
    ensures
        match r {
            Some(n) => marker(s@) == Some(n@),
            None => marker(s@) is None,
        },
{
    let v = chars_of(s);
    let n = v.len();
    if n >= 5 && v[0] == '<' && v[1] == '<' && v[n - 2] == '>' && v[n - 1] == '>' {
        Some(string_from_range(&v, 2, n - 2))
    } else {
        None
    }
}

fn lookup_var<'a>(vars: &'a Vec<(String, Option<String>)>, name: &str) -> (r: Option<&'a Option<String>>)
    ensures
        match r {
            Some(o) => var_lookup(vars_view(vars@), name@, 0) == Some(
                match o {
                    Some(v) => Some(v@),
                    None => None,
                },
            ),
            None => var_lookup(vars_view(vars@), name@, 0) is None,
        },
{
    let ghost vv = vars_view(vars@);
    let mut j: usize = 0;
    while j < vars.len()
        invariant
            j <= vars@.len(),
            vv == vars_view(vars@),
            var_lookup(vv, name@, 0) == var_lookup(vv, name@, j as int),
        decreases vars@.len() - j,
    {
        if str_eq(vars[j].0.as_str(), name) {
            return Some(&vars[j].1);
        }
        j = j + 1;
    }
    None
}

/// Whether a value is a marker whose name has no value.
pub fn should_prune(v: &JsonValue, vars: &Vec<(String, Option<String>)>) -> (r: bool)
    ensures
        r == pruned(v@, vars_view(vars@)),
{
    match v {
        JsonValue::String(s) => match parse_marker(s.as_str()) {
            Some(n) => match lookup_var(vars, n.as_str()) {
                Some(Some(_)) => false,
                _ => true,
            },
            None => false,
        },
        _ => false,
    }
}

/// Substitute the markers of `template`, leaving it untouched.
pub fn substitute(template: &JsonValue, vars: &Vec<(String, Option<String>)>) -> (r: JsonValue)
    ensures
        r@ == subst(template@, vars_view(vars@)),
    decreases template, 0int,
{
    match template {
        JsonValue::String(s) => match parse_marker(s.as_str()) {
            Some(n) => match lookup_var(vars, n.as_str()) {
                Some(Some(value)) => JsonValue::String(value.clone()),
                _ => JsonValue::Null,
            },
            None => JsonValue::String(s.clone()),
        },
        JsonValue::Object(map) => {
            let mut out: Vec<(String, JsonValue)> = Vec::new();
            assert(json_entries_view(out@) =~= Seq::<(Seq<char>, JsonV)>::empty());
            proof {
                lemma_json_entries_view(map@);
            }
            assert(json_entries_view(map@).take(0) =~= Seq::<(Seq<char>, JsonV)>::empty());
            substitute_members(map, 0, vars, &mut out);
            assert(json_entries_view(map@).take(map@.len() as int) =~= json_entries_view(map@));
            JsonValue::Object(out)
        },
        JsonValue::Array(items) => {
            let mut out: Vec<JsonValue> = Vec::new();
            assert(json_items_view(out@) =~= Seq::<JsonV>::empty());
            proof {
                lemma_json_items_view(items@);
            }
            assert(json_items_view(items@).take(0) =~= Seq::<JsonV>::empty());
            substitute_items(items, 0, vars, &mut out);
            assert(json_items_view(items@).take(items@.len() as int) =~= json_items_view(items@));
            JsonValue::Array(out)
        },
        other => other.duplicate(),
    }
}

fn substitute_members(
    map: &Vec<(String, JsonValue)>,
    i: usize,
    vars: &Vec<(String, Option<String>)>,
    out: &mut Vec<(String, JsonValue)>,
)
    requires
        i <= map@.len(),
        json_entries_view(old(out)@) == subst_members(json_entries_view(map@).take(i as int), vars_view(vars@)),
    ensures
        json_entries_view(final(out)@) == subst_members(
            json_entries_view(map@).take(map@.len() as int),
            vars_view(vars@),
        ),
    decreases map, map@.len() - i,
{
    if i >= map.len() {
        return;
    }
    proof {
        lemma_json_entries_view(map@);
        let mv = json_entries_view(map@);
        let t = mv.take(i + 1);
        assert(t.drop_last() =~= mv.take(i as int));
        assert(t.last() == mv[i as int]);
        assert(mv[i as int] == (map@[i as int].0@, map@[i as int].1@));
    }
    if !should_prune(&map[i].1, vars) {
        let sub = substitute(&map[i].1, vars);
        object_insert(out, map[i].0.clone(), sub);
    }
    substitute_members(map, i + 1, vars, out);
}

fn substitute_items(
    items: &Vec<JsonValue>,
    i: usize,
    vars: &Vec<(String, Option<String>)>,
    out: &mut Vec<JsonValue>,
)
    requires
        i <= items@.len(),
        json_items_view(old(out)@) == subst_items(json_items_view(items@).take(i as int), vars_view(vars@)),
    ensures
        json_items_view(final(out)@) == subst_items(
            json_items_view(items@).take(items@.len() as int),
            vars_view(vars@),
        ),
    decreases items, items@.len() - i,
{
    if i >= items.len() {
        return;
    }
    proof {
        lemma_json_items_view(items@);
        let iv = json_items_view(items@);
        let t = iv.take(i + 1);
        assert(t.drop_last() =~= iv.take(i as int));
        assert(t.last() == iv[i as int]);
    }
    if !should_prune(&items[i], vars) {
        let sub = substitute(&items[i], vars);
        proof {
            lemma_json_items_push(out@, sub);
        }
        out.push(sub);
    }
    substitute_items(items, i + 1, vars, out);
}

} // verus!
