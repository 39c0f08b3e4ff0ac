//! The round trip of whole configurations with dotted field names, whose
//! canonical schema nests properties along the names.

use vstd::prelude::*;
use crate::json::{JsonV, lemma_get_size, lemma_member_size, members_size, json_size};
use crate::keyed::{entries_get, entries_insert};
use crate::schema::config::TomlFieldV;
use crate::schema::json_schema::from_canonical::{Found, full_name, walk_props};
use crate::schema::json_schema::is_intermediate;
use crate::schema::json_schema::to_canonical::Members;

verus! {

/// Nothing found.
pub open spec fn nothing() -> Found {
    (Seq::empty(), Seq::empty())
}

/// `found` followed by a walk's result.
pub open spec fn after(found: Found, r: Result<Found, Seq<char>>) -> Result<Found, Seq<char>> {
    match r {
        Ok(x) => Ok((found.0 + x.0, found.1 + x.1)),
        Err(e) => Err(e),
    }
}

/// What has been found before a walk only comes before what it finds.
pub(crate) proof fn lemma_walk_frame(p: Members, i: int, prefix: Seq<char>, top: bool, acc: Found)
    requires
        0 <= i,
    ensures
        walk_props(p, i, prefix, top, acc) == after(acc, walk_props(p, i, prefix, top, nothing())),
    decreases members_size(p), p.len() - i,
{
    if i >= p.len() {
        assert(acc.0 + Seq::<TomlFieldV>::empty() =~= acc.0);
        assert(acc.1 + Seq::<Seq<char>>::empty() =~= acc.1);
    } else {
        let name = p[i].0;
        let full = full_name(prefix, name);
        match p[i].1 {
            JsonV::Object(m) => {
                if m.len() == 0 {
                    if top {
                        let a2: Found = (acc.0, acc.1.push(name));
                        let e2: Found = (Seq::empty(), seq![name]);
                        assert(Seq::<Seq<char>>::empty().push(name) =~= seq![name]);
                        lemma_walk_frame(p, i + 1, prefix, top, a2);
                        lemma_walk_frame(p, i + 1, prefix, top, e2);
                        if let Ok(r) = walk_props(p, i + 1, prefix, top, nothing()) {
                            assert(a2.0 + r.0 =~= acc.0 + (e2.0 + r.0));
                            assert(a2.1 + r.1 =~= acc.1 + (e2.1 + r.1));
                        }
                    }
                } else if is_intermediate(p[i].1) {
                    if let Some(JsonV::Object(inner)) = entries_get(m, "properties"@) {
                        lemma_member_size(p, i);
                        lemma_get_size(m, "properties"@);
                        lemma_walk_frame(inner, 0, full, false, acc);
                        if let Ok(rin) = walk_props(inner, 0, full, false, nothing()) {
                            let a2: Found = (acc.0 + rin.0, acc.1 + rin.1);
                            lemma_walk_frame(p, i + 1, prefix, top, a2);
                            lemma_walk_frame(p, i + 1, prefix, top, rin);
                            if let Ok(r) = walk_props(p, i + 1, prefix, top, nothing()) {
                                assert(a2.0 + r.0 =~= acc.0 + (rin.0 + r.0));
                                assert(a2.1 + r.1 =~= acc.1 + (rin.1 + r.1));
                            }
                        }
                    }
                } else {
                    if let Ok(f) = crate::schema::json_schema::from_canonical::field_from_subschema(full, m) {
                        let a2: Found = (acc.0.push(f), acc.1);
                        let e2: Found = (seq![f], Seq::empty());
                        assert(Seq::<TomlFieldV>::empty().push(f) =~= seq![f]);
                        lemma_walk_frame(p, i + 1, prefix, top, a2);
                        lemma_walk_frame(p, i + 1, prefix, top, e2);
                        if let Ok(r) = walk_props(p, i + 1, prefix, top, nothing()) {
                            assert(a2.0 + r.0 =~= acc.0 + (e2.0 + r.0));
                            assert(a2.1 + r.1 =~= acc.1 + (e2.1 + r.1));
                        }
                    }
                }
            },
            _ => {},
        }
    }
}

/// What the walk finds in one property.
pub open spec fn entry_walk(e: (Seq<char>, JsonV), prefix: Seq<char>, top: bool) -> Result<Found, Seq<char>> {
    walk_props(seq![e], 0, prefix, top, nothing())
}

/// The walk's step at one property.
pub open spec fn walk_step(e: (Seq<char>, JsonV), prefix: Seq<char>, top: bool, acc: Found) -> Result<Found, Seq<char>> {
    let name = e.0;
    let full = full_name(prefix, name);
    match e.1 {
        JsonV::Object(m) => if m.len() == 0 {
            if top {
                Ok((acc.0, acc.1.push(name)))
            } else {
                Err(crate::schema::json_schema::from_canonical::perr(full, "empty schema is not allowed at nested depth"@))
            }
        } else if is_intermediate(e.1) {
            match entries_get(m, "properties"@) {
                Some(JsonV::Object(inner)) => walk_props(inner, 0, full, false, acc),
                _ => Err(
                    crate::schema::json_schema::from_canonical::perr(full, "internal error — intermediate object missing properties"@),
                ),
            }
        } else {
            match crate::schema::json_schema::from_canonical::field_from_subschema(full, m) {
                Ok(f) => Ok((acc.0.push(f), acc.1)),
                Err(x) => Err(x),
            }
        },
        _ => Err(crate::schema::json_schema::from_canonical::perr(full, "schema must be an object"@)),
    }
}

/// The walk reads one property after the other.
pub(crate) proof fn lemma_walk_step(p: Members, i: int, prefix: Seq<char>, top: bool, acc: Found)
    requires
        0 <= i < p.len(),
    ensures
        walk_props(p, i, prefix, top, acc) == match after(acc, entry_walk(p[i], prefix, top)) {
            Ok(next) => walk_props(p, i + 1, prefix, top, next),
            Err(e) => Err(e),
        },
{
    let e = p[i];
    let one = seq![e];
    lemma_walk_frame(one, 0, prefix, top, acc);
    assert(one[0] == e);
    assert(walk_props(p, i, prefix, top, acc) == match walk_step(e, prefix, top, acc) {
        Ok(next) => walk_props(p, i + 1, prefix, top, next),
        Err(x) => Err(x),
    });
    assert(walk_props(one, 0, prefix, top, acc) == match walk_step(e, prefix, top, acc) {
        Ok(next) => walk_props(one, 1, prefix, top, next),
        Err(x) => Err(x),
    });
    assert forall|x: Found| #[trigger] walk_props(one, 1, prefix, top, x) == Ok::<Found, Seq<char>>(x) by {}
}

/// The fields one property gives.
pub open spec fn entry_fields(prefix: Seq<char>, top: bool) -> spec_fn((Seq<char>, JsonV)) -> Seq<TomlFieldV> {
    |e: (Seq<char>, JsonV)| match entry_walk(e, prefix, top) {
        Ok(r) => r.0,
        Err(_) => Seq::empty(),
    }
}

/// The ignored names one property gives.
pub open spec fn entry_ignored(prefix: Seq<char>, top: bool) -> spec_fn((Seq<char>, JsonV)) -> Seq<Seq<char>> {
    |e: (Seq<char>, JsonV)| match entry_walk(e, prefix, top) {
        Ok(r) => r.1,
        Err(_) => Seq::empty(),
    }
}

/// Every property reads without error.
pub open spec fn entries_read(p: Members, prefix: Seq<char>, top: bool) -> bool {
    forall|j: int| 0 <= j < p.len() ==> (#[trigger] entry_walk(p[j], prefix, top)) is Ok
}

/// When every property reads, the walk finds what each gives, in order.
pub(crate) proof fn lemma_walk_flat(p: Members, i: int, prefix: Seq<char>, top: bool)
    requires
        0 <= i <= p.len(),
        entries_read(p, prefix, top),
    ensures
        walk_props(p, i, prefix, top, nothing()) == Ok::<Found, Seq<char>>((
            crate::schema::json_schema::roundtrip::flat_map(p.skip(i), entry_fields(prefix, top)),
            crate::schema::json_schema::roundtrip::flat_map(p.skip(i), entry_ignored(prefix, top)),
        )),
    decreases p.len() - i,
{
    if i == p.len() {
        assert(p.skip(i).len() == 0);
    } else {
        lemma_walk_step(p, i, prefix, top, nothing());
        assert(entry_walk(p[i], prefix, top) is Ok);
        let r = entry_walk(p[i], prefix, top)->Ok_0;
        assert(Seq::<TomlFieldV>::empty() + r.0 =~= r.0);
        assert(Seq::<Seq<char>>::empty() + r.1 =~= r.1);
        lemma_walk_frame(p, i + 1, prefix, top, r);
        lemma_walk_flat(p, i + 1, prefix, top);
        assert(p.skip(i).drop_first() =~= p.skip(i + 1));
        assert(p.skip(i)[0] == p[i]);
    }
}

/// The dotted name that `segs` continues `prefix` to.
pub open spec fn path_name(prefix: Seq<char>, segs: Seq<Seq<char>>) -> Seq<char>
    decreases segs.len(),
{
    if segs.len() == 0 {
        prefix
    } else {
        path_name(full_name(prefix, segs[0]), segs.drop_first())
    }
}

/// Whether one path is the beginning of the other (or they are equal).
pub open spec fn prefix_related(a: Seq<Seq<char>>, b: Seq<Seq<char>>) -> bool
    decreases a.len(),
{
    a.len() == 0 || b.len() == 0 || (a[0] == b[0] && prefix_related(a.drop_first(), b.drop_first()))
}

/// The properties inside an intermediate node.
pub open spec fn inner_of(n: JsonV) -> Members {
    match entries_get(n->Object_0, "properties"@) {
        Some(JsonV::Object(inner)) => inner,
        _ => Seq::empty(),
    }
}

/// A path along which a leaf can be placed without replacing anything, with
/// the members at every level on the way in key order.
pub open spec fn path_ok(props: Members, segs: Seq<Seq<char>>) -> bool
    decreases segs.len(),
{
    &&& crate::keyed::sorted_keys(props)
    &&& segs.len() >= 1
    &&& if segs.len() == 1 {
        entries_get(props, segs[0]) is None
    } else {
        match entries_get(props, segs[0]) {
            None => true,
            Some(n) => {
                &&& is_intermediate(n)
                &&& crate::keyed::sorted_keys(n->Object_0)
                &&& path_ok(inner_of(n), segs.drop_first())
            },
        }
    }
}

/// A fresh intermediate node: open, with no properties yet, in key order.
pub(crate) proof fn lemma_fresh_node()
    ensures
        is_intermediate(JsonV::Object(crate::schema::json_schema::intermediate_entries())),
        crate::keyed::sorted_keys(crate::schema::json_schema::intermediate_entries()),
        inner_of(JsonV::Object(crate::schema::json_schema::intermediate_entries())) == Seq::<(Seq<char>, JsonV)>::empty(),
{
    crate::schema::json_schema::roundtrip::lemma_keywords_distinct();
    let empty = Seq::<(Seq<char>, JsonV)>::empty();
    let t1 = entries_insert(empty, "type"@, JsonV::String("object"@));
    let t2 = entries_insert(t1, "additionalProperties"@, JsonV::Bool(true));
    let t3 = entries_insert(t2, "properties"@, JsonV::Object(empty));
    crate::keyed::lemma_get_insert(empty, "type"@, JsonV::String("object"@), "type"@);
    crate::keyed::lemma_get_insert(empty, "type"@, JsonV::String("object"@), "properties"@);
    crate::keyed::lemma_get_insert(empty, "type"@, JsonV::String("object"@), "x-mdvs"@);
    crate::keyed::lemma_get_insert(t1, "additionalProperties"@, JsonV::Bool(true), "type"@);
    crate::keyed::lemma_get_insert(t1, "additionalProperties"@, JsonV::Bool(true), "properties"@);
    crate::keyed::lemma_get_insert(t1, "additionalProperties"@, JsonV::Bool(true), "x-mdvs"@);
    crate::keyed::lemma_get_insert(t2, "properties"@, JsonV::Object(empty), "type"@);
    crate::keyed::lemma_get_insert(t2, "properties"@, JsonV::Object(empty), "properties"@);
    crate::keyed::lemma_get_insert(t2, "properties"@, JsonV::Object(empty), "x-mdvs"@);
    crate::keyed::lemma_insert_sorted(empty, "type"@, JsonV::String("object"@));
    crate::keyed::lemma_insert_sorted(t1, "additionalProperties"@, JsonV::Bool(true));
    crate::keyed::lemma_insert_sorted(t2, "properties"@, JsonV::Object(empty));
}

/// Replacing the properties of an intermediate node keeps it one.
pub(crate) proof fn lemma_node_update(node: Members, inner: Members)
    requires
        is_intermediate(JsonV::Object(node)),
        crate::keyed::sorted_keys(node),
    ensures
        is_intermediate(JsonV::Object(entries_insert(node, "properties"@, JsonV::Object(inner)))),
        crate::keyed::sorted_keys(entries_insert(node, "properties"@, JsonV::Object(inner))),
        inner_of(JsonV::Object(entries_insert(node, "properties"@, JsonV::Object(inner)))) == inner,
        entries_insert(node, "properties"@, JsonV::Object(inner)).len() > 0,
{
    crate::schema::json_schema::roundtrip::lemma_keywords_distinct();
    crate::keyed::lemma_get_insert(node, "properties"@, JsonV::Object(inner), "type"@);
    crate::keyed::lemma_get_insert(node, "properties"@, JsonV::Object(inner), "properties"@);
    crate::keyed::lemma_get_insert(node, "properties"@, JsonV::Object(inner), "x-mdvs"@);
    crate::keyed::lemma_insert_sorted(node, "properties"@, JsonV::Object(inner));
    crate::schema::json_schema::roundtrip::lemma_insert_members_of(node, "properties"@, JsonV::Object(inner));
    let n = entries_insert(node, "properties"@, JsonV::Object(inner));
    if n.len() == 0 {
        assert(entries_get(n, "properties"@) is None);
    }
}

/// A lookup that finds nothing means no entry has the key.
pub(crate) proof fn lemma_get_none_absent(e: Members, k: Seq<char>, j: int)
    requires
        0 <= j,
        crate::keyed::get_from(e, k, j) is None,
    ensures
        forall|i: int| j <= i < e.len() ==> (#[trigger] e[i]).0 != k,
    decreases e.len() - j,
{
    if j < e.len() {
        lemma_get_none_absent(e, k, j + 1);
    }
}

/// A walk that succeeds reads every property.
pub(crate) proof fn lemma_walk_ok_reads(p: Members, i: int, prefix: Seq<char>, top: bool, acc: Found)
    requires
        0 <= i <= p.len(),
        walk_props(p, i, prefix, top, acc) is Ok,
    ensures
        forall|j: int| i <= j < p.len() ==> (#[trigger] entry_walk(p[j], prefix, top)) is Ok,
    decreases p.len() - i,
{
    if i < p.len() {
        lemma_walk_step(p, i, prefix, top, acc);
        let next = after(acc, entry_walk(p[i], prefix, top))->Ok_0;
        lemma_walk_ok_reads(p, i + 1, prefix, top, next);
    }
}

/// What an intermediate node gives is what its properties give.
pub(crate) proof fn lemma_node_walk(k: Seq<char>, node: Members, prefix: Seq<char>, top: bool)
    requires
        is_intermediate(JsonV::Object(node)),
        node.len() > 0,
    ensures
        entry_walk((k, JsonV::Object(node)), prefix, top) == walk_props(inner_of(JsonV::Object(node)), 0, full_name(prefix, k), false, nothing()),
{
    let e = (k, JsonV::Object(node));
    let one = seq![e];
    assert(one[0] == e);
    assert(walk_props(one, 0, prefix, top, nothing()) == match walk_step(e, prefix, top, nothing()) {
        Ok(next) => walk_props(one, 1, prefix, top, next),
        Err(x) => Err(x),
    });
    assert forall|x: Found| #[trigger] walk_props(one, 1, prefix, top, x) == Ok::<Found, Seq<char>>(x) by {}
}

/// What a leaf for a portable field gives is the field.
pub(crate) proof fn lemma_leaf_walk(k: Seq<char>, f: TomlFieldV, prefix: Seq<char>, top: bool)
    requires
        crate::schema::json_schema::roundtrip::portable_field(f),
        f.name == full_name(prefix, k),
    ensures
        entry_walk((k, crate::schema::json_schema::to_canonical::field_subschema(f)), prefix, top) == Ok::<Found, Seq<char>>((seq![f], Seq::empty())),
{
    crate::schema::json_schema::roundtrip::lemma_field_schema_roundtrip(f);
    let e = (k, crate::schema::json_schema::to_canonical::field_subschema(f));
    let one = seq![e];
    assert(one[0] == e);
    assert(walk_props(one, 0, prefix, top, nothing()) == match walk_step(e, prefix, top, nothing()) {
        Ok(next) => walk_props(one, 1, prefix, top, next),
        Err(x) => Err(x),
    });
    assert forall|x: Found| #[trigger] walk_props(one, 1, prefix, top, x) == Ok::<Found, Seq<char>>(x) by {}
    assert(Seq::<TomlFieldV>::empty().push(f) =~= seq![f]);
}

/// Empty properties are fine for any path.
pub(crate) proof fn lemma_path_ok_empty(segs: Seq<Seq<char>>)
    requires
        segs.len() >= 1,
    ensures
        path_ok(Seq::empty(), segs),
{
}

/// Placing a leaf along one path keeps another path that is not related to
/// it free and in order.
pub(crate) proof fn lemma_path_ok_kept(props: Members, sf: Seq<Seq<char>>, sg: Seq<Seq<char>>, leaf: JsonV)
    requires
        path_ok(props, sf),
        path_ok(props, sg),
        !prefix_related(sf, sg),
    ensures
        path_ok(crate::schema::json_schema::to_canonical::insert_at_path(props, sf, leaf), sg),
    decreases sf.len(),
{
    let k = sf[0];
    let p2 = crate::schema::json_schema::to_canonical::insert_at_path(props, sf, leaf);
    if sf.len() == 1 {
        crate::keyed::lemma_insert_sorted(props, k, leaf);
        crate::keyed::lemma_get_insert(props, k, leaf, sg[0]);
        assert(sf.drop_first().len() == 0);
        assert(prefix_related(sf.drop_first(), sg.drop_first()));
        assert(sg[0] != k);
    } else {
        let node: Members = match entries_get(props, k) {
            Some(n) => if is_intermediate(n) {
                n->Object_0
            } else {
                crate::schema::json_schema::intermediate_entries()
            },
            None => crate::schema::json_schema::intermediate_entries(),
        };
        let inner = inner_of(JsonV::Object(node));
        let new_inner = crate::schema::json_schema::to_canonical::insert_at_path(inner, sf.drop_first(), leaf);
        let new_node = entries_insert(node, "properties"@, JsonV::Object(new_inner));
        assert(p2 == entries_insert(props, k, JsonV::Object(new_node)));
        crate::keyed::lemma_insert_sorted(props, k, JsonV::Object(new_node));
        crate::keyed::lemma_get_insert(props, k, JsonV::Object(new_node), sg[0]);
        if sg[0] == k {
            if sg.len() == 1 {
                assert(sg.drop_first().len() == 0);
                assert(prefix_related(sf.drop_first(), sg.drop_first()));
            }
            assert(sg.len() >= 2);
            assert(!prefix_related(sf.drop_first(), sg.drop_first()));
            if entries_get(props, k) is None {
                lemma_fresh_node();
                lemma_path_ok_empty(sf.drop_first());
                lemma_path_ok_empty(sg.drop_first());
            }
            lemma_node_update(node, new_inner);
            lemma_path_ok_kept(inner, sf.drop_first(), sg.drop_first(), leaf);
        }
    }
}

/// Adding a property under a key that is not there adds what it gives.
pub(crate) proof fn lemma_fresh_insert_walk(props: Members, k: Seq<char>, v: JsonV, prefix: Seq<char>, top: bool)
    requires
        entries_get(props, k) is None,
        entries_read(props, prefix, top),
        entry_walk((k, v), prefix, top) is Ok,
    ensures
        entries_read(entries_insert(props, k, v), prefix, top),
        crate::schema::json_schema::roundtrip::flat_map(entries_insert(props, k, v), entry_fields(prefix, top)).to_multiset()
            == crate::schema::json_schema::roundtrip::flat_map(props, entry_fields(prefix, top)).to_multiset().add(
            entry_walk((k, v), prefix, top)->Ok_0.0.to_multiset()),
        crate::schema::json_schema::roundtrip::flat_map(entries_insert(props, k, v), entry_ignored(prefix, top)).to_multiset()
            == crate::schema::json_schema::roundtrip::flat_map(props, entry_ignored(prefix, top)).to_multiset().add(
            entry_walk((k, v), prefix, top)->Ok_0.1.to_multiset()),
{
    let keys = crate::keyed::keys_of_view(props);
    crate::keyed::lemma_pos_from_bounds(keys, k, 0);
    let pos = crate::keyed::key_pos(keys, k);
    lemma_get_none_absent(props, k, 0);
    if pos < keys.len() {
        assert(keys[pos] == props[pos].0);
    }
    assert(!crate::keyed::key_found(keys, k));
    let p2 = entries_insert(props, k, v);
    assert(p2 == props.insert(pos, (k, v)));
    assert(p2.remove(pos) =~= props);
    crate::schema::json_schema::roundtrip::lemma_flat_map_remove(p2, pos, entry_fields(prefix, top));
    crate::schema::json_schema::roundtrip::lemma_flat_map_remove(p2, pos, entry_ignored(prefix, top));
    assert forall|j: int| 0 <= j < p2.len() implies (#[trigger] entry_walk(p2[j], prefix, top)) is Ok by {
        if j < pos {
            assert(p2[j] == props[j]);
        } else if j > pos {
            assert(p2[j] == props[j - 1]);
        }
    }
}

/// Placing a portable field's schema along a free path adds the field to
/// what the walk finds, and nothing else.
pub(crate) proof fn lemma_insert_leaf(props: Members, segs: Seq<Seq<char>>, prefix: Seq<char>, top: bool, f: TomlFieldV)
    requires
        path_ok(props, segs),
        entries_read(props, prefix, top),
        crate::schema::json_schema::roundtrip::portable_field(f),
        f.name == path_name(prefix, segs),
    ensures
        crate::keyed::sorted_keys(crate::schema::json_schema::to_canonical::insert_at_path(props, segs, crate::schema::json_schema::to_canonical::field_subschema(f))),
        entries_read(crate::schema::json_schema::to_canonical::insert_at_path(props, segs, crate::schema::json_schema::to_canonical::field_subschema(f)), prefix, top),
        crate::schema::json_schema::roundtrip::flat_map(
            crate::schema::json_schema::to_canonical::insert_at_path(props, segs, crate::schema::json_schema::to_canonical::field_subschema(f)),
            entry_fields(prefix, top),
        ).to_multiset() == crate::schema::json_schema::roundtrip::flat_map(props, entry_fields(prefix, top)).to_multiset().insert(f),
        crate::schema::json_schema::roundtrip::flat_map(
            crate::schema::json_schema::to_canonical::insert_at_path(props, segs, crate::schema::json_schema::to_canonical::field_subschema(f)),
            entry_ignored(prefix, top),
        ).to_multiset() == crate::schema::json_schema::roundtrip::flat_map(props, entry_ignored(prefix, top)).to_multiset(),
    decreases segs.len(),
{
    broadcast use vstd::multiset::group_multiset_axioms;
    broadcast use vstd::seq_lib::group_to_multiset_ensures;
    let leaf = crate::schema::json_schema::to_canonical::field_subschema(f);
    let p2 = crate::schema::json_schema::to_canonical::insert_at_path(props, segs, leaf);
    let ef = entry_fields(prefix, top);
    let ei = entry_ignored(prefix, top);
    let k = segs[0];
    let full = full_name(prefix, k);
    let rest = segs.drop_first();
    let empty = Seq::<(Seq<char>, JsonV)>::empty();
    assert(path_name(prefix, segs) == path_name(full, rest));
    if segs.len() == 1 {
        assert(rest.len() == 0);
        lemma_leaf_walk(k, f, prefix, top);
        crate::keyed::lemma_insert_sorted(props, k, leaf);
        lemma_fresh_insert_walk(props, k, leaf, prefix, top);
        assert(seq![f].to_multiset() =~= vstd::multiset::Multiset::empty().insert(f));
        assert(Seq::<Seq<char>>::empty().to_multiset() =~= vstd::multiset::Multiset::empty());
    } else {
        match entries_get(props, k) {
            None => {
                let node = crate::schema::json_schema::intermediate_entries();
                lemma_fresh_node();
                lemma_path_ok_empty(rest);
                lemma_insert_leaf(empty, rest, full, false, f);
                let new_inner = crate::schema::json_schema::to_canonical::insert_at_path(empty, rest, leaf);
                lemma_node_update(node, new_inner);
                let new_node = entries_insert(node, "properties"@, JsonV::Object(new_inner));
                assert(p2 == entries_insert(props, k, JsonV::Object(new_node)));
                crate::keyed::lemma_insert_sorted(props, k, JsonV::Object(new_node));
                lemma_node_walk(k, new_node, prefix, top);
                lemma_walk_flat(new_inner, 0, full, false);
                assert(new_inner.skip(0) =~= new_inner);
                assert(crate::schema::json_schema::roundtrip::flat_map(empty, entry_fields(full, false)) == Seq::<TomlFieldV>::empty());
                assert(crate::schema::json_schema::roundtrip::flat_map(empty, entry_ignored(full, false)) == Seq::<Seq<char>>::empty());
                lemma_fresh_insert_walk(props, k, JsonV::Object(new_node), prefix, top);
            },
            Some(n) => {
                let node = n->Object_0;
                let inner = inner_of(n);
                crate::keyed::lemma_get_member(props, k, 0);
                let i = choose|i: int| 0 <= i < props.len() && props[i] == (k, n);
                crate::keyed::lemma_sorted_present(props, k, i);
                assert(entries_get(node, "type"@) is Some);
                assert(node.len() > 0);
                assert(n == JsonV::Object(node));
                lemma_node_walk(k, node, prefix, top);
                assert(entry_walk(props[i], prefix, top) is Ok);
                lemma_walk_ok_reads(inner, 0, full, false, nothing());
                lemma_insert_leaf(inner, rest, full, false, f);
                let new_inner = crate::schema::json_schema::to_canonical::insert_at_path(inner, rest, leaf);
                lemma_node_update(node, new_inner);
                let new_node = entries_insert(node, "properties"@, JsonV::Object(new_inner));
                assert(p2 == entries_insert(props, k, JsonV::Object(new_node)));
                crate::keyed::lemma_insert_sorted(props, k, JsonV::Object(new_node));
                lemma_node_walk(k, new_node, prefix, top);
                lemma_walk_flat(inner, 0, full, false);
                lemma_walk_flat(new_inner, 0, full, false);
                assert(inner.skip(0) =~= inner);
                assert(new_inner.skip(0) =~= new_inner);
                assert(p2 == props.update(i, (k, JsonV::Object(new_node))));
                assert(p2.remove(i) =~= props.remove(i));
                crate::schema::json_schema::roundtrip::lemma_flat_map_remove(p2, i, ef);
                crate::schema::json_schema::roundtrip::lemma_flat_map_remove(props, i, ef);
                crate::schema::json_schema::roundtrip::lemma_flat_map_remove(p2, i, ei);
                crate::schema::json_schema::roundtrip::lemma_flat_map_remove(props, i, ei);
                assert forall|j: int| 0 <= j < p2.len() implies (#[trigger] entry_walk(p2[j], prefix, top)) is Ok by {
                    if j != i {
                        assert(p2[j] == props[j]);
                    }
                }
            },
        }
    }
}

/// The segments of a dotted name rejoin to it when a prefix stands before
/// them.
proof fn lemma_path_name_split(p: Seq<char>, s: Seq<char>, cur: Seq<char>)
    requires
        p.len() > 0,
    ensures
        path_name(p, crate::schema::json_schema::to_canonical::split_from(s, cur)) == p + seq!['.'] + cur + s,
    decreases s.len(),
{
    reveal_strlit(".");
    let sp = crate::schema::json_schema::to_canonical::split_from(s, cur);
    lemma_split_nonempty(s, cur);
    assert(path_name(p, sp) == path_name(full_name(p, sp[0]), sp.drop_first()));
    if s.len() == 0 {
        assert(sp == seq![cur]);
        assert(sp.drop_first().len() == 0);
        assert(full_name(p, cur) == p + "."@ + cur);
        assert(p + seq!['.'] + cur + s =~= p + "."@ + cur);
    } else if s[0] == '.' {
        let rest = crate::schema::json_schema::to_canonical::split_from(s.drop_first(), Seq::empty());
        assert(sp == seq![cur] + rest);
        assert(sp.drop_first() =~= rest);
        assert(sp[0] == cur);
        let q = p + "."@ + cur;
        assert(full_name(p, cur) == q);
        lemma_path_name_split(q, s.drop_first(), Seq::empty());
        assert(q + seq!['.'] + Seq::<char>::empty() + s.drop_first() =~= p + seq!['.'] + cur + s);
    } else {
        assert(sp == crate::schema::json_schema::to_canonical::split_from(s.drop_first(), cur.push(s[0])));
        lemma_path_name_split(p, s.drop_first(), cur.push(s[0]));
        assert(p + seq!['.'] + cur.push(s[0]) + s.drop_first() =~= p + seq!['.'] + cur + s);
    }
}

/// A dotted name whose first segment is not empty (or that has one
/// segment) is what its segments spell.
proof fn lemma_top_path_name(s: Seq<char>, cur: Seq<char>)
    requires
        crate::schema::json_schema::to_canonical::split_from(s, cur).len() == 1
            || crate::schema::json_schema::to_canonical::split_from(s, cur)[0].len() > 0,
    ensures
        path_name(Seq::empty(), crate::schema::json_schema::to_canonical::split_from(s, cur)) == cur + s,
    decreases s.len(),
{
    reveal_strlit(".");
    let sp = crate::schema::json_schema::to_canonical::split_from(s, cur);
    lemma_split_nonempty(s, cur);
    assert(path_name(Seq::empty(), sp) == path_name(full_name(Seq::empty(), sp[0]), sp.drop_first()));
    if s.len() == 0 {
        assert(sp == seq![cur]);
        assert(sp.drop_first().len() == 0);
        assert(full_name(Seq::empty(), cur) == cur);
        assert(cur + s =~= cur);
    } else if s[0] == '.' {
        let rest = crate::schema::json_schema::to_canonical::split_from(s.drop_first(), Seq::empty());
        assert(sp == seq![cur] + rest);
        lemma_split_nonempty(s.drop_first(), Seq::empty());
        assert(sp.len() > 1);
        assert(sp[0] == cur);
        assert(cur.len() > 0);
        assert(full_name(Seq::empty(), cur) == cur);
        assert(sp.drop_first() =~= rest);
        lemma_path_name_split(cur, s.drop_first(), Seq::empty());
        assert(cur + seq!['.'] + Seq::<char>::empty() + s.drop_first() =~= cur + s);
    } else {
        assert(sp == crate::schema::json_schema::to_canonical::split_from(s.drop_first(), cur.push(s[0])));
        lemma_top_path_name(s.drop_first(), cur.push(s[0]));
        assert(cur.push(s[0]) + s.drop_first() =~= cur + s);
    }
}

/// A split has at least one segment.
pub(crate) proof fn lemma_split_nonempty(s: Seq<char>, cur: Seq<char>)
    ensures
        crate::schema::json_schema::to_canonical::split_from(s, cur).len() >= 1,
    decreases s.len(),
{
    if s.len() > 0 {
        if s[0] == '.' {
            lemma_split_nonempty(s.drop_first(), Seq::empty());
        } else {
            lemma_split_nonempty(s.drop_first(), cur.push(s[0]));
        }
    }
}

/// The segments of a field's name.
pub open spec fn segments(f: TomlFieldV) -> Seq<Seq<char>> {
    crate::schema::json_schema::to_canonical::split_dots(f.name)
}

/// A configuration whose fields are portable, whose names start with a
/// non-empty segment (or have one segment), none of whose name paths
/// begins another's, and whose ignored names are distinct and are not the
/// first segment of any field.
pub open spec fn tree_config(fields: Seq<TomlFieldV>, ignore: Seq<Seq<char>>) -> bool {
    &&& forall|i: int| 0 <= i < fields.len() ==> crate::schema::json_schema::roundtrip::portable_field(#[trigger] fields[i])
    &&& forall|i: int| 0 <= i < fields.len() ==> (segments(#[trigger] fields[i]).len() == 1 || segments(fields[i])[0].len() > 0)
    &&& forall|i: int, j: int| 0 <= i < j < fields.len() ==> !prefix_related(segments(#[trigger] fields[i]), segments(#[trigger] fields[j]))
    &&& forall|i: int, j: int| 0 <= i < j < ignore.len() ==> #[trigger] ignore[i] != #[trigger] ignore[j]
    &&& forall|i: int, j: int| 0 <= i < ignore.len() && 0 <= j < fields.len() ==> #[trigger] ignore[i] != segments(#[trigger] fields[j])[0]
}

/// The top-level keys of `p` are among `keys`.
pub open spec fn keys_among(p: Members, keys: Seq<Seq<char>>) -> bool {
    forall|j: int| 0 <= j < p.len() ==> keys.contains(#[trigger] p[j].0)
}

/// The first segments of the fields.
pub open spec fn first_segments(fields: Seq<TomlFieldV>) -> Seq<Seq<char>> {
    fields.map_values(|f: TomlFieldV| segments(f)[0])
}

/// The properties written for the first `n` fields read back as those
/// fields, and leave the paths of the others free.
proof fn lemma_field_properties_tree(fields: Seq<TomlFieldV>, ignore: Seq<Seq<char>>, n: int)
    requires
        tree_config(fields, ignore),
        0 <= n <= fields.len(),
    ensures
        crate::keyed::sorted_keys(crate::schema::json_schema::to_canonical::field_properties(fields.take(n))),
        entries_read(crate::schema::json_schema::to_canonical::field_properties(fields.take(n)), Seq::empty(), true),
        crate::schema::json_schema::roundtrip::flat_map(crate::schema::json_schema::to_canonical::field_properties(fields.take(n)), entry_fields(Seq::empty(), true)).to_multiset()
            == fields.take(n).to_multiset(),
        crate::schema::json_schema::roundtrip::flat_map(crate::schema::json_schema::to_canonical::field_properties(fields.take(n)), entry_ignored(Seq::empty(), true)).to_multiset()
            == vstd::multiset::Multiset::<Seq<char>>::empty(),
        forall|j: int| n <= j < fields.len() ==> path_ok(crate::schema::json_schema::to_canonical::field_properties(fields.take(n)), #[trigger] segments(fields[j])),
        keys_among(crate::schema::json_schema::to_canonical::field_properties(fields.take(n)), first_segments(fields)),
    decreases n,
{
    broadcast use vstd::multiset::group_multiset_axioms;
    broadcast use vstd::seq_lib::group_to_multiset_ensures;
    let fp = crate::schema::json_schema::to_canonical::field_properties(fields.take(n));
    if n == 0 {
        assert(fields.take(0) =~= Seq::<TomlFieldV>::empty());
        assert(fp == Seq::<(Seq<char>, JsonV)>::empty());
        assert forall|j: int| n <= j < fields.len() implies path_ok(fp, #[trigger] segments(fields[j])) by {
            crate::schema::json_schema::tree_roundtrip::lemma_split_nonempty(fields[j].name, Seq::empty());
            lemma_path_ok_empty(segments(fields[j]));
        }
    } else {
        lemma_field_properties_tree(fields, ignore, n - 1);
        let prev = crate::schema::json_schema::to_canonical::field_properties(fields.take(n - 1));
        let f = fields[n - 1];
        assert(fields.take(n).drop_last() =~= fields.take(n - 1));
        assert(fields.take(n).last() == f);
        assert(fp == crate::schema::json_schema::to_canonical::insert_at_path(prev, segments(f), crate::schema::json_schema::to_canonical::field_subschema(f)));
        assert(crate::schema::json_schema::roundtrip::portable_field(fields[n - 1]));
        assert(segments(fields[n - 1]).len() == 1 || segments(fields[n - 1])[0].len() > 0);
        lemma_top_path_name(f.name, Seq::empty());
        assert(Seq::<char>::empty() + f.name =~= f.name);
        assert(path_ok(prev, segments(fields[n - 1])));
        lemma_insert_leaf(prev, segments(f), Seq::empty(), true, f);
        assert(fields.take(n) =~= fields.take(n - 1).push(f));
        assert forall|j: int| n <= j < fields.len() implies path_ok(fp, #[trigger] segments(fields[j])) by {
            assert(path_ok(prev, segments(fields[j])));
            assert(!prefix_related(segments(fields[n - 1]), segments(fields[j])));
            lemma_path_ok_kept(prev, segments(f), segments(fields[j]), crate::schema::json_schema::to_canonical::field_subschema(f));
        }
        // the top-level keys: the new one is the first segment of `f`
        lemma_split_nonempty(f.name, Seq::empty());
        let k = segments(f)[0];
        let x: JsonV = if segments(f).len() == 1 {
            crate::schema::json_schema::to_canonical::field_subschema(f)
        } else {
            let node: Members = match entries_get(prev, k) {
                Some(nd) => if is_intermediate(nd) {
                    nd->Object_0
                } else {
                    crate::schema::json_schema::intermediate_entries()
                },
                None => crate::schema::json_schema::intermediate_entries(),
            };
            JsonV::Object(entries_insert(node, "properties"@, JsonV::Object(
                crate::schema::json_schema::to_canonical::insert_at_path(inner_of(JsonV::Object(node)), segments(f).drop_first(), crate::schema::json_schema::to_canonical::field_subschema(f)),
            )))
        };
        assert(fp == entries_insert(prev, k, x));
        crate::schema::json_schema::roundtrip::lemma_insert_members_of(prev, k, x);
        assert(first_segments(fields)[n - 1] == k);
        assert forall|j: int| 0 <= j < fp.len() implies first_segments(fields).contains(#[trigger] fp[j].0) by {
            if fp[j] == (k, x) {
                assert(first_segments(fields)[n - 1] == fp[j].0);
            } else {
                let i = choose|i: int| 0 <= i < prev.len() && fp[j] == prev[i];
                assert(first_segments(fields).contains(prev[i].0));
            }
        }
    }
}

/// A lookup finds nothing when no entry has the key.
pub(crate) proof fn lemma_absent_get_none(e: Members, k: Seq<char>, j: int)
    requires
        0 <= j,
        forall|i: int| j <= i < e.len() ==> (#[trigger] e[i]).0 != k,
    ensures
        crate::keyed::get_from(e, k, j) is None,
    decreases e.len() - j,
{
    if j < e.len() {
        lemma_absent_get_none(e, k, j + 1);
    }
}

/// An ignored name's empty schema gives that name, and no field.
pub(crate) proof fn lemma_ignore_walk(k: Seq<char>)
    ensures
        entry_walk((k, JsonV::Object(Seq::empty())), Seq::empty(), true) == Ok::<Found, Seq<char>>((Seq::empty(), seq![k])),
{
    let e = (k, JsonV::Object(Seq::<(Seq<char>, JsonV)>::empty()));
    let one = seq![e];
    assert(one[0] == e);
    assert(walk_props(one, 0, Seq::empty(), true, nothing()) == match walk_step(e, Seq::empty(), true, nothing()) {
        Ok(next) => walk_props(one, 1, Seq::empty(), true, next),
        Err(x) => Err(x),
    });
    assert forall|x: Found| #[trigger] walk_props(one, 1, Seq::empty(), true, x) == Ok::<Found, Seq<char>>(x) by {}
    assert(Seq::<Seq<char>>::empty().push(k) =~= seq![k]);
}

/// The empty schemas written for the first `n` ignored names read back as
/// those names, next to what the fields' properties give.
proof fn lemma_ignore_properties_tree(props: Members, fields: Seq<TomlFieldV>, ignore: Seq<Seq<char>>, n: int)
    requires
        tree_config(fields, ignore),
        entries_read(props, Seq::empty(), true),
        keys_among(props, first_segments(fields)),
        0 <= n <= ignore.len(),
    ensures
        entries_read(crate::schema::json_schema::to_canonical::ignore_properties(props, ignore.take(n)), Seq::empty(), true),
        crate::schema::json_schema::roundtrip::flat_map(
            crate::schema::json_schema::to_canonical::ignore_properties(props, ignore.take(n)),
            entry_fields(Seq::empty(), true),
        ).to_multiset() == crate::schema::json_schema::roundtrip::flat_map(props, entry_fields(Seq::empty(), true)).to_multiset(),
        crate::schema::json_schema::roundtrip::flat_map(
            crate::schema::json_schema::to_canonical::ignore_properties(props, ignore.take(n)),
            entry_ignored(Seq::empty(), true),
        ).to_multiset() == crate::schema::json_schema::roundtrip::flat_map(props, entry_ignored(Seq::empty(), true)).to_multiset().add(
            ignore.take(n).to_multiset()),
        forall|k: Seq<char>| !ignore.take(n).contains(k) ==> #[trigger] entries_get(
            crate::schema::json_schema::to_canonical::ignore_properties(props, ignore.take(n)),
            k,
        ) == entries_get(props, k),
    decreases n,
{
    broadcast use vstd::multiset::group_multiset_axioms;
    broadcast use vstd::seq_lib::group_to_multiset_ensures;
    let ef = entry_fields(Seq::empty(), true);
    let ei = entry_ignored(Seq::empty(), true);
    if n == 0 {
        assert(ignore.take(0) =~= Seq::<Seq<char>>::empty());
        assert(ignore.take(0).to_multiset() =~= vstd::multiset::Multiset::empty());
    } else {
        lemma_ignore_properties_tree(props, fields, ignore, n - 1);
        let prev = crate::schema::json_schema::to_canonical::ignore_properties(props, ignore.take(n - 1));
        let k = ignore[n - 1];
        let v = JsonV::Object(Seq::<(Seq<char>, JsonV)>::empty());
        assert(ignore.take(n).drop_last() =~= ignore.take(n - 1));
        assert(ignore.take(n).last() == k);
        let cur = crate::schema::json_schema::to_canonical::ignore_properties(props, ignore.take(n));
        assert(cur == entries_insert(prev, k, v));
        assert(ignore.take(n) =~= ignore.take(n - 1).push(k));
        // `k` is new: it is no earlier ignored name and no first segment
        assert(!ignore.take(n - 1).contains(k)) by {
            if ignore.take(n - 1).contains(k) {
                let i = choose|i: int| 0 <= i < n - 1 && #[trigger] ignore.take(n - 1)[i] == k;
                assert(ignore[i] == ignore[n - 1]);
            }
        }
        assert forall|i: int| 0 <= i < props.len() implies (#[trigger] props[i]).0 != k by {
            assert(first_segments(fields).contains(props[i].0));
            let j = choose|j: int| 0 <= j < first_segments(fields).len() && #[trigger] first_segments(fields)[j] == props[i].0;
            assert(0 <= j < fields.len());
            assert(ignore[n - 1] != segments(fields[j])[0]);
        }
        lemma_absent_get_none(props, k, 0);
        assert(entries_get(prev, k) is None);
        lemma_ignore_walk(k);
        lemma_fresh_insert_walk(prev, k, v, Seq::empty(), true);
        assert(Seq::<TomlFieldV>::empty().to_multiset() =~= vstd::multiset::Multiset::empty());
        assert(seq![k].to_multiset() =~= vstd::multiset::Multiset::empty().insert(k));
        assert(ignore.take(n).to_multiset() =~= ignore.take(n - 1).to_multiset().insert(k));
        assert forall|k2: Seq<char>| !ignore.take(n).contains(k2) implies #[trigger] entries_get(
            crate::schema::json_schema::to_canonical::ignore_properties(props, ignore.take(n)),
            k2,
        ) == entries_get(props, k2) by {
            assert(k2 != k) by {
                assert(ignore.take(n)[n - 1] == k);
            }
            assert(!ignore.take(n - 1).contains(k2)) by {
                if ignore.take(n - 1).contains(k2) {
                    let i = choose|i: int| 0 <= i < n - 1 && #[trigger] ignore.take(n - 1)[i] == k2;
                    assert(ignore.take(n)[i] == k2);
                }
            }
            crate::keyed::lemma_get_insert(prev, k, v, k2);
        }
    }
}

/// Round trip through the canonical JSON Schema: a configuration whose
/// fields are portable, whose dotted names lay out a tree (no field's name
/// path begins another's), and whose ignored names are distinct and apart
/// from the fields' first segments, is read back from its schema as the
/// same fields and the same ignored names, up to order.
pub proof fn lemma_canonical_roundtrip_tree(fields: Seq<TomlFieldV>, ignore: Seq<Seq<char>>)
    requires
        tree_config(fields, ignore),
    ensures
        crate::schema::json_schema::from_canonical::canonical_import(crate::schema::json_schema::to_canonical::canonical(fields, ignore)) is Ok,
        crate::schema::json_schema::from_canonical::canonical_import(crate::schema::json_schema::to_canonical::canonical(fields, ignore))->Ok_0.0.to_multiset()
            == fields.to_multiset(),
        crate::schema::json_schema::from_canonical::canonical_import(crate::schema::json_schema::to_canonical::canonical(fields, ignore))->Ok_0.1.to_multiset()
            == ignore.to_multiset(),
{
    broadcast use vstd::multiset::group_multiset_axioms;
    crate::schema::json_schema::roundtrip::lemma_keywords_distinct();
    let ef = entry_fields(Seq::empty(), true);
    let ei = entry_ignored(Seq::empty(), true);
    assert(fields.take(fields.len() as int) =~= fields);
    assert(ignore.take(ignore.len() as int) =~= ignore);
    lemma_field_properties_tree(fields, ignore, fields.len() as int);
    let fp = crate::schema::json_schema::to_canonical::field_properties(fields);
    lemma_ignore_properties_tree(fp, fields, ignore, ignore.len() as int);
    let p = crate::schema::json_schema::to_canonical::ignore_properties(fp, ignore);
    lemma_walk_flat(p, 0, Seq::empty(), true);
    assert(p.skip(0) =~= p);
    let empty = Seq::<(Seq<char>, JsonV)>::empty();
    let r1 = entries_insert(empty, "$schema"@, JsonV::String(crate::schema::json_schema::to_canonical::JSON_SCHEMA_DRAFT@));
    let r2 = entries_insert(r1, "type"@, JsonV::String("object"@));
    let r3 = entries_insert(r2, "properties"@, JsonV::Object(p));
    crate::keyed::lemma_get_insert(r2, "properties"@, JsonV::Object(p), "properties"@);
    crate::keyed::lemma_get_insert(r3, "additionalProperties"@, JsonV::Bool(true), "properties"@);
    assert(crate::json::member(crate::schema::json_schema::to_canonical::canonical(fields, ignore), "properties"@) == Some(JsonV::Object(p)));
    assert(nothing() == (Seq::<TomlFieldV>::empty(), Seq::<Seq<char>>::empty()));
}

} // verus!
