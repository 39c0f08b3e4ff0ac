//! The canonical schema does not depend on the order of the field
//! definitions, nor on the order of the ignored names.

use vstd::prelude::*;
use crate::json::JsonV;
use crate::keyed::{entries_get, entries_insert, sorted_keys};
use crate::schema::config::TomlFieldV;
use crate::schema::json_schema::{intermediate_entries, is_intermediate};
use crate::schema::json_schema::to_canonical::{Members, canonical, field_properties, field_subschema, ignore_properties, insert_at_path};
use crate::schema::json_schema::tree_roundtrip::{inner_of, path_ok, prefix_related, segments};

verus! {

/// The node that a path continues into, given what its key holds now.
pub open spec fn node_at(cur: Option<JsonV>) -> Members {
    match cur {
        Some(n) => if is_intermediate(n) {
            n->Object_0
        } else {
            intermediate_entries()
        },
        None => intermediate_entries(),
    }
}

/// The value that placing `leaf` along `segs` puts under the first
/// segment, given what that key holds now.
pub open spec fn placed(cur: Option<JsonV>, segs: Seq<Seq<char>>, leaf: JsonV) -> JsonV {
    if segs.len() == 1 {
        leaf
    } else {
        JsonV::Object(entries_insert(
            node_at(cur),
            "properties"@,
            JsonV::Object(insert_at_path(inner_of(JsonV::Object(node_at(cur))), segs.drop_first(), leaf)),
        ))
    }
}

/// Placing a leaf along a path inserts one value under its first segment.
proof fn lemma_insert_at_path_top(props: Members, segs: Seq<Seq<char>>, leaf: JsonV)
    requires
        segs.len() >= 1,
    ensures
        insert_at_path(props, segs, leaf) == entries_insert(props, segs[0], placed(entries_get(props, segs[0]), segs, leaf)),
{
}

/// Placing leaves along two paths, neither of which begins the other,
/// gives the same properties in either order.
proof fn lemma_insert_at_path_commute(p: Members, s1: Seq<Seq<char>>, l1: JsonV, s2: Seq<Seq<char>>, l2: JsonV)
    requires
        path_ok(p, s1),
        path_ok(p, s2),
        !prefix_related(s1, s2),
    ensures
        insert_at_path(insert_at_path(p, s1, l1), s2, l2) == insert_at_path(insert_at_path(p, s2, l2), s1, l1),
    decreases s1.len(),
{
    let k1 = s1[0];
    let k2 = s2[0];
    let a = insert_at_path(p, s1, l1);
    let b = insert_at_path(p, s2, l2);
    lemma_insert_at_path_top(p, s1, l1);
    lemma_insert_at_path_top(p, s2, l2);
    lemma_insert_at_path_top(a, s2, l2);
    lemma_insert_at_path_top(b, s1, l1);
    if k1 != k2 {
        crate::keyed::lemma_get_insert(p, k1, placed(entries_get(p, k1), s1, l1), k2);
        crate::keyed::lemma_get_insert(p, k2, placed(entries_get(p, k2), s2, l2), k1);
        crate::keyed::lemma_insert_commute(p, k1, placed(entries_get(p, k1), s1, l1), k2, placed(entries_get(p, k2), s2, l2));
    } else {
        let k = k1;
        if s1.len() == 1 || s2.len() == 1 {
            assert(s1.drop_first().len() == 0 || s2.drop_first().len() == 0);
            assert(prefix_related(s1.drop_first(), s2.drop_first()));
            assert(prefix_related(s1, s2));
        }
        let r1 = s1.drop_first();
        let r2 = s2.drop_first();
        assert(!prefix_related(r1, r2));
        let cur = entries_get(p, k);
        let node = node_at(cur);
        let inner = inner_of(JsonV::Object(node));
        match cur {
            None => {
                crate::schema::json_schema::tree_roundtrip::lemma_fresh_node();
                crate::schema::json_schema::tree_roundtrip::lemma_path_ok_empty(r1);
                crate::schema::json_schema::tree_roundtrip::lemma_path_ok_empty(r2);
            },
            Some(n) => {},
        }
        assert(sorted_keys(node));
        assert(is_intermediate(JsonV::Object(node)));
        assert(path_ok(inner, r1));
        assert(path_ok(inner, r2));
        let i1 = insert_at_path(inner, r1, l1);
        let i2 = insert_at_path(inner, r2, l2);
        let n1 = entries_insert(node, "properties"@, JsonV::Object(i1));
        let n2 = entries_insert(node, "properties"@, JsonV::Object(i2));
        crate::schema::json_schema::tree_roundtrip::lemma_node_update(node, i1);
        crate::schema::json_schema::tree_roundtrip::lemma_node_update(node, i2);
        crate::keyed::lemma_get_insert(p, k, JsonV::Object(n1), k);
        crate::keyed::lemma_get_insert(p, k, JsonV::Object(n2), k);
        assert(node_at(entries_get(a, k)) == n1);
        assert(node_at(entries_get(b, k)) == n2);
        let i12 = insert_at_path(i1, r2, l2);
        let i21 = insert_at_path(i2, r1, l1);
        lemma_insert_at_path_commute(inner, r1, l1, r2, l2);
        assert(i12 == i21);
        crate::keyed::lemma_insert_overwrite(node, "properties"@, JsonV::Object(i1), JsonV::Object(i12));
        crate::keyed::lemma_insert_overwrite(node, "properties"@, JsonV::Object(i2), JsonV::Object(i21));
        let v12 = JsonV::Object(entries_insert(n1, "properties"@, JsonV::Object(i12)));
        let v21 = JsonV::Object(entries_insert(n2, "properties"@, JsonV::Object(i21)));
        assert(v12 == v21);
        crate::keyed::lemma_insert_overwrite(p, k, JsonV::Object(n1), v12);
        crate::keyed::lemma_insert_overwrite(p, k, JsonV::Object(n2), v21);
    }
}

/// The fields' name paths are pairwise apart: no field's path begins
/// another's (so no two fields share a name).
pub open spec fn tree_paths(fs: Seq<TomlFieldV>) -> bool {
    forall|i: int, j: int|
        0 <= i < fs.len() && 0 <= j < fs.len() && i != j ==> !prefix_related(#[trigger] segments(fs[i]), #[trigger] segments(fs[j]))
}

/// The properties of fields whose paths are apart from `segs` leave that
/// path free.
proof fn lemma_path_ok_fields(fs: Seq<TomlFieldV>, segs: Seq<Seq<char>>)
    requires
        tree_paths(fs),
        segs.len() >= 1,
        forall|i: int| 0 <= i < fs.len() ==> !prefix_related(#[trigger] segments(fs[i]), segs),
    ensures
        path_ok(field_properties(fs), segs),
    decreases fs.len(),
{
    if fs.len() == 0 {
        crate::schema::json_schema::tree_roundtrip::lemma_path_ok_empty(segs);
    } else {
        let h = fs.drop_last();
        let y = fs.last();
        assert(tree_paths(h)) by {
            assert forall|i: int, j: int| 0 <= i < h.len() && 0 <= j < h.len() && i != j implies !prefix_related(
                #[trigger] segments(h[i]),
                #[trigger] segments(h[j]),
            ) by {
                assert(h[i] == fs[i] && h[j] == fs[j]);
            }
        }
        crate::schema::json_schema::tree_roundtrip::lemma_split_nonempty(y.name, Seq::empty());
        assert forall|i: int| 0 <= i < h.len() implies !prefix_related(#[trigger] segments(h[i]), segments(y)) by {
            assert(h[i] == fs[i]);
            assert(fs[fs.len() - 1] == y);
        }
        assert forall|i: int| 0 <= i < h.len() implies !prefix_related(#[trigger] segments(h[i]), segs) by {
            assert(h[i] == fs[i]);
        }
        lemma_path_ok_fields(h, segments(y));
        lemma_path_ok_fields(h, segs);
        assert(!prefix_related(segments(fs[fs.len() - 1]), segs));
        crate::schema::json_schema::tree_roundtrip::lemma_path_ok_kept(field_properties(h), segments(y), segs, field_subschema(y));
    }
}

/// Apart paths stay apart in a list with one field removed.
proof fn lemma_tree_paths_remove(fs: Seq<TomlFieldV>, i: int)
    requires
        tree_paths(fs),
        0 <= i < fs.len(),
    ensures
        tree_paths(fs.remove(i)),
        forall|j: int| 0 <= j < fs.remove(i).len() ==> !prefix_related(#[trigger] segments(fs.remove(i)[j]), segments(fs[i])),
{
    let r = fs.remove(i);
    assert forall|a: int, b: int| 0 <= a < r.len() && 0 <= b < r.len() && a != b implies !prefix_related(
        #[trigger] segments(r[a]),
        #[trigger] segments(r[b]),
    ) by {
        let ia = if a < i { a } else { a + 1 };
        let ib = if b < i { b } else { b + 1 };
        assert(r[a] == fs[ia] && r[b] == fs[ib]);
    }
    assert forall|j: int| 0 <= j < r.len() implies !prefix_related(#[trigger] segments(r[j]), segments(fs[i])) by {
        let ij = if j < i { j } else { j + 1 };
        assert(r[j] == fs[ij]);
    }
}

/// Moving one field to the end does not change the properties.
proof fn lemma_field_properties_move(fs: Seq<TomlFieldV>, i: int)
    requires
        tree_paths(fs),
        0 <= i < fs.len(),
    ensures
        field_properties(fs) == field_properties(fs.remove(i).push(fs[i])),
    decreases fs.len(),
{
    let x = fs[i];
    if i == fs.len() - 1 {
        assert(fs.remove(i).push(x) =~= fs);
    } else {
        let h = fs.drop_last();
        let y = fs.last();
        assert(tree_paths(h)) by {
            assert forall|a: int, b: int| 0 <= a < h.len() && 0 <= b < h.len() && a != b implies !prefix_related(
                #[trigger] segments(h[a]),
                #[trigger] segments(h[b]),
            ) by {
                assert(h[a] == fs[a] && h[b] == fs[b]);
            }
        }
        assert(h[i] == x);
        lemma_field_properties_move(h, i);
        let hr = h.remove(i);
        assert(h.remove(i).push(x).drop_last() =~= hr);
        assert(h.remove(i).push(x).last() == x);
        assert(fs.drop_last() == h);
        // the rest, with `x` and `y`, has apart paths
        lemma_tree_paths_remove(h, i);
        let ly = fs.len() - 1;
        crate::schema::json_schema::tree_roundtrip::lemma_split_nonempty(x.name, Seq::empty());
        crate::schema::json_schema::tree_roundtrip::lemma_split_nonempty(y.name, Seq::empty());
        assert forall|j: int| 0 <= j < hr.len() implies !prefix_related(#[trigger] segments(hr[j]), segments(y)) by {
            let ij = if j < i { j } else { j + 1 };
            assert(hr[j] == h[ij]);
            assert(h[ij] == fs[ij]);
            assert(fs[ly] == y);
        }
        assert(!prefix_related(segments(fs[i]), segments(fs[ly])));
        lemma_path_ok_fields(hr, segments(x));
        lemma_path_ok_fields(hr, segments(y));
        lemma_insert_at_path_commute(field_properties(hr), segments(x), field_subschema(x), segments(y), field_subschema(y));
        assert(hr.push(y).drop_last() =~= hr);
        assert(hr.push(y).last() == y);
        assert(hr.push(y) =~= fs.remove(i));
        assert(fs.remove(i).push(x).drop_last() =~= fs.remove(i));
        assert(fs.remove(i).push(x).last() == x);
        assert(field_properties(fs) == insert_at_path(field_properties(h), segments(y), field_subschema(y)));
        assert(field_properties(hr.push(x)) == insert_at_path(field_properties(hr), segments(x), field_subschema(x)));
        assert(field_properties(hr.push(y)) == insert_at_path(field_properties(hr), segments(y), field_subschema(y)));
        assert(field_properties(fs.remove(i).push(x)) == insert_at_path(field_properties(fs.remove(i)), segments(x), field_subschema(x)));
    }
}

/// Fields with apart paths give the same properties in any order.
proof fn lemma_field_properties_perm(fs: Seq<TomlFieldV>, gs: Seq<TomlFieldV>)
    requires
        tree_paths(fs),
        tree_paths(gs),
        fs.to_multiset() == gs.to_multiset(),
    ensures
        field_properties(fs) == field_properties(gs),
    decreases gs.len(),
{
    broadcast use vstd::seq_lib::group_to_multiset_ensures;
    broadcast use vstd::multiset::group_multiset_axioms;
    assert(fs.len() == fs.to_multiset().len());
    assert(gs.len() == gs.to_multiset().len());
    if gs.len() == 0 {
        assert(fs.len() == 0);
        assert(fs =~= gs);
    } else {
        let x = gs.last();
        assert(gs.contains(x)) by {
            assert(gs[gs.len() - 1] == x);
        }
        assert(gs.to_multiset().count(x) > 0);
        assert(fs.contains(x));
        let i = choose|i: int| 0 <= i < fs.len() && #[trigger] fs[i] == x;
        lemma_field_properties_move(fs, i);
        let fr = fs.remove(i);
        let gr = gs.drop_last();
        assert(gr =~= gs.remove(gs.len() - 1));
        assert(fr.to_multiset() == fs.to_multiset().remove(x));
        assert(gr.to_multiset() == gs.to_multiset().remove(x));
        lemma_tree_paths_remove(fs, i);
        lemma_tree_paths_remove(gs, gs.len() - 1);
        lemma_field_properties_perm(fr, gr);
        assert(fr.push(x).drop_last() =~= fr);
        assert(fr.push(x).last() == x);
    }
}

/// What a lookup finds after the ignored names are added: an empty schema
/// under each ignored name, and otherwise what was there.
proof fn lemma_ignore_properties_get(props: Members, ignore: Seq<Seq<char>>)
    requires
        sorted_keys(props),
    ensures
        sorted_keys(ignore_properties(props, ignore)),
        forall|k: Seq<char>| #[trigger] entries_get(ignore_properties(props, ignore), k) == (if ignore.contains(k) {
            Some(JsonV::Object(Seq::empty()))
        } else {
            entries_get(props, k)
        }),
    decreases ignore.len(),
{
    if ignore.len() > 0 {
        let prev = ignore.drop_last();
        let n = ignore.last();
        lemma_ignore_properties_get(props, prev);
        let ip = ignore_properties(props, prev);
        crate::keyed::lemma_insert_sorted(ip, n, JsonV::Object(Seq::empty()));
        assert forall|k: Seq<char>| #[trigger] entries_get(ignore_properties(props, ignore), k) == (if ignore.contains(k) {
            Some(JsonV::Object(Seq::empty()))
        } else {
            entries_get(props, k)
        }) by {
            crate::keyed::lemma_get_insert(ip, n, JsonV::Object(Seq::empty()), k);
            if k == n {
                assert(ignore[ignore.len() - 1] == k);
            } else if prev.contains(k) {
                let j = choose|j: int| 0 <= j < prev.len() && #[trigger] prev[j] == k;
                assert(ignore[j] == k);
            } else if ignore.contains(k) {
                let j = choose|j: int| 0 <= j < ignore.len() && #[trigger] ignore[j] == k;
                assert(j < ignore.len() - 1);
                assert(prev[j] == k);
            }
        }
    }
}

/// The properties of any fields are in key order.
proof fn lemma_field_properties_sorted(fs: Seq<TomlFieldV>)
    ensures
        sorted_keys(field_properties(fs)),
    decreases fs.len(),
{
    if fs.len() > 0 {
        let h = fs.drop_last();
        let y = fs.last();
        lemma_field_properties_sorted(h);
        crate::schema::json_schema::tree_roundtrip::lemma_split_nonempty(y.name, Seq::empty());
        lemma_insert_at_path_top(field_properties(h), segments(y), field_subschema(y));
        crate::keyed::lemma_insert_sorted(
            field_properties(h),
            segments(y)[0],
            placed(entries_get(field_properties(h), segments(y)[0]), segments(y), field_subschema(y)),
        );
    }
}

/// Order does not matter: two configurations that define the same fields
/// (whose name paths are apart: no field's dotted path begins another's),
/// in whatever order, and that ignore the same names, in whatever order
/// and however often, have the same canonical schema (and so the same
/// schema hash).
pub proof fn lemma_canonical_order(f1: Seq<TomlFieldV>, i1: Seq<Seq<char>>, f2: Seq<TomlFieldV>, i2: Seq<Seq<char>>)
    requires
        tree_paths(f1),
        tree_paths(f2),
        f1.to_multiset() == f2.to_multiset(),
        forall|k: Seq<char>| i1.contains(k) <==> i2.contains(k),
    ensures
        canonical(f1, i1) == canonical(f2, i2),
{
    lemma_field_properties_perm(f1, f2);
    let fp = field_properties(f1);
    lemma_field_properties_sorted(f1);
    lemma_ignore_properties_get(fp, i1);
    lemma_ignore_properties_get(fp, i2);
    let a = ignore_properties(fp, i1);
    let b = ignore_properties(fp, i2);
    assert forall|k: Seq<char>| #[trigger] entries_get(a, k) == entries_get(b, k) by {
        assert(i1.contains(k) <==> i2.contains(k));
    }
    crate::keyed::lemma_sorted_ext(a, b);
}

} // verus!
