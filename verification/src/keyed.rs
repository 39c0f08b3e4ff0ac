//! Entries kept in key order, as a `BTreeMap<String, _>` keeps them: keys
//! compare character by character (which for UTF-8 is the byte order).

use vstd::prelude::*;
use crate::text::chars_of;

verus! {

/// Whether `a` sorts strictly before `b`.
pub open spec fn seq_lt(a: Seq<char>, b: Seq<char>) -> bool
    decreases a.len(),
{
    if a.len() == 0 {
        b.len() > 0
    } else if b.len() == 0 {
        false
    } else if a[0] != b[0] {
        (a[0] as u32) < (b[0] as u32)
    } else {
        seq_lt(a.drop_first(), b.drop_first())
    }
}

/// Whether `a` sorts strictly before `b`.
pub fn str_lt(a: &str, b: &str) -> (r: bool)
    ensures
        r == seq_lt(a@, b@),
{
    let va = chars_of(a);
    let vb = chars_of(b);
    let mut i: usize = 0;
    assert(a@.skip(0) =~= a@);
    assert(b@.skip(0) =~= b@);
    while i < va.len() && i < vb.len() && va[i] == vb[i]
        invariant
            va@ == a@,
            vb@ == b@,
            i <= va@.len(),
            i <= vb@.len(),
            seq_lt(a@, b@) == seq_lt(a@.skip(i as int), b@.skip(i as int)),
        decreases va@.len() - i,
    {
        assert(a@.skip(i as int).drop_first() =~= a@.skip(i + 1));
        assert(b@.skip(i as int).drop_first() =~= b@.skip(i + 1));
        i = i + 1;
    }
    if i < va.len() && i < vb.len() {
        assert(a@.skip(i as int)[0] == va@[i as int]);
        assert(b@.skip(i as int)[0] == vb@[i as int]);
        (va[i] as u32) < (vb[i] as u32)
    } else {
        i >= va.len() && i < vb.len()
    }
}

/// The keys of exec entries.
pub open spec fn keys_of<T>(e: Seq<(String, T)>) -> Seq<Seq<char>> {
    Seq::new(e.len(), |i: int| e[i].0@)
}

/// The keys of modelled entries.
pub open spec fn keys_of_view<V>(e: Seq<(Seq<char>, V)>) -> Seq<Seq<char>> {
    Seq::new(e.len(), |i: int| e[i].0)
}

/// The first position from `j` on whose key does not sort before `k`.
pub open spec fn pos_from(keys: Seq<Seq<char>>, k: Seq<char>, j: int) -> int
    decreases keys.len() - j,
{
    if j < 0 || j >= keys.len() {
        keys.len() as int
    } else if !seq_lt(keys[j], k) {
        j
    } else {
        pos_from(keys, k, j + 1)
    }
}

/// Where `k` is, or would go, among sorted `keys`.
pub open spec fn key_pos(keys: Seq<Seq<char>>, k: Seq<char>) -> int {
    pos_from(keys, k, 0)
}

/// Whether `k` is at [`key_pos`].
pub open spec fn key_found(keys: Seq<Seq<char>>, k: Seq<char>) -> bool {
    key_pos(keys, k) < keys.len() && keys[key_pos(keys, k)] == k
}

pub proof fn lemma_pos_from_bounds(keys: Seq<Seq<char>>, k: Seq<char>, j: int)
    requires
        0 <= j,
    ensures
        j <= pos_from(keys, k, j) <= keys.len() || (j > keys.len() && pos_from(keys, k, j) == keys.len()),
    decreases keys.len() - j,
{
    if j < keys.len() && seq_lt(keys[j], k) {
        lemma_pos_from_bounds(keys, k, j + 1);
    }
}

/// `entries` with `k` mapped to `v`: replaced in place when present, else
/// inserted at its key position.
pub open spec fn entries_insert<V>(e: Seq<(Seq<char>, V)>, k: Seq<char>, v: V) -> Seq<
    (Seq<char>, V),
> {
    let keys = keys_of_view(e);
    if key_found(keys, k) {
        e.update(key_pos(keys, k), (k, v))
    } else {
        e.insert(key_pos(keys, k), (k, v))
    }
}

/// The value of the first entry with key `k`, from `j` on.
pub open spec fn get_from<V>(e: Seq<(Seq<char>, V)>, k: Seq<char>, j: int) -> Option<V>
    decreases e.len() - j,
{
    if j < 0 || j >= e.len() {
        None
    } else if e[j].0 == k {
        Some(e[j].1)
    } else {
        get_from(e, k, j + 1)
    }
}

/// The value of the first entry with key `k`.
pub open spec fn entries_get<V>(e: Seq<(Seq<char>, V)>, k: Seq<char>) -> Option<V> {
    get_from(e, k, 0)
}

/// Where `k` is, or would go, among the entries, and whether it is there.
pub fn key_position<T>(e: &Vec<(String, T)>, k: &str) -> (r: (usize, bool))
    ensures
        r.0 == key_pos(keys_of(e@), k@),
        r.0 <= e@.len(),
        r.1 == key_found(keys_of(e@), k@),
{
    let ghost keys = keys_of(e@);
    let mut i: usize = 0;
    while i < e.len() && str_lt(e[i].0.as_str(), k)
        invariant
            i <= e@.len(),
            keys == keys_of(e@),
            key_pos(keys, k@) == pos_from(keys, k@, i as int),
        decreases e@.len() - i,
    {
        i = i + 1;
    }
    proof {
        lemma_pos_from_bounds(keys, k@, i as int);
    }
    if i < e.len() {
        let found = crate::text::str_eq(e[i].0.as_str(), k);
        (i, found)
    } else {
        (i, false)
    }
}

/// Index of the first entry with key `k`, if any.
pub fn find_key<T>(e: &Vec<(String, T)>, k: &str) -> (r: Option<usize>)
    ensures
        match r {
            Some(i) => i < e@.len() && e@[i as int].0@ == k@ && (forall|j: int|
                0 <= j < i ==> #[trigger] e@[j].0@ != k@),
            None => forall|j: int| 0 <= j < e@.len() ==> #[trigger] e@[j].0@ != k@,
        },
{
    let mut i: usize = 0;
    while i < e.len()
        invariant
            i <= e@.len(),
            forall|j: int| 0 <= j < i ==> #[trigger] e@[j].0@ != k@,
        decreases e@.len() - i,
    {
        if crate::text::str_eq(e[i].0.as_str(), k) {
            return Some(i);
        }
        i = i + 1;
    }
    None
}

/// `get_from` finds the first matching entry.
pub proof fn lemma_get_first<V>(e: Seq<(Seq<char>, V)>, k: Seq<char>, i: int)
    requires
        0 <= i < e.len(),
        e[i].0 == k,
        forall|j: int| 0 <= j < i ==> #[trigger] e[j].0 != k,
    ensures
        entries_get(e, k) == Some(e[i].1),
{
    lemma_get_skip(e, k, 0, i);
}

proof fn lemma_get_skip<V>(e: Seq<(Seq<char>, V)>, k: Seq<char>, j: int, i: int)
    requires
        0 <= j <= i < e.len(),
        e[i].0 == k,
        forall|m: int| 0 <= m < i ==> #[trigger] e[m].0 != k,
    ensures
        get_from(e, k, j) == Some(e[i].1),
    decreases i - j,
{
    if j < i {
        lemma_get_skip(e, k, j + 1, i);
    }
}

/// With no matching entry, `entries_get` finds nothing.
pub proof fn lemma_get_none<V>(e: Seq<(Seq<char>, V)>, k: Seq<char>)
    requires
        forall|j: int| 0 <= j < e.len() ==> #[trigger] e[j].0 != k,
    ensures
        entries_get(e, k) is None,
{
    lemma_get_none_from(e, k, 0);
}

proof fn lemma_get_none_from<V>(e: Seq<(Seq<char>, V)>, k: Seq<char>, j: int)
    requires
        0 <= j,
        forall|m: int| 0 <= m < e.len() ==> #[trigger] e[m].0 != k,
    ensures
        get_from(e, k, j) is None,
    decreases e.len() - j,
{
    if j < e.len() {
        lemma_get_none_from(e, k, j + 1);
    }
}

/// No key sorts before itself.
pub proof fn lemma_seq_lt_irreflexive(a: Seq<char>)
    ensures
        !seq_lt(a, a),
    decreases a.len(),
{
    if a.len() > 0 {
        lemma_seq_lt_irreflexive(a.drop_first());
    }
}

/// Keys before the position of `k` are not `k`.
proof fn lemma_before_pos<V>(e: Seq<(Seq<char>, V)>, k: Seq<char>, j: int, i: int)
    requires
        0 <= j <= i < pos_from(keys_of_view(e), k, j),
        i < e.len(),
    ensures
        e[i].0 != k,
    decreases i - j,
{
    let keys = keys_of_view(e);
    if j < i {
        lemma_before_pos(e, k, j + 1, i);
    } else {
        lemma_seq_lt_irreflexive(k);
        assert(seq_lt(keys[j], k));
    }
}

/// What a lookup finds after an insertion: the inserted value under its
/// key, and otherwise what it found before.
pub proof fn lemma_get_insert<V>(e: Seq<(Seq<char>, V)>, k: Seq<char>, v: V, k2: Seq<char>)
    ensures
        entries_get(entries_insert(e, k, v), k2) == (if k2 == k {
            Some(v)
        } else {
            entries_get(e, k2)
        }),
{
    let keys = keys_of_view(e);
    let p = key_pos(keys, k);
    lemma_pos_from_bounds(keys, k, 0);
    let n = entries_insert(e, k, v);
    assert forall|i: int| 0 <= i < p && i < e.len() implies e[i].0 != k by {
        lemma_before_pos(e, k, 0, i);
    }
    if k2 == k {
        if key_found(keys, k) {
            assert(n[p].0 == k);
            assert forall|j: int| 0 <= j < p implies #[trigger] n[j].0 != k2 by {
                assert(n[j] == e[j]);
            }
            lemma_get_first(n, k2, p);
        } else {
            assert(n[p] == (k, v));
            assert forall|j: int| 0 <= j < p implies #[trigger] n[j].0 != k2 by {
                assert(n[j] == e[j]);
            }
            lemma_get_first(n, k2, p);
        }
    } else {
        if key_found(keys, k) {
            lemma_get_update_other(e, p, (k, v), k2, 0);
        } else {
            lemma_get_insert_other(e, p, (k, v), k2, 0);
        }
    }
}

/// Replacing an entry by one with the same key leaves the lookups of other
/// keys as they were.
proof fn lemma_get_update_other<V>(e: Seq<(Seq<char>, V)>, p: int, x: (Seq<char>, V), k2: Seq<char>, j: int)
    requires
        0 <= p < e.len(),
        e[p].0 == x.0,
        x.0 != k2,
        0 <= j,
    ensures
        get_from(e.update(p, x), k2, j) == get_from(e, k2, j),
    decreases e.len() - j,
{
    if j < e.len() {
        lemma_get_update_other(e, p, x, k2, j + 1);
    }
}

/// Inserting an entry with another key leaves the lookups of `k2` as they
/// were.
proof fn lemma_get_insert_other<V>(e: Seq<(Seq<char>, V)>, p: int, x: (Seq<char>, V), k2: Seq<char>, j: int)
    requires
        0 <= j <= p <= e.len(),
        x.0 != k2,
    ensures
        get_from(e.insert(p, x), k2, j) == get_from(e, k2, j),
    decreases e.len() + 1 - j,
{
    if j < p {
        lemma_get_insert_other(e, p, x, k2, j + 1);
    } else {
        lemma_get_insert_shifted(e, p, x, k2, p);
    }
}

proof fn lemma_get_insert_shifted<V>(e: Seq<(Seq<char>, V)>, p: int, x: (Seq<char>, V), k2: Seq<char>, i: int)
    requires
        0 <= p <= i <= e.len(),
        x.0 != k2,
    ensures
        get_from(e.insert(p, x), k2, i + 1) == get_from(e, k2, i),
        i == p ==> get_from(e.insert(p, x), k2, p) == get_from(e, k2, p),
    decreases e.len() - i,
{
    if i < e.len() {
        lemma_get_insert_shifted(e, p, x, k2, i + 1);
    }
}

/// `seq_lt` is transitive.
pub proof fn lemma_seq_lt_transitive(a: Seq<char>, b: Seq<char>, c: Seq<char>)
    requires
        seq_lt(a, b),
        seq_lt(b, c),
    ensures
        seq_lt(a, c),
    decreases a.len(),
{
    if a.len() > 0 && b.len() > 0 && c.len() > 0 && a[0] == b[0] && b[0] == c[0] {
        lemma_seq_lt_transitive(a.drop_first(), b.drop_first(), c.drop_first());
    }
}

/// Two different keys are ordered one way or the other.
pub proof fn lemma_seq_lt_total(a: Seq<char>, b: Seq<char>)
    requires
        a != b,
    ensures
        seq_lt(a, b) || seq_lt(b, a),
    decreases a.len(),
{
    if a.len() == 0 || b.len() == 0 {
        if a.len() == 0 && b.len() == 0 {
            assert(a =~= b);
        }
    } else if a[0] != b[0] {
        vstd::utf8::char_u32_cast(a[0], a[0] as u32);
        vstd::utf8::char_u32_cast(b[0], b[0] as u32);
        assert((a[0] as u32) != (b[0] as u32));
    } else {
        if a.drop_first() =~= b.drop_first() {
            assert(a =~= seq![a[0]] + a.drop_first());
            assert(b =~= seq![b[0]] + b.drop_first());
        } else {
            lemma_seq_lt_total(a.drop_first(), b.drop_first());
        }
    }
}

/// Where the search for a key's position stops, the key there does not
/// sort before it.
proof fn lemma_pos_stops(keys: Seq<Seq<char>>, k: Seq<char>, j: int)
    requires
        0 <= j,
        pos_from(keys, k, j) < keys.len(),
    ensures
        !seq_lt(keys[pos_from(keys, k, j)], k),
    decreases keys.len() - j,
{
    if j < keys.len() && seq_lt(keys[j], k) {
        lemma_pos_stops(keys, k, j + 1);
    }
}

/// The search for a key's position runs past every key that sorts before it.
proof fn lemma_pos_past_all(keys: Seq<Seq<char>>, k: Seq<char>, j: int)
    requires
        0 <= j,
        forall|i: int| j <= i < keys.len() ==> seq_lt(#[trigger] keys[i], k),
    ensures
        pos_from(keys, k, j) == keys.len(),
    decreases keys.len() - j,
{
    if j < keys.len() {
        assert(seq_lt(keys[j], k));
        lemma_pos_past_all(keys, k, j + 1);
    }
}

/// A key that sorts after every key of the entries goes at the end.
pub proof fn lemma_insert_last<V>(e: Seq<(Seq<char>, V)>, k: Seq<char>, v: V)
    requires
        forall|i: int| 0 <= i < e.len() ==> seq_lt(#[trigger] e[i].0, k),
    ensures
        entries_insert(e, k, v) == e.push((k, v)),
{
    let keys = keys_of_view(e);
    assert forall|i: int| 0 <= i < keys.len() implies seq_lt(#[trigger] keys[i], k) by {
        assert(keys[i] == e[i].0);
    }
    lemma_pos_past_all(keys, k, 0);
    assert(e.insert(e.len() as int, (k, v)) =~= e.push((k, v)));
}

/// Keys in strictly increasing order.
pub open spec fn sorted_keys<V>(e: Seq<(Seq<char>, V)>) -> bool {
    forall|i: int, j: int| 0 <= i < j < e.len() ==> seq_lt(#[trigger] e[i].0, #[trigger] e[j].0)
}

/// In sorted entries, the position of a key that is present holds it, and
/// a lookup finds it there.
pub proof fn lemma_sorted_present<V>(e: Seq<(Seq<char>, V)>, k: Seq<char>, i: int)
    requires
        sorted_keys(e),
        0 <= i < e.len(),
        e[i].0 == k,
    ensures
        key_pos(keys_of_view(e), k) == i,
        key_found(keys_of_view(e), k),
        entries_get(e, k) == Some(e[i].1),
{
    let keys = keys_of_view(e);
    lemma_seq_lt_irreflexive(k);
    assert forall|j: int| 0 <= j < i implies #[trigger] e[j].0 != k by {
        assert(seq_lt(e[j].0, e[i].0));
    }
    lemma_pos_present(keys, k, 0, i, e);
    lemma_get_first(e, k, i);
}

proof fn lemma_pos_present<V>(keys: Seq<Seq<char>>, k: Seq<char>, j: int, i: int, e: Seq<(Seq<char>, V)>)
    requires
        keys == keys_of_view(e),
        sorted_keys(e),
        0 <= j <= i < e.len(),
        e[i].0 == k,
    ensures
        pos_from(keys, k, j) == i,
    decreases i - j,
{
    lemma_seq_lt_irreflexive(k);
    if j < i {
        assert(seq_lt(e[j].0, e[i].0));
        lemma_pos_present(keys, k, j + 1, i, e);
    }
}

/// Inserting into sorted entries keeps them sorted.
pub proof fn lemma_insert_sorted<V>(e: Seq<(Seq<char>, V)>, k: Seq<char>, v: V)
    requires
        sorted_keys(e),
    ensures
        sorted_keys(entries_insert(e, k, v)),
{
    let keys = keys_of_view(e);
    let p = key_pos(keys, k);
    lemma_pos_from_bounds(keys, k, 0);
    let n = entries_insert(e, k, v);
    assert forall|i: int| 0 <= i < p && i < e.len() implies seq_lt(#[trigger] e[i].0, k) by {
        lemma_pos_before(keys, k, 0, i);
    }
    if key_found(keys, k) {
        assert forall|i: int, j: int| 0 <= i < j < n.len() implies seq_lt(#[trigger] n[i].0, #[trigger] n[j].0) by {
            assert(n[i].0 == e[i].0);
            assert(n[j].0 == e[j].0);
        }
    } else {
        if p < e.len() {
            lemma_pos_stops(keys, k, 0);
            assert(!seq_lt(e[p].0, k));
            assert(e[p].0 != k);
            lemma_seq_lt_total(e[p].0, k);
        }
        assert forall|i: int, j: int| 0 <= i < j < n.len() implies seq_lt(#[trigger] n[i].0, #[trigger] n[j].0) by {
            if j < p {
                assert(n[i] == e[i] && n[j] == e[j]);
            } else if j == p {
                assert(n[i] == e[i]);
            } else if i < p {
                assert(n[i] == e[i] && n[j] == e[j - 1]);
                if p < e.len() {
                    if j - 1 > p {
                        assert(seq_lt(e[p].0, e[j - 1].0));
                        lemma_seq_lt_transitive(k, e[p].0, e[j - 1].0);
                    }
                    lemma_seq_lt_transitive(e[i].0, k, e[j - 1].0);
                }
            } else if i == p {
                assert(n[j] == e[j - 1]);
                if j - 1 > p {
                    assert(seq_lt(e[p].0, e[j - 1].0));
                    lemma_seq_lt_transitive(k, e[p].0, e[j - 1].0);
                }
            } else {
                assert(n[i] == e[i - 1] && n[j] == e[j - 1]);
            }
        }
    }
}

proof fn lemma_pos_before(keys: Seq<Seq<char>>, k: Seq<char>, j: int, i: int)
    requires
        0 <= j <= i < pos_from(keys, k, j),
        i < keys.len(),
    ensures
        seq_lt(keys[i], k),
    decreases i - j,
{
    if j < i {
        lemma_pos_before(keys, k, j + 1, i);
    }
}

/// A lookup that finds a value finds one of the entries.
pub proof fn lemma_get_member<V>(e: Seq<(Seq<char>, V)>, k: Seq<char>, j: int)
    requires
        0 <= j,
        get_from(e, k, j) is Some,
    ensures
        exists|i: int| j <= i < e.len() && #[trigger] e[i] == (k, get_from(e, k, j)->0),
    decreases e.len() - j,
{
    if j < e.len() && e[j].0 != k {
        lemma_get_member(e, k, j + 1);
    }
}

/// Looking past the first entry is looking in the rest.
proof fn lemma_get_from_rest<V>(e: Seq<(Seq<char>, V)>, k: Seq<char>, j: int)
    requires
        0 <= j,
        e.len() > 0,
    ensures
        get_from(e, k, j + 1) == get_from(e.drop_first(), k, j),
    decreases e.len() - j,
{
    if j + 1 < e.len() {
        assert(e.drop_first()[j] == e[j + 1]);
        lemma_get_from_rest(e, k, j + 1);
    }
}

/// Entries in key order are determined by what their lookups find.
pub proof fn lemma_sorted_ext<V>(a: Seq<(Seq<char>, V)>, b: Seq<(Seq<char>, V)>)
    requires
        sorted_keys(a),
        sorted_keys(b),
        forall|k: Seq<char>| #[trigger] entries_get(a, k) == entries_get(b, k),
    ensures
        a == b,
    decreases a.len() + b.len(),
{
    if a.len() == 0 || b.len() == 0 {
        if a.len() > 0 {
            lemma_sorted_present(a, a[0].0, 0);
            lemma_get_none(b, a[0].0);
            assert(entries_get(a, a[0].0) == entries_get(b, a[0].0));
        }
        if b.len() > 0 {
            lemma_sorted_present(b, b[0].0, 0);
            lemma_get_none(a, b[0].0);
            assert(entries_get(a, b[0].0) == entries_get(b, b[0].0));
        }
        assert(a =~= b);
    } else {
        let ka = a[0].0;
        let kb = b[0].0;
        lemma_sorted_present(a, ka, 0);
        lemma_sorted_present(b, kb, 0);
        assert(entries_get(a, ka) == entries_get(b, ka));
        assert(entries_get(a, kb) == entries_get(b, kb));
        lemma_get_member(b, ka, 0);
        lemma_get_member(a, kb, 0);
        let j = choose|j: int| 0 <= j < b.len() && #[trigger] b[j] == (ka, get_from(b, ka, 0)->0);
        let i = choose|i: int| 0 <= i < a.len() && #[trigger] a[i] == (kb, get_from(a, kb, 0)->0);
        lemma_seq_lt_irreflexive(ka);
        if j > 0 {
            assert(seq_lt(b[0].0, b[j].0));
            if i > 0 {
                assert(seq_lt(a[0].0, a[i].0));
                lemma_seq_lt_transitive(ka, kb, ka);
            }
        }
        assert(j == 0);
        assert(a[0] == b[0]);
        let a2 = a.drop_first();
        let b2 = b.drop_first();
        assert forall|k: Seq<char>| #[trigger] entries_get(a2, k) == entries_get(b2, k) by {
            lemma_get_from_rest(a, k, 0);
            lemma_get_from_rest(b, k, 0);
            if k == ka {
                assert forall|m: int| 0 <= m < a2.len() implies #[trigger] a2[m].0 != k by {
                    assert(seq_lt(a[0].0, a[m + 1].0));
                }
                assert forall|m: int| 0 <= m < b2.len() implies #[trigger] b2[m].0 != k by {
                    assert(seq_lt(b[0].0, b[m + 1].0));
                }
                lemma_get_none(a2, k);
                lemma_get_none(b2, k);
            } else {
                assert(entries_get(a, k) == entries_get(b, k));
            }
        }
        assert(sorted_keys(a2)) by {
            assert forall|x: int, y: int| 0 <= x < y < a2.len() implies seq_lt(#[trigger] a2[x].0, #[trigger] a2[y].0) by {
                assert(seq_lt(a[x + 1].0, a[y + 1].0));
            }
        }
        assert(sorted_keys(b2)) by {
            assert forall|x: int, y: int| 0 <= x < y < b2.len() implies seq_lt(#[trigger] b2[x].0, #[trigger] b2[y].0) by {
                assert(seq_lt(b[x + 1].0, b[y + 1].0));
            }
        }
        lemma_sorted_ext(a2, b2);
        assert(a =~= seq![a[0]] + a2);
        assert(b =~= seq![b[0]] + b2);
    }
}

/// Two insertions under different keys into sorted entries commute.
pub proof fn lemma_insert_commute<V>(e: Seq<(Seq<char>, V)>, k1: Seq<char>, v1: V, k2: Seq<char>, v2: V)
    requires
        sorted_keys(e),
        k1 != k2,
    ensures
        entries_insert(entries_insert(e, k1, v1), k2, v2) == entries_insert(entries_insert(e, k2, v2), k1, v1),
{
    let a = entries_insert(entries_insert(e, k1, v1), k2, v2);
    let b = entries_insert(entries_insert(e, k2, v2), k1, v1);
    lemma_insert_sorted(e, k1, v1);
    lemma_insert_sorted(e, k2, v2);
    lemma_insert_sorted(entries_insert(e, k1, v1), k2, v2);
    lemma_insert_sorted(entries_insert(e, k2, v2), k1, v1);
    assert forall|k: Seq<char>| #[trigger] entries_get(a, k) == entries_get(b, k) by {
        lemma_get_insert(entries_insert(e, k1, v1), k2, v2, k);
        lemma_get_insert(e, k1, v1, k);
        lemma_get_insert(entries_insert(e, k2, v2), k1, v1, k);
        lemma_get_insert(e, k2, v2, k);
    }
    lemma_sorted_ext(a, b);
}

/// A second insertion under the same key replaces the first.
pub proof fn lemma_insert_overwrite<V>(e: Seq<(Seq<char>, V)>, k: Seq<char>, v1: V, v2: V)
    requires
        sorted_keys(e),
    ensures
        entries_insert(entries_insert(e, k, v1), k, v2) == entries_insert(e, k, v2),
{
    let a = entries_insert(entries_insert(e, k, v1), k, v2);
    let b = entries_insert(e, k, v2);
    lemma_insert_sorted(e, k, v1);
    lemma_insert_sorted(e, k, v2);
    lemma_insert_sorted(entries_insert(e, k, v1), k, v2);
    assert forall|k2: Seq<char>| #[trigger] entries_get(a, k2) == entries_get(b, k2) by {
        lemma_get_insert(entries_insert(e, k, v1), k, v2, k2);
        lemma_get_insert(e, k, v1, k2);
        lemma_get_insert(e, k, v2, k2);
    }
    lemma_sorted_ext(a, b);
}

} // verus!
