//! A translated `--where` clause is a fixed point of the translation: the
//! names it holds are already resolved, so translating it again gives it
//! back.

use vstd::prelude::*;
use crate::index::storage::COL_DATA;
use crate::index::where_clause::{
    alias_target, ascii_ci_eq, chain_end, data_dot, dot_from, first_segment, float_target, followed_by_paren,
    ident_char, ident_start, is_sql_keyword, lemma_chain_end, lemma_dot_from, lemma_next_ident, literal_at,
    lower_code, next_ident, next_literal, quoted_at, reserved_columns, resolve_name, rewrite_from,
    second_segment, space_end, spacing, sql_keywords, translated_where,
};

verus! {

/// A stretch of clause rewritten with no internal-column prefix and no
/// aliases.
pub open spec fn plain_rewrite(s: Seq<char>, i: int, children: Seq<Seq<char>>, floats: Seq<Seq<char>>) -> Result<
    Seq<char>,
    Seq<char>,
> {
    rewrite_from(s, i, children, floats, Seq::empty(), Seq::empty())
}

/// `u` from `j` on is `v` from `k` on.
pub open spec fn same_tail(u: Seq<char>, j: int, v: Seq<char>, k: int) -> bool {
    &&& 0 <= j <= u.len()
    &&& 0 <= k <= v.len()
    &&& u.skip(j) == v.skip(k)
}

/// Equal tails stay equal `n` characters further on.
proof fn lemma_tail_shift(u: Seq<char>, j: int, v: Seq<char>, k: int, n: int)
    requires
        same_tail(u, j, v, k),
        0 <= n <= u.len() - j,
    ensures
        same_tail(u, j + n, v, k + n),
        n < u.len() - j ==> u[j + n] == v[k + n],
{
    assert(u.skip(j).len() == v.skip(k).len());
    assert(u.skip(j + n) =~= u.skip(j).skip(n));
    assert(v.skip(k + n) =~= v.skip(k).skip(n));
    if n < u.len() - j {
        assert(u.skip(j)[n] == u[j + n]);
        assert(v.skip(k)[n] == v[k + n]);
    }
}

proof fn lemma_tail_next_ident(u: Seq<char>, j: int, v: Seq<char>, k: int)
    requires
        same_tail(u, j, v, k),
    ensures
        next_ident(u, j) - j == next_ident(v, k) - k,
    decreases u.len() - j,
{
    if j < u.len() {
        lemma_tail_shift(u, j, v, k, 0);
        lemma_tail_shift(u, j, v, k, 1);
        if !ident_start(u[j]) {
            lemma_tail_next_ident(u, j + 1, v, k + 1);
        }
    } else {
        assert(u.skip(j).len() == v.skip(k).len());
    }
}

proof fn lemma_tail_chain_end(u: Seq<char>, j: int, v: Seq<char>, k: int)
    requires
        same_tail(u, j, v, k),
    ensures
        chain_end(u, j) - j == chain_end(v, k) - k,
    decreases u.len() - j,
{
    assert(u.skip(j).len() == v.skip(k).len());
    if j < u.len() {
        lemma_tail_shift(u, j, v, k, 0);
        lemma_tail_shift(u, j, v, k, 1);
        if j + 1 < u.len() {
            lemma_tail_shift(u, j, v, k, 1);
            lemma_tail_shift(u, j + 1, v, k + 1, 0);
        }
        if ident_char(u[j]) || (j + 1 < u.len() && u[j] == '.' && ident_start(u[j + 1])) {
            lemma_tail_chain_end(u, j + 1, v, k + 1);
        }
    }
}

proof fn lemma_tail_space_end(u: Seq<char>, j: int, v: Seq<char>, k: int)
    requires
        same_tail(u, j, v, k),
    ensures
        space_end(u, j) - j == space_end(v, k) - k,
        space_end(u, j) < u.len() ==> u[space_end(u, j)] == v[space_end(v, k)],
    decreases u.len() - j,
{
    assert(u.skip(j).len() == v.skip(k).len());
    if j < u.len() {
        lemma_tail_shift(u, j, v, k, 0);
        lemma_tail_shift(u, j, v, k, 1);
        if spacing(u[j]) {
            lemma_tail_space_end(u, j + 1, v, k + 1);
        }
    }
}

/// A `(` after white space is seen alike in equal tails.
proof fn lemma_tail_paren(u: Seq<char>, j: int, v: Seq<char>, k: int)
    requires
        same_tail(u, j, v, k),
    ensures
        followed_by_paren(u, j) == followed_by_paren(v, k),
{
    assert(u.skip(j).len() == v.skip(k).len());
    lemma_tail_space_end(u, j, v, k);
    crate::index::where_clause::lemma_space_end(u, j);
    crate::index::where_clause::lemma_space_end(v, k);
}

proof fn lemma_tail_dot_from(u: Seq<char>, j: int, v: Seq<char>, k: int)
    requires
        same_tail(u, j, v, k),
    ensures
        dot_from(u, j) - j == dot_from(v, k) - k,
    decreases u.len() - j,
{
    assert(u.skip(j).len() == v.skip(k).len());
    if j < u.len() {
        lemma_tail_shift(u, j, v, k, 0);
        lemma_tail_shift(u, j, v, k, 1);
        if u[j] != '.' {
            lemma_tail_dot_from(u, j + 1, v, k + 1);
        }
    }
}

/// Rewriting looks ahead only: equal tails are rewritten alike.
proof fn lemma_tail_rewrite(u: Seq<char>, j: int, v: Seq<char>, k: int, ch: Seq<Seq<char>>, fl: Seq<Seq<char>>)
    requires
        same_tail(u, j, v, k),
    ensures
        plain_rewrite(u, j, ch, fl) == plain_rewrite(v, k, ch, fl),
    decreases u.len() - j,
{
    assert(u.skip(j).len() == v.skip(k).len());
    if j < u.len() {
        lemma_tail_next_ident(u, j, v, k);
        lemma_next_ident(u, j);
        lemma_next_ident(v, k);
        let pu = next_ident(u, j);
        let pv = next_ident(v, k);
        if pu >= u.len() {
            assert(u.subrange(j, u.len() as int) =~= u.skip(j));
            assert(v.subrange(k, v.len() as int) =~= v.skip(k));
        } else {
            lemma_tail_shift(u, j, v, k, pu + 1 - j);
            lemma_tail_chain_end(u, pu + 1, v, pv + 1);
            lemma_chain_end(u, pu + 1);
            lemma_chain_end(v, pv + 1);
            let eu = chain_end(u, pu + 1);
            let ev = chain_end(v, pv + 1);
            lemma_tail_shift(u, j, v, k, eu - j);
            lemma_tail_space_end(u, eu, v, ev);
            assert(u.subrange(pu, eu) =~= v.subrange(pv, ev)) by {
                assert forall|d: int| 0 <= d < eu - pu implies u.subrange(pu, eu)[d] == v.subrange(pv, ev)[d] by {
                    lemma_tail_shift(u, j, v, k, pu - j + d);
                }
            }
            assert(u.subrange(j, pu) =~= v.subrange(k, pv)) by {
                assert forall|d: int| 0 <= d < pu - j implies u.subrange(j, pu)[d] == v.subrange(k, pv)[d] by {
                    lemma_tail_shift(u, j, v, k, d);
                }
            }
            lemma_tail_paren(u, eu, v, ev);
            lemma_tail_rewrite(u, eu, v, ev, ch, fl);
        }
    } else {
        assert(k >= v.len());
    }
}

/// Whether position `j` continues a dotted name that ends at `e`: an
/// identifier character, or a dot before an identifier start.
pub open spec fn chain_step(s: Seq<char>, j: int, e: int) -> bool {
    ident_char(s[j]) || (s[j] == '.' && j + 1 < e && ident_start(s[j + 1]))
}

/// Whether a dotted name stops at `e`.
pub open spec fn chain_stop(s: Seq<char>, e: int) -> bool {
    e == s.len() || (!ident_char(s[e]) && !(s[e] == '.' && e + 1 < s.len() && ident_start(s[e + 1])))
}

/// What `chain_end` runs over, and where it stops.
proof fn lemma_chain_chars(s: Seq<char>, i: int)
    requires
        0 <= i <= s.len(),
    ensures
        forall|j: int| i <= j < chain_end(s, i) ==> #[trigger] chain_step(s, j, chain_end(s, i)),
        chain_stop(s, chain_end(s, i)),
    decreases s.len() - i,
{
    lemma_chain_end(s, i);
    if i < s.len() && ident_char(s[i]) {
        lemma_chain_chars(s, i + 1);
    } else if i + 1 < s.len() && s[i] == '.' && ident_start(s[i + 1]) {
        lemma_chain_chars(s, i + 1);
        lemma_chain_end(s, i + 2);
    }
}

/// A run of dotted-name steps that stops at `e` ends at `e`.
proof fn lemma_chain_end_is(s: Seq<char>, i: int, e: int)
    requires
        0 <= i <= e <= s.len(),
        forall|j: int| i <= j < e ==> #[trigger] chain_step(s, j, e),
        chain_stop(s, e),
    ensures
        chain_end(s, i) == e,
    decreases e - i,
{
    if i < e {
        assert(chain_step(s, i, e));
        lemma_chain_end_is(s, i + 1, e);
    }
}

/// The first identifier start, when the ones before are not.
proof fn lemma_next_ident_is(s: Seq<char>, i: int, m: int)
    requires
        0 <= i <= m <= s.len(),
        forall|j: int| i <= j < m ==> !ident_start(#[trigger] s[j]),
        m == s.len() || ident_start(s[m]),
    ensures
        next_ident(s, i) == m,
    decreases m - i,
{
    if i < m {
        lemma_next_ident_is(s, i + 1, m);
    }
}

/// Spaces are skipped alike over `n` equal characters that both texts
/// follow with an identifier start, or with their ends.
proof fn lemma_paren_agree(u: Seq<char>, j: int, v: Seq<char>, k: int, n: int)
    requires
        0 <= j,
        0 <= k,
        0 <= n,
        j + n <= u.len(),
        k + n <= v.len(),
        u.subrange(j, j + n) == v.subrange(k, k + n),
        (j + n == u.len() && k + n == v.len()) || (j + n < u.len() && k + n < v.len() && ident_start(u[j + n])
            && ident_start(v[k + n])),
    ensures
        followed_by_paren(u, j) == followed_by_paren(v, k),
        space_end(u, j) - j == space_end(v, k) - k,
    decreases n,
{
    if n > 0 {
        assert(u[j] == u.subrange(j, j + n)[0]);
        assert(v[k] == v.subrange(k, k + n)[0]);
        if spacing(u[j]) {
            assert(u.subrange(j + 1, j + n) =~= u.subrange(j, j + n).skip(1));
            assert(v.subrange(k + 1, k + n) =~= v.subrange(k, k + n).skip(1));
            lemma_paren_agree(u, j + 1, v, k + 1, n - 1);
        }
    }
}

/// The words that [`resolve_name`] keeps as SQL have no dot.
proof fn lemma_keyword_without_dot(w: Seq<char>)
    requires
        w.len() >= 5,
        w[4] == '.',
    ensures
        !is_sql_keyword(w),
{
    reveal_strlit("AND");
    reveal_strlit("OR");
    reveal_strlit("NOT");
    reveal_strlit("IN");
    reveal_strlit("IS");
    reveal_strlit("NULL");
    reveal_strlit("LIKE");
    reveal_strlit("BETWEEN");
    reveal_strlit("TRUE");
    reveal_strlit("FALSE");
    reveal_strlit("EXTRACT");
    reveal_strlit("DATE_PART");
    reveal_strlit("FROM");
    reveal_strlit("ARRAY_HAS");
    reveal_strlit("ARRAY_HAS_ANY");
    reveal_strlit("ARRAY_HAS_ALL");
    assert forall|k: int| 0 <= k < sql_keywords().len() implies !ascii_ci_eq(w, #[trigger] sql_keywords()[k]) by {
        let kw = sql_keywords()[k];
        if kw.len() == w.len() {
            assert(kw[4] != '.');
            assert(lower_code(w[4]) != lower_code(kw[4]));
        }
    }
}

/// What a name resolves to with no prefix and no aliases, when it
/// resolves: itself, or itself under `data.` when its first segment is
/// not an internal column, it is not a call or a keyword and no
/// `Array(Float)` field is named by it.
proof fn lemma_resolve_plain(chain: Seq<char>, call: bool, ch: Seq<Seq<char>>, fl: Seq<Seq<char>>)
    requires
        resolve_name(chain, call, ch, fl, Seq::empty(), Seq::empty()) is Ok,
    ensures
        resolve_name(chain, call, ch, fl, Seq::empty(), Seq::empty())->Ok_0 == chain
            || (resolve_name(chain, call, ch, fl, Seq::empty(), Seq::empty())->Ok_0 == data_dot() + chain
            && !reserved_columns().contains(first_segment(chain)) && float_target(chain, fl) is None),
{
    assert(alias_target(Seq::<(Seq<char>, Seq<char>)>::empty(), first_segment(chain), 0) is None);
}

/// `data.` before a name that is not an internal column and names no
/// `Array(Float)` field resolves to itself, when no frontmatter field is
/// called `data`.
proof fn lemma_resolve_data(chain: Seq<char>, call: bool, ch: Seq<Seq<char>>, fl: Seq<Seq<char>>)
    requires
        chain.len() > 0,
        !reserved_columns().contains(first_segment(chain)),
        float_target(chain, fl) is None,
        !ch.contains(COL_DATA@),
    ensures
        resolve_name(data_dot() + chain, call, ch, fl, Seq::empty(), Seq::empty()) == Ok::<Seq<char>, Seq<char>>(
            data_dot() + chain,
        ),
{
    let w = data_dot() + chain;
    reveal_strlit("data");
    assert(w[4] == '.');
    assert(w.contains('.'));
    lemma_keyword_without_dot(w);
    assert(alias_target(Seq::<(Seq<char>, Seq<char>)>::empty(), first_segment(w), 0) is None);
    lemma_dot_from(w, 0);
    assert(dot_from(w, 0) == 4) by {
        if dot_from(w, 0) > 4 {
            assert(w[4] != '.');
        }
        if dot_from(w, 0) < 4 {
            assert(w[dot_from(w, 0)] == '.');
        }
    }
    assert(first_segment(w) =~= COL_DATA@);
    assert(reserved_columns()[9] == COL_DATA@);
    assert(reserved_columns().contains(COL_DATA@));
    assert(w.skip(5) =~= chain.skip(0));
    lemma_tail_dot_from(w, 5, chain, 0);
    lemma_dot_from(chain, 0);
    assert(second_segment(w) == Some(first_segment(chain))) by {
        assert(w.subrange(5, dot_from(w, 5)) =~= chain.subrange(0, dot_from(chain, 0)));
    }
    assert(first_segment(chain) != COL_DATA@);
    assert(!fl.contains(first_segment(chain)));
}

/// What follows a dotted name in its rewritten stretch: the character it
/// stopped at comes first, it does not continue the name, and a `(` after
/// white space is seen as in the stretch itself.
proof fn lemma_rewrite_head(s: Seq<char>, e: int, ch: Seq<Seq<char>>, fl: Seq<Seq<char>>)
    requires
        0 <= e <= s.len(),
        chain_stop(s, e),
        plain_rewrite(s, e, ch, fl) is Ok,
    ensures
        ({
            let r = plain_rewrite(s, e, ch, fl)->Ok_0;
            &&& (r.len() == 0 <==> e == s.len())
            &&& chain_stop(r, 0)
            &&& followed_by_paren(r, 0) == followed_by_paren(s, e)
        }),
{
    let r = plain_rewrite(s, e, ch, fl)->Ok_0;
    if e < s.len() {
        lemma_next_ident(s, e);
        let p2 = next_ident(s, e);
        if p2 >= s.len() {
            assert(r == s.subrange(e, s.len() as int));
            assert(r =~= s.skip(e));
            assert(r.skip(0) =~= r);
            lemma_tail_paren(r, 0, s, e);
            assert(r[0] == s[e]);
            if s.len() > e + 1 {
                assert(r[1] == s[e + 1]);
            }
        } else {
            lemma_chain_end(s, p2 + 1);
            let e2 = chain_end(s, p2 + 1);
            let chain2 = s.subrange(p2, e2);
            let call2 = followed_by_paren(s, e2);
            lemma_resolve_plain(chain2, call2, ch, fl);
            let res2 = resolve_name(chain2, call2, ch, fl, Seq::empty(), Seq::empty())->Ok_0;
            let rest = plain_rewrite(s, e2, ch, fl)->Ok_0;
            assert(r == s.subrange(e, p2) + res2 + rest);
            assert(ident_start(res2[0])) by {
                if res2 != chain2 {
                    assert(res2[0] == 'd');
                }
            }
            let n = p2 - e;
            assert(r[n] == res2[0]);
            assert(r.subrange(0, n) =~= s.subrange(e, e + n));
            lemma_paren_agree(r, 0, s, e, n);
            assert(r[0] == s[e]);
            if r[0] == '.' {
                if e + 1 < p2 {
                    assert(r[1] == s[e + 1]);
                }
            }
        }
    }
}

/// In a rewritten stretch, the first name starts where it started and
/// runs over what it resolved to, with the same `(` after it.
#[verifier::rlimit(40)]
proof fn lemma_rewritten_name(s: Seq<char>, i: int, ch: Seq<Seq<char>>, fl: Seq<Seq<char>>)
    requires
        0 <= i < s.len(),
        next_ident(s, i) < s.len(),
        plain_rewrite(s, i, ch, fl) is Ok,
    ensures
        ({
            let r = plain_rewrite(s, i, ch, fl)->Ok_0;
            let p = next_ident(s, i);
            let e = chain_end(s, p + 1);
            let res = resolve_name(s.subrange(p, e), followed_by_paren(s, e), ch, fl, Seq::empty(), Seq::empty())->Ok_0;
            let r2 = plain_rewrite(s, e, ch, fl)->Ok_0;
            let m = p - i;
            let q = m + res.len();
            &&& p < e <= s.len()
            &&& r == s.subrange(i, p) + res + r2
            &&& next_ident(r, 0) == m
            &&& chain_end(r, m + 1) == q
            &&& r.subrange(m, q) == res
            &&& same_tail(r, q, r2, 0)
            &&& followed_by_paren(r, q) == followed_by_paren(s, e)
        }),
{
    let r = plain_rewrite(s, i, ch, fl)->Ok_0;
    lemma_next_ident(s, i);
    let p = next_ident(s, i);
    lemma_chain_end(s, p + 1);
    lemma_chain_chars(s, p + 1);
    let e = chain_end(s, p + 1);
    let chain = s.subrange(p, e);
    let call = followed_by_paren(s, e);
    lemma_resolve_plain(chain, call, ch, fl);
    let res = resolve_name(chain, call, ch, fl, Seq::empty(), Seq::empty())->Ok_0;
    let r2 = plain_rewrite(s, e, ch, fl)->Ok_0;
    assert(r == s.subrange(i, p) + res + r2);
    lemma_rewrite_head(s, e, ch, fl);
    let m = p - i;
    let q = m + res.len();
    assert(ident_start(res[0])) by {
        if res != chain {
            assert(res[0] == 'd');
        }
    }
    assert(r[m] == res[0]);
    assert forall|j: int| 0 <= j < m implies !ident_start(#[trigger] r[j]) by {
        assert(r[j] == s[i + j]);
    }
    lemma_next_ident_is(r, 0, m);
    assert forall|j: int| m + 1 <= j < q implies #[trigger] chain_step(r, j, q) by {
        assert(r[j] == res[j - m]);
        if j + 1 < q {
            assert(r[j + 1] == res[j + 1 - m]);
        }
        if res == chain {
            assert(res[j - m] == s[p + (j - m)]);
            assert(chain_step(s, p + (j - m), e));
            if j + 1 < q {
                assert(res[j + 1 - m] == s[p + (j - m) + 1]);
            }
        } else {
            if j - m >= 5 {
                assert(res[j - m] == s[p + (j - m - 5)]);
                assert(chain_step(s, p + (j - m - 5), e));
                if j + 1 < q {
                    assert(res[j + 1 - m] == s[p + (j - m - 5) + 1]);
                }
            } else if j - m == 4 {
                assert(res[5] == s[p]);
            }
        }
    }
    assert(chain_stop(r, q)) by {
        if q < r.len() {
            assert(r[q] == r2[0]);
            if r2.len() > 1 {
                assert(r[q + 1] == r2[1]);
            }
        }
    }
    lemma_chain_end_is(r, m + 1, q);
    assert(r.subrange(m, q) =~= res);
    assert(r.skip(q) =~= r2.skip(0));
    lemma_tail_paren(r, q, r2, 0);
}

/// A rewritten stretch, with no prefix and no aliases and no frontmatter
/// field called `data`, rewrites to itself.
proof fn lemma_rewrite_fixed(s: Seq<char>, i: int, ch: Seq<Seq<char>>, fl: Seq<Seq<char>>)
    requires
        0 <= i,
        plain_rewrite(s, i, ch, fl) is Ok,
        !ch.contains(COL_DATA@),
    ensures
        plain_rewrite(plain_rewrite(s, i, ch, fl)->Ok_0, 0, ch, fl) == plain_rewrite(s, i, ch, fl),
    decreases s.len() - i,
{
    let r = plain_rewrite(s, i, ch, fl)->Ok_0;
    if i < s.len() {
        lemma_next_ident(s, i);
        let p = next_ident(s, i);
        if p >= s.len() {
            assert(r == s.subrange(i, s.len() as int));
            lemma_next_ident_is(r, 0, r.len() as int);
            assert(r.subrange(0, r.len() as int) =~= r);
        } else {
            lemma_rewritten_name(s, i, ch, fl);
            let e = chain_end(s, p + 1);
            let chain = s.subrange(p, e);
            let call = followed_by_paren(s, e);
            lemma_resolve_plain(chain, call, ch, fl);
            let res = resolve_name(chain, call, ch, fl, Seq::empty(), Seq::empty())->Ok_0;
            let r2 = plain_rewrite(s, e, ch, fl)->Ok_0;
            let m = p - i;
            let q = m + res.len();
            lemma_rewrite_fixed(s, e, ch, fl);
            if res != chain {
                lemma_resolve_data(chain, followed_by_paren(r, q), ch, fl);
            }
            assert(resolve_name(r.subrange(m, q), followed_by_paren(r, q), ch, fl, Seq::empty(), Seq::empty())
                == Ok::<Seq<char>, Seq<char>>(res));
            lemma_tail_rewrite(r, q, r2, 0, ch, fl);
            assert(r.subrange(0, m) =~= s.subrange(i, p));
        }
    }
}

/// A clause without quotes holds no literal.
proof fn lemma_no_literal(s: Seq<char>, i: int)
    requires
        0 <= i,
        !s.contains('\''),
    ensures
        next_literal(s, i) is None,
    decreases s.len() - i,
{
    if i < s.len() {
        assert forall|x: int| quoted_at(s, x) == -1 by {
            if 0 <= x < s.len() && s[x] == '\'' {
                assert(s.contains('\''));
            }
        }
        assert(literal_at(s, i) < 0);
        lemma_no_literal(s, i + 1);
    }
}

/// Rewriting puts no quote into a stretch without one.
proof fn lemma_rewrite_no_quote(s: Seq<char>, i: int, ch: Seq<Seq<char>>, fl: Seq<Seq<char>>)
    requires
        0 <= i,
        !s.contains('\''),
        plain_rewrite(s, i, ch, fl) is Ok,
    ensures
        !plain_rewrite(s, i, ch, fl)->Ok_0.contains('\''),
    decreases s.len() - i,
{
    let r = plain_rewrite(s, i, ch, fl)->Ok_0;
    assert forall|j: int| 0 <= j < s.len() implies #[trigger] s[j] != '\'' by {
        if s[j] == '\'' {
            assert(s.contains('\''));
        }
    }
    if i < s.len() {
        lemma_next_ident(s, i);
        let p = next_ident(s, i);
        if p < s.len() {
            lemma_chain_end(s, p + 1);
            let e = chain_end(s, p + 1);
            let chain = s.subrange(p, e);
            let call = followed_by_paren(s, e);
            lemma_resolve_plain(chain, call, ch, fl);
            let res = resolve_name(chain, call, ch, fl, Seq::empty(), Seq::empty())->Ok_0;
            let r2 = plain_rewrite(s, e, ch, fl)->Ok_0;
            lemma_rewrite_no_quote(s, e, ch, fl);
            assert(r == s.subrange(i, p) + res + r2);
            assert forall|j: int| 0 <= j < r.len() implies #[trigger] r[j] != '\'' by {
                if j >= p - i + res.len() {
                    assert(r[j] == r2[j - (p - i) - res.len()]);
                    if r2[j - (p - i) - res.len()] == '\'' {
                        assert(r2.contains('\''));
                    }
                }
            }
        }
    }
    assert(!r.contains('\'')) by {
        if r.contains('\'') {
            let j = choose|j: int| 0 <= j < r.len() && r[j] == '\'';
            assert(r[j] != '\'');
        }
    }
}

/// **Translating twice.** A clause without quoted literals, translated
/// with no internal-column prefix and no aliases for a table none of whose
/// frontmatter fields is called `data`, translates again to the same text:
/// every name in the translation is already resolved.
pub proof fn lemma_translate_twice(clause: Seq<char>, children: Seq<Seq<char>>, floats: Seq<Seq<char>>)
    requires
        !clause.contains('\''),
        !children.contains(COL_DATA@),
        translated_where(clause, children, floats, Seq::empty(), Seq::empty()) is Ok,
    ensures
        translated_where(
            translated_where(clause, children, floats, Seq::empty(), Seq::empty())->Ok_0,
            children,
            floats,
            Seq::empty(),
            Seq::empty(),
        ) == translated_where(clause, children, floats, Seq::empty(), Seq::empty()),
{
    lemma_no_literal(clause, 0);
    assert(clause.subrange(0, clause.len() as int) =~= clause);
    let t = plain_rewrite(clause, 0, children, floats)->Ok_0;
    lemma_rewrite_fixed(clause, 0, children, floats);
    lemma_rewrite_no_quote(clause, 0, children, floats);
    lemma_no_literal(t, 0);
    assert(t.subrange(0, t.len() as int) =~= t);
}

} // verus!
