//! The `--where` filter of a search, as the index table sees it.
//!
//! Frontmatter lives in the `data` struct column, so a bare field name in the
//! user's filter (`draft = false`) has to become `data.draft`. The clause is
//! split into quoted literals, which are kept verbatim, and the text between
//! them, in which every dotted identifier is resolved: SQL keywords and
//! function names stay, internal columns named through an alias or a prefix
//! become the column, `Array(Float)` fields are refused, and a name that is
//! both a frontmatter field and an internal column is an error unless an
//! alias or prefix lets the internal column be named otherwise.
//!
//! A literal is a single-quoted string in which `''` stands for a quote,
//! optionally preceded by the word `date` or `timestamp` (any case, after a
//! word boundary) and white space. An identifier is `[A-Za-z_][A-Za-z0-9_]*`
//! followed by any number of `.` + the same.

use vstd::prelude::*;
use crate::index::storage::{
    COL_BUILT_AT, COL_CHUNK_ID, COL_CHUNK_INDEX, COL_CHUNK_TEXT, COL_CONTENT_HASH, COL_DATA,
    COL_EMBEDDING, COL_END_LINE, COL_FILEPATH, COL_FILE_ID, COL_START_LINE,
};
use crate::text::{chars_of, push_char, push_str, range_eq_str, views};

verus! {

/// Whether a character belongs to the Unicode word class of regular
/// expressions (`\w`): Alphabetic, Join_Control, Decimal_Number, Mark or
/// Connector_Punctuation.
pub uninterp spec fn regex_word_char(c: char) -> bool;

/// Whether a character has the Unicode `White_Space` property.
pub uninterp spec fn white_space(c: char) -> bool;

/// Whether an ASCII character is a letter, a digit or `_`.
pub open spec fn ascii_word(c: char) -> bool {
    ('a' <= c && c <= 'z') || ('A' <= c && c <= 'Z') || ('0' <= c && c <= '9') || c == '_'
}

/// `regex_syntax::is_word_character`: the word class that a regular
/// expression's `\b` looks at. Named [`regex_word_char`]. Among ASCII
/// characters it holds exactly the letters (Alphabetic), the digits
/// (Decimal_Number) and `_` (Connector_Punctuation); space, controls and
/// the other punctuation are not in it.
#[verifier::external_body]
fn is_word_char(c: char) -> (r: bool)
    ensures
        r == regex_word_char(c),
        (c as u32) < 128 ==> (r <==> ascii_word(c)),
{
    regex_syntax::is_word_character(c)
}

/// `char::is_whitespace`: the `White_Space` property, named [`white_space`].
/// Among ASCII characters it holds exactly tab, line feed, vertical tab,
/// form feed, carriage return and space; letters, digits, punctuation and
/// the other controls do not have it.
#[verifier::external_body]
fn is_white_space(c: char) -> (r: bool)
    ensures
        r == white_space(c),
        (c as u32) < 128 ==> (r <==> ((9 <= (c as u32) && (c as u32) <= 13) || c == ' ')),
{
    c.is_whitespace()
}

// ---------------------------------------------------------------------------
// Lexical structure
// ---------------------------------------------------------------------------

/// `[A-Za-z_]`
pub open spec fn ident_start(c: char) -> bool {
    ('a' <= c && c <= 'z') || ('A' <= c && c <= 'Z') || c == '_'
}

/// `[A-Za-z0-9_]`
pub open spec fn ident_char(c: char) -> bool {
    ident_start(c) || ('0' <= c && c <= '9')
}

/// The first position at or after `i` where an identifier starts (`i` itself
/// when none is left).
pub open spec fn next_ident(s: Seq<char>, i: int) -> int
    decreases s.len() - i,
{
    if i < s.len() {
        if ident_start(s[i]) {
            i
        } else {
            next_ident(s, i + 1)
        }
    } else {
        i
    }
}

/// Where the dotted identifier that continues at `i` ends: identifier
/// characters, and dots that are followed by an identifier start.
pub open spec fn chain_end(s: Seq<char>, i: int) -> int
    decreases s.len() - i,
{
    if i < s.len() && ident_char(s[i]) {
        chain_end(s, i + 1)
    } else if 0 <= i && i + 1 < s.len() && s[i] == '.' && ident_start(s[i + 1]) {
        chain_end(s, i + 1)
    } else {
        i
    }
}

/// White space as `char::is_whitespace` sees it: among ASCII characters
/// tab, line feed, vertical tab, form feed, carriage return and space;
/// beyond ASCII, the [`white_space`] property.
pub open spec fn spacing(c: char) -> bool {
    if (c as u32) < 128 {
        (9 <= (c as u32) && (c as u32) <= 13) || c == ' '
    } else {
        white_space(c)
    }
}

/// The first position at or after `i` that is not white space.
pub open spec fn space_end(s: Seq<char>, i: int) -> int
    decreases s.len() - i,
{
    if 0 <= i < s.len() && spacing(s[i]) {
        space_end(s, i + 1)
    } else {
        i
    }
}

/// Whether the text from `e` on, white space skipped, starts with `(`.
pub open spec fn followed_by_paren(s: Seq<char>, e: int) -> bool {
    0 <= space_end(s, e) < s.len() && s[space_end(s, e)] == '('
}

/// The first `.` at or after `i` (`i` itself when none is left).
pub open spec fn dot_from(w: Seq<char>, i: int) -> int
    decreases w.len() - i,
{
    if 0 <= i < w.len() {
        if w[i] == '.' {
            i
        } else {
            dot_from(w, i + 1)
        }
    } else {
        i
    }
}

/// The part of a dotted name before its first dot.
pub open spec fn first_segment(w: Seq<char>) -> Seq<char> {
    w.subrange(0, dot_from(w, 0))
}

/// The part of a dotted name between its first and second dots, if it has a
/// dot.
pub open spec fn second_segment(w: Seq<char>) -> Option<Seq<char>> {
    let d = dot_from(w, 0);
    if d < w.len() {
        Some(w.subrange(d + 1, dot_from(w, d + 1)))
    } else {
        None
    }
}

/// A character's code, with ASCII capitals lowered.
pub open spec fn lower_code(c: char) -> int {
    if 'A' <= c && c <= 'Z' {
        c as int + 32
    } else {
        c as int
    }
}

/// ASCII case-insensitive equality.
pub open spec fn ascii_ci_eq(a: Seq<char>, b: Seq<char>) -> bool {
    a.len() == b.len() && forall|j: int| 0 <= j < a.len() ==> lower_code(a[j]) == lower_code(b[j])
}

/// The words that look like identifiers but are SQL keywords or functions.
pub open spec fn sql_keywords() -> Seq<Seq<char>> {
    seq![
        "AND"@, "OR"@, "NOT"@, "IN"@, "IS"@, "NULL"@, "LIKE"@, "BETWEEN"@, "TRUE"@,
        "FALSE"@, "EXTRACT"@, "DATE_PART"@, "FROM"@, "ARRAY_HAS"@, "ARRAY_HAS_ANY"@,
        "ARRAY_HAS_ALL"@,
    ]
}

/// Whether `w` is one of [`sql_keywords`], ignoring ASCII case.
pub open spec fn is_sql_keyword(w: Seq<char>) -> bool {
    exists|k: int| 0 <= k < sql_keywords().len() && ascii_ci_eq(w, #[trigger] sql_keywords()[k])
}

/// The top-level columns of the index table.
pub open spec fn reserved_columns() -> Seq<Seq<char>> {
    seq![
        COL_CHUNK_ID@, COL_FILE_ID@, COL_CHUNK_INDEX@, COL_START_LINE@, COL_END_LINE@,
        COL_CHUNK_TEXT@, COL_EMBEDDING@, COL_FILEPATH@, COL_CONTENT_HASH@, COL_DATA@,
        COL_BUILT_AT@,
    ]
}

/// Case folding of the literal keywords: an ASCII letter in either case, and
/// `ſ` for `s`.
pub open spec fn folds_to(c: char, k: char) -> bool {
    lower_code(c) == k as int || (k == 's' && c == '\u{17f}')
}

/// Whether `kw` (lower case) appears at `p`, case-insensitively.
pub open spec fn keyword_at(s: Seq<char>, p: int, kw: Seq<char>) -> bool {
    0 <= p && p + kw.len() <= s.len() && forall|j: int|
        0 <= j < kw.len() ==> folds_to(#[trigger] s[p + j], kw[j])
}

/// `date`
pub open spec fn date_word() -> Seq<char> {
    seq!['d', 'a', 't', 'e']
}

/// `timestamp`
pub open spec fn timestamp_word() -> Seq<char> {
    seq!['t', 'i', 'm', 'e', 's', 't', 'a', 'm', 'p']
}

/// Whether position `p` is a word boundary.
pub open spec fn word_boundary(s: Seq<char>, p: int) -> bool {
    (0 < p && regex_word_char(s[p - 1])) != (p < s.len() && regex_word_char(s[p]))
}

/// The rest of a quoted literal from `i`, where `pair` is the first quote of
/// the last `''` consumed (or -1): the end of the literal, or -1 when it does
/// not close. Without a closing quote the literal ends at the last `''`'s
/// first quote.
pub open spec fn quote_close(s: Seq<char>, i: int, pair: int) -> int
    decreases s.len() - i,
{
    if i < 0 || i >= s.len() {
        if pair >= 0 {
            pair + 1
        } else {
            -1
        }
    } else if s[i] != '\'' {
        quote_close(s, i + 1, pair)
    } else if i + 1 < s.len() && s[i + 1] == '\'' {
        quote_close(s, i + 2, i)
    } else {
        i + 1
    }
}

/// The end of the quoted literal that opens at `q`, or -1.
pub open spec fn quoted_at(s: Seq<char>, q: int) -> int {
    if 0 <= q < s.len() && s[q] == '\'' {
        quote_close(s, q + 1, -1)
    } else {
        -1
    }
}

/// Length of the `date` / `timestamp` word that can open a literal at `p`
/// (0 for none).
pub open spec fn literal_keyword(s: Seq<char>, p: int) -> int {
    if word_boundary(s, p) && keyword_at(s, p, date_word()) {
        4
    } else if word_boundary(s, p) && keyword_at(s, p, timestamp_word()) {
        9
    } else {
        0
    }
}

/// The end of the literal that starts at `p`, or -1.
pub open spec fn literal_at(s: Seq<char>, p: int) -> int {
    let k = literal_keyword(s, p);
    let q = space_end(s, p + k);
    if k > 0 && q > p + k && quoted_at(s, q) >= 0 {
        quoted_at(s, q)
    } else {
        quoted_at(s, p)
    }
}

/// The first literal that starts at or after `i`: its start and end.
pub open spec fn next_literal(s: Seq<char>, i: int) -> Option<(int, int)>
    decreases s.len() - i,
{
    if i < 0 || i >= s.len() {
        None
    } else if literal_at(s, i) >= 0 {
        Some((i, literal_at(s, i)))
    } else {
        next_literal(s, i + 1)
    }
}

/// The internal column that `name` is an alias of: the first pair
/// `(column, alias)` from `k` on whose alias is `name`.
pub open spec fn alias_target(aliases: Seq<(Seq<char>, Seq<char>)>, name: Seq<char>, k: int) -> Option<Seq<char>>
    decreases aliases.len() - k,
{
    if 0 <= k < aliases.len() {
        if aliases[k].1 == name {
            Some(aliases[k].0)
        } else {
            alias_target(aliases, name, k + 1)
        }
    } else {
        None
    }
}

/// The `Array(Float)` field that a dotted name refers to, if any: its first
/// segment, or for a `data.`-qualified name the segment after `data`.
pub open spec fn float_target(chain: Seq<char>, floats: Seq<Seq<char>>) -> Option<Seq<char>> {
    let name = if first_segment(chain) == COL_DATA@ {
        second_segment(chain)
    } else {
        Some(first_segment(chain))
    };
    match name {
        Some(n) => if floats.contains(n) {
            Some(n)
        } else {
            None
        },
        None => None,
    }
}

/// The refusal of a filter on an `Array(Float)` field.
pub open spec fn float_filter_error(name: Seq<char>) -> Seq<char> {
    "filtering on Array(Float) field '"@ + name
        + "' is not supported in --where. Filter on a different field or store the values in a parallel scalar field."@
}

/// The refusal of a name that is both a frontmatter field and a column.
pub open spec fn ambiguous_column_error(name: Seq<char>) -> Seq<char> {
    "ambiguous column '"@ + name
        + "' in --where: it is both a frontmatter field and an internal column. Disambiguate by setting [search].internal_prefix (e.g. \"_\") or [search.aliases]."@
        + name + " = \"<alias>\""@
}

/// `data.`
pub open spec fn data_dot() -> Seq<char> {
    seq!['d', 'a', 't', 'a', '.']
}

/// What a dotted name becomes; `call` tells whether a `(` follows it.
pub open spec fn resolve_name(
    chain: Seq<char>,
    call: bool,
    children: Seq<Seq<char>>,
    floats: Seq<Seq<char>>,
    prefix: Seq<char>,
    aliases: Seq<(Seq<char>, Seq<char>)>,
) -> Result<Seq<char>, Seq<char>> {
    let first = first_segment(chain);
    let stripped = first.skip(prefix.len() as int);
    if call && !chain.contains('.') {
        Ok(chain)
    } else if is_sql_keyword(chain) {
        Ok(chain)
    } else if alias_target(aliases, first, 0) is Some {
        Ok(alias_target(aliases, first, 0)->0)
    } else if prefix.len() > 0 && prefix.is_prefix_of(first) && reserved_columns().contains(stripped) {
        Ok(stripped)
    } else if float_target(chain, floats) is Some {
        Err(float_filter_error(float_target(chain, floats)->0))
    } else if reserved_columns().contains(first) && children.contains(first) {
        if prefix.len() > 0 || aliases.len() > 0 {
            Ok(data_dot() + chain)
        } else {
            Err(ambiguous_column_error(first))
        }
    } else if reserved_columns().contains(first) {
        Ok(chain)
    } else {
        Ok(data_dot() + chain)
    }
}

/// `x` in front of a successful result.
pub open spec fn prepend(x: Seq<char>, r: Result<Seq<char>, Seq<char>>) -> Result<Seq<char>, Seq<char>> {
    match r {
        Ok(y) => Ok(x + y),
        Err(e) => Err(e),
    }
}

/// A stretch of the clause outside literals, from `i` on, with every dotted
/// name resolved; the first refusal, left to right, if any.
pub open spec fn rewrite_from(
    s: Seq<char>,
    i: int,
    children: Seq<Seq<char>>,
    floats: Seq<Seq<char>>,
    prefix: Seq<char>,
    aliases: Seq<(Seq<char>, Seq<char>)>,
) -> Result<Seq<char>, Seq<char>>
    decreases s.len() - i,
{
    if i < 0 || i >= s.len() {
        Ok(Seq::empty())
    } else {
        let p = next_ident(s, i);
        if p >= s.len() {
            Ok(s.subrange(i, s.len() as int))
        } else {
            let e = chain_end(s, p + 1);
            proof {
                lemma_next_ident(s, i);
                lemma_chain_end(s, p + 1);
            }
            match resolve_name(s.subrange(p, e), followed_by_paren(s, e), children, floats, prefix, aliases) {
                Err(m) => Err(m),
                Ok(r) => prepend(s.subrange(i, p) + r, rewrite_from(s, e, children, floats, prefix, aliases)),
            }
        }
    }
}

/// The clause from `i` on: literals kept, the text between them rewritten.
pub open spec fn translate_from(
    s: Seq<char>,
    i: int,
    children: Seq<Seq<char>>,
    floats: Seq<Seq<char>>,
    prefix: Seq<char>,
    aliases: Seq<(Seq<char>, Seq<char>)>,
) -> Result<Seq<char>, Seq<char>>
    decreases s.len() - i,
{
    if i < 0 || i > s.len() {
        Ok(Seq::empty())
    } else {
        match next_literal(s, i) {
            None => rewrite_from(s.subrange(i, s.len() as int), 0, children, floats, prefix, aliases),
            Some((a, b)) => {
                proof {
                    lemma_next_literal(s, i);
                }
                match rewrite_from(s.subrange(i, a), 0, children, floats, prefix, aliases) {
                    Err(m) => Err(m),
                    Ok(x) => prepend(x + s.subrange(a, b), translate_from(s, b, children, floats, prefix, aliases)),
                }
            },
        }
    }
}

// ---------------------------------------------------------------------------
// Bounds of the scanners
// ---------------------------------------------------------------------------

/// `next_ident` moves forward to an identifier start, over none.
pub proof fn lemma_next_ident(s: Seq<char>, i: int)
    requires
        0 <= i,
    ensures
        i <= next_ident(s, i),
        i <= s.len() ==> next_ident(s, i) <= s.len(),
        next_ident(s, i) < s.len() ==> ident_start(s[next_ident(s, i)]),
        forall|j: int| i <= j < next_ident(s, i) ==> !ident_start(#[trigger] s[j]),
    decreases s.len() - i,
{
    if i < s.len() && !ident_start(s[i]) {
        lemma_next_ident(s, i + 1);
    }
}

/// `chain_end` moves forward within the text.
pub proof fn lemma_chain_end(s: Seq<char>, i: int)
    requires
        0 <= i <= s.len(),
    ensures
        i <= chain_end(s, i) <= s.len(),
    decreases s.len() - i,
{
    if i < s.len() && ident_char(s[i]) {
        lemma_chain_end(s, i + 1);
    } else if i + 1 < s.len() && s[i] == '.' && ident_start(s[i + 1]) {
        lemma_chain_end(s, i + 1);
    }
}

/// `space_end` moves forward within the text.
pub proof fn lemma_space_end(s: Seq<char>, i: int)
    requires
        0 <= i <= s.len(),
    ensures
        i <= space_end(s, i) <= s.len(),
    decreases s.len() - i,
{
    if i < s.len() && spacing(s[i]) {
        lemma_space_end(s, i + 1);
    }
}

/// `dot_from` moves forward, to a dot or the end.
pub proof fn lemma_dot_from(w: Seq<char>, i: int)
    requires
        0 <= i <= w.len(),
    ensures
        i <= dot_from(w, i) <= w.len(),
        dot_from(w, i) < w.len() ==> w[dot_from(w, i)] == '.',
        forall|j: int| i <= j < dot_from(w, i) ==> #[trigger] w[j] != '.',
    decreases w.len() - i,
{
    if i < w.len() && w[i] != '.' {
        lemma_dot_from(w, i + 1);
    }
}

/// A quoted literal ends after its opening and within the text.
pub proof fn lemma_quote_close(s: Seq<char>, i: int, pair: int)
    requires
        0 <= i <= s.len(),
        pair == -1 || (0 <= pair && pair + 2 <= i),
    ensures
        quote_close(s, i, pair) == -1 || ((if pair >= 0 { pair + 1 } else { i }) <= quote_close(s, i, pair) <= s.len()),
    decreases s.len() - i,
{
    if i < s.len() {
        if s[i] != '\'' {
            lemma_quote_close(s, i + 1, pair);
        } else if i + 1 < s.len() && s[i + 1] == '\'' {
            lemma_quote_close(s, i + 2, i);
        }
    }
}

/// A literal that starts at `p` ends after it, within the text.
pub proof fn lemma_literal_at(s: Seq<char>, p: int)
    requires
        0 <= p < s.len(),
    ensures
        literal_at(s, p) >= 0 ==> p < literal_at(s, p) <= s.len(),
{
    let k = literal_keyword(s, p);
    if k > 0 {
        lemma_space_end(s, p + k);
        let q = space_end(s, p + k);
        if q < s.len() {
            lemma_quote_close(s, q + 1, -1);
        }
    }
    lemma_quote_close(s, p + 1, -1);
}

/// The next literal starts at or after `i` and ends within the text, and no
/// literal starts before it.
pub proof fn lemma_next_literal(s: Seq<char>, i: int)
    requires
        0 <= i,
    ensures
        match next_literal(s, i) {
            Some((a, b)) => i <= a < b <= s.len() && literal_at(s, a) == b,
            None => true,
        },
        forall|j: int| #![trigger literal_at(s, j)] i <= j < (match next_literal(s, i) {
            Some((a, b)) => a,
            None => s.len() as int,
        }) ==> literal_at(s, j) < 0,
    decreases s.len() - i,
{
    if i < s.len() {
        lemma_literal_at(s, i);
        if literal_at(s, i) < 0 {
            lemma_next_literal(s, i + 1);
        }
    }
}

// ---------------------------------------------------------------------------
// Executable scanners
// ---------------------------------------------------------------------------

/// The `(column, alias)` pairs as values.
pub open spec fn alias_views(aliases: Seq<(String, String)>) -> Seq<(Seq<char>, Seq<char>)> {
    Seq::new(aliases.len(), |k: int| (aliases[k].0@, aliases[k].1@))
}

/// `v[a..b]` as a vector of its own.
fn sub_vec(v: &Vec<char>, a: usize, b: usize) -> (r: Vec<char>)
    requires
        a <= b <= v@.len(),
    ensures
        r@ == v@.subrange(a as int, b as int),
{
    let mut r: Vec<char> = Vec::new();
    let mut i = a;
    while i < b
        invariant
            a <= i <= b <= v@.len(),
            r@ == v@.subrange(a as int, i as int),
        decreases b - i,
    {
        r.push(v[i]);
        assert(v@.subrange(a as int, i + 1) =~= v@.subrange(a as int, i as int).push(v@[i as int]));
        i = i + 1;
    }
    r
}

/// Appends `v[a..b]` to `out`.
fn push_range(out: &mut String, v: &Vec<char>, a: usize, b: usize)
    requires
        a <= b <= v@.len(),
    ensures
        final(out)@ == old(out)@ + v@.subrange(a as int, b as int),
{
    let ghost start = out@;
    let mut i = a;
    while i < b
        invariant
            a <= i <= b <= v@.len(),
            out@ == start + v@.subrange(a as int, i as int),
        decreases b - i,
    {
        push_char(out, v[i]);
        assert(v@.subrange(a as int, i + 1) =~= v@.subrange(a as int, i as int).push(v@[i as int]));
        i = i + 1;
    }
}

fn next_ident_exec(v: &Vec<char>, i: usize) -> (p: usize)
    requires
        i <= v@.len(),
    ensures
        p == next_ident(v@, i as int),
{
    let mut p = i;
    while p < v.len() && !(('a' <= v[p] && v[p] <= 'z') || ('A' <= v[p] && v[p] <= 'Z') || v[p] == '_')
        invariant
            i <= p <= v@.len(),
            next_ident(v@, i as int) == next_ident(v@, p as int),
        decreases v@.len() - p,
    {
        p = p + 1;
    }
    p
}

fn is_ident_char(c: char) -> (r: bool)
    ensures
        r == ident_char(c),
{
    ('a' <= c && c <= 'z') || ('A' <= c && c <= 'Z') || c == '_' || ('0' <= c && c <= '9')
}

fn chain_end_exec(v: &Vec<char>, i: usize) -> (e: usize)
    requires
        i <= v@.len(),
    ensures
        e == chain_end(v@, i as int),
{
    let mut e = i;
    loop
        invariant
            i <= e <= v@.len(),
            chain_end(v@, i as int) == chain_end(v@, e as int),
        decreases v@.len() - e,
    {
        if e < v.len() && is_ident_char(v[e]) {
            e = e + 1;
        } else if e < v.len() && e + 1 < v.len() && v[e] == '.' && (('a' <= v[e + 1] && v[e + 1] <= 'z') || ('A'
            <= v[e + 1] && v[e + 1] <= 'Z') || v[e + 1] == '_') {
            e = e + 1;
        } else {
            return e;
        }
    }
}

fn space_end_exec(v: &Vec<char>, i: usize) -> (e: usize)
    requires
        i <= v@.len(),
    ensures
        e == space_end(v@, i as int),
{
    let mut e = i;
    while e < v.len() && is_white_space(v[e])
        invariant
            i <= e <= v@.len(),
            space_end(v@, i as int) == space_end(v@, e as int),
        decreases v@.len() - e,
    {
        e = e + 1;
    }
    e
}

fn dot_from_exec(w: &Vec<char>, i: usize) -> (d: usize)
    requires
        i <= w@.len(),
    ensures
        d == dot_from(w@, i as int),
{
    let mut d = i;
    while d < w.len() && w[d] != '.'
        invariant
            i <= d <= w@.len(),
            dot_from(w@, i as int) == dot_from(w@, d as int),
        decreases w@.len() - d,
    {
        d = d + 1;
    }
    d
}

fn lower_code_exec(c: char) -> (r: u32)
    ensures
        r == lower_code(c),
{
    if 'A' <= c && c <= 'Z' {
        (c as u32) + 32
    } else {
        c as u32
    }
}

/// Whether `w` equals `kw` ignoring ASCII case.
fn ascii_ci_eq_str(w: &Vec<char>, kw: &str) -> (r: bool)
    ensures
        r == ascii_ci_eq(w@, kw@),
{
    let n = kw.unicode_len();
    if w.len() != n {
        return false;
    }
    let mut i: usize = 0;
    while i < n
        invariant
            n == kw@.len(),
            w@.len() == n,
            i <= n,
            forall|j: int| 0 <= j < i ==> lower_code(w@[j]) == lower_code(kw@[j]),
        decreases n - i,
    {
        if lower_code_exec(w[i]) != lower_code_exec(kw.get_char(i)) {
            return false;
        }
        i = i + 1;
    }
    true
}

fn is_sql_keyword_exec(w: &Vec<char>) -> (r: bool)
    ensures
        r == is_sql_keyword(w@),
{
    let ks = sql_keyword_list();
    let mut k: usize = 0;
    while k < ks.len()
        invariant
            ks@.len() == sql_keywords().len(),
            forall|j: int| 0 <= j < ks@.len() ==> (#[trigger] ks@[j])@ == sql_keywords()[j],
            k <= ks@.len(),
            forall|j: int| 0 <= j < k ==> !ascii_ci_eq(w@, #[trigger] sql_keywords()[j]),
        decreases ks@.len() - k,
    {
        if ascii_ci_eq_str(w, ks[k]) {
            return true;
        }
        k = k + 1;
    }
    false
}

fn sql_keyword_list() -> (r: Vec<&'static str>)
    ensures
        r@.len() == sql_keywords().len(),
        forall|k: int| 0 <= k < r@.len() ==> (#[trigger] r@[k])@ == sql_keywords()[k],
{
    let r = vec![
        "AND", "OR", "NOT", "IN", "IS", "NULL", "LIKE", "BETWEEN", "TRUE", "FALSE", "EXTRACT",
        "DATE_PART", "FROM", "ARRAY_HAS", "ARRAY_HAS_ANY", "ARRAY_HAS_ALL",
    ];
    r
}

/// Whether `w[a..b]` is one of `list`.
fn contains_range(list: &Vec<String>, w: &Vec<char>, a: usize, b: usize) -> (r: bool)
    requires
        a <= b <= w@.len(),
    ensures
        r == views(list@).contains(w@.subrange(a as int, b as int)),
{
    let ghost name = w@.subrange(a as int, b as int);
    let mut k: usize = 0;
    while k < list.len()
        invariant
            a <= b <= w@.len(),
            name == w@.subrange(a as int, b as int),
            k <= list@.len(),
            forall|j: int| 0 <= j < k ==> views(list@)[j] != name,
        decreases list@.len() - k,
    {
        if range_eq_str(w, a, b, list[k].as_str()) {
            assert(views(list@)[k as int] == name);
            return true;
        }
        k = k + 1;
    }
    false
}

/// Whether `w[a..b]` names a top-level column of the index table.
fn is_reserved_range(w: &Vec<char>, a: usize, b: usize) -> (r: bool)
    requires
        a <= b <= w@.len(),
    ensures
        r == reserved_columns().contains(w@.subrange(a as int, b as int)),
{
    let cols = reserved_column_list();
    let ghost name = w@.subrange(a as int, b as int);
    let mut k: usize = 0;
    while k < cols.len()
        invariant
            a <= b <= w@.len(),
            name == w@.subrange(a as int, b as int),
            cols@.len() == reserved_columns().len(),
            forall|j: int| 0 <= j < cols@.len() ==> (#[trigger] cols@[j])@ == reserved_columns()[j],
            k <= cols@.len(),
            forall|j: int| 0 <= j < k ==> reserved_columns()[j] != name,
        decreases cols@.len() - k,
    {
        if range_eq_str(w, a, b, cols[k]) {
            assert(reserved_columns()[k as int] == name);
            return true;
        }
        k = k + 1;
    }
    false
}

fn reserved_column_list() -> (r: Vec<&'static str>)
    ensures
        r@.len() == reserved_columns().len(),
        forall|k: int| 0 <= k < r@.len() ==> (#[trigger] r@[k])@ == reserved_columns()[k],
{
    vec![
        COL_CHUNK_ID, COL_FILE_ID, COL_CHUNK_INDEX, COL_START_LINE, COL_END_LINE, COL_CHUNK_TEXT,
        COL_EMBEDDING, COL_FILEPATH, COL_CONTENT_HASH, COL_DATA, COL_BUILT_AT,
    ]
}

/// The internal column that `w[a..b]` is an alias of.
fn alias_lookup(aliases: &Vec<(String, String)>, w: &Vec<char>, a: usize, b: usize) -> (r: Option<String>)
    requires
        a <= b <= w@.len(),
    ensures
        match r {
            Some(c) => alias_target(alias_views(aliases@), w@.subrange(a as int, b as int), 0) == Some(c@),
            None => alias_target(alias_views(aliases@), w@.subrange(a as int, b as int), 0) is None,
        },
{
    let ghost name = w@.subrange(a as int, b as int);
    let ghost av = alias_views(aliases@);
    let mut k: usize = 0;
    while k < aliases.len()
        invariant
            a <= b <= w@.len(),
            name == w@.subrange(a as int, b as int),
            av == alias_views(aliases@),
            k <= aliases@.len(),
            alias_target(av, name, 0) == alias_target(av, name, k as int),
        decreases aliases@.len() - k,
    {
        if range_eq_str(w, a, b, aliases[k].1.as_str()) {
            return Some(crate::text::owned(aliases[k].0.as_str()));
        }
        k = k + 1;
    }
    None
}

/// The end of the quoted literal that opens at `q`.
fn quoted_at_exec(v: &Vec<char>, q: usize) -> (r: Option<usize>)
    requires
        q <= v@.len(),
    ensures
        match r {
            Some(e) => quoted_at(v@, q as int) == e,
            None => quoted_at(v@, q as int) == -1,
        },
{
    if q >= v.len() || v[q] != '\'' {
        return None;
    }
    let mut i = q + 1;
    let mut pair: Option<usize> = None;
    loop
        invariant
            q < i <= v@.len(),
            match pair {
                Some(x) => x + 2 <= i,
                None => true,
            },
            quoted_at(v@, q as int) == quote_close(v@, i as int, match pair {
                Some(x) => x as int,
                None => -1,
            }),
        decreases v@.len() - i,
    {
        if i >= v.len() {
            return match pair {
                Some(x) => Some(x + 1),
                None => None,
            };
        } else if v[i] != '\'' {
            i = i + 1;
        } else if i + 1 < v.len() && v[i + 1] == '\'' {
            pair = Some(i);
            i = i + 2;
        } else {
            return Some(i + 1);
        }
    }
}

fn folds_to_exec(c: char, k: char) -> (r: bool)
    ensures
        r == folds_to(c, k),
{
    lower_code_exec(c) == k as u32 || (k == 's' && c == '\u{17f}')
}

/// Whether the lower-case word `kw` appears at `p`, case-insensitively.
fn keyword_at_exec(v: &Vec<char>, p: usize, kw: &Vec<char>) -> (r: bool)
    ensures
        r == keyword_at(v@, p as int, kw@),
{
    if kw.len() > v.len() || p > v.len() - kw.len() {
        return false;
    }
    let mut j: usize = 0;
    while j < kw.len()
        invariant
            p + kw@.len() <= v.len(),
            j <= kw@.len(),
            forall|m: int| 0 <= m < j ==> folds_to(#[trigger] v@[p + m], kw@[m]),
        decreases kw@.len() - j,
    {
        if !folds_to_exec(v[p + j], kw[j]) {
            return false;
        }
        j = j + 1;
    }
    true
}

/// Length of the `date` / `timestamp` word that can open a literal at `p`.
fn literal_keyword_exec(v: &Vec<char>, p: usize) -> (k: usize)
    requires
        p < v@.len(),
    ensures
        k == literal_keyword(v@, p as int),
{
    let before = p > 0 && is_word_char(v[p - 1]);
    let at = p < v.len() && is_word_char(v[p]);
    if before == at {
        return 0;
    }
    let date: Vec<char> = vec!['d', 'a', 't', 'e'];
    assert(date@ =~= date_word());
    if keyword_at_exec(v, p, &date) {
        return 4;
    }
    let timestamp: Vec<char> = vec!['t', 'i', 'm', 'e', 's', 't', 'a', 'm', 'p'];
    assert(timestamp@ =~= timestamp_word());
    if keyword_at_exec(v, p, &timestamp) {
        9
    } else {
        0
    }
}

/// The end of the literal that starts at `p`.
fn literal_at_exec(v: &Vec<char>, p: usize) -> (r: Option<usize>)
    requires
        p < v@.len(),
    ensures
        match r {
            Some(e) => literal_at(v@, p as int) == e,
            None => literal_at(v@, p as int) < 0,
        },
{
    let k = literal_keyword_exec(v, p);
    if k > 0 {
        proof {
            lemma_quote_close(v@, (p + 1) as int, -1);
        }
        assert(p + k <= v.len());
        let q = space_end_exec(v, p + k);
        if q > p + k {
            proof {
                lemma_space_end(v@, (p + k) as int);
            }
            if let Some(e) = quoted_at_exec(v, q) {
                return Some(e);
            }
        }
    }
    quoted_at_exec(v, p)
}

/// The first literal that starts at or after `i`.
fn next_literal_exec(v: &Vec<char>, i: usize) -> (r: Option<(usize, usize)>)
    requires
        i <= v@.len(),
    ensures
        match r {
            Some((a, b)) => next_literal(v@, i as int) == Some((a as int, b as int)),
            None => next_literal(v@, i as int) is None,
        },
{
    let mut p = i;
    while p < v.len()
        invariant
            i <= p <= v@.len(),
            next_literal(v@, i as int) == next_literal(v@, p as int),
        decreases v@.len() - p,
    {
        if let Some(e) = literal_at_exec(v, p) {
            return Some((p, e));
        }
        p = p + 1;
    }
    None
}

fn contains_dot(w: &Vec<char>) -> (r: bool)
    ensures
        r == w@.contains('.'),
{
    let mut i: usize = 0;
    while i < w.len()
        invariant
            i <= w@.len(),
            forall|j: int| 0 <= j < i ==> w@[j] != '.',
        decreases w@.len() - i,
    {
        if w[i] == '.' {
            assert(w@[i as int] == '.');
            return true;
        }
        i = i + 1;
    }
    false
}

fn float_filter_message(w: &Vec<char>, a: usize, b: usize) -> (r: String)
    requires
        a <= b <= w@.len(),
    ensures
        r@ == float_filter_error(w@.subrange(a as int, b as int)),
{
    let mut r = String::new();
    push_str(&mut r, "filtering on Array(Float) field '");
    push_range(&mut r, w, a, b);
    push_str(
        &mut r,
        "' is not supported in --where. Filter on a different field or store the values in a parallel scalar field.",
    );
    r
}

fn ambiguous_column_message(w: &Vec<char>, a: usize, b: usize) -> (r: String)
    requires
        a <= b <= w@.len(),
    ensures
        r@ == ambiguous_column_error(w@.subrange(a as int, b as int)),
{
    let mut r = String::new();
    push_str(&mut r, "ambiguous column '");
    push_range(&mut r, w, a, b);
    push_str(
        &mut r,
        "' in --where: it is both a frontmatter field and an internal column. Disambiguate by setting [search].internal_prefix (e.g. \"_\") or [search.aliases].",
    );
    push_range(&mut r, w, a, b);
    push_str(&mut r, " = \"<alias>\"");
    r
}

/// `data.` followed by `w`.
fn data_qualified(w: &Vec<char>) -> (r: String)
    ensures
        r@ == data_dot() + w@,
{
    let mut r = String::new();
    push_str(&mut r, "data.");
    proof {
        reveal_strlit("data.");
    }
    push_range(&mut r, w, 0, w.len());
    assert(w@.subrange(0, w@.len() as int) =~= w@);
    r
}

fn whole(w: &Vec<char>) -> (r: String)
    ensures
        r@ == w@,
{
    let mut r = String::new();
    push_range(&mut r, w, 0, w.len());
    assert(w@.subrange(0, w@.len() as int) =~= w@);
    r
}

/// What the dotted name `chain` becomes.
fn resolve_name_exec(
    chain: &Vec<char>,
    call: bool,
    children: &Vec<String>,
    floats: &Vec<String>,
    prefix: &Vec<char>,
    aliases: &Vec<(String, String)>,
) -> (r: Result<String, String>)
    ensures
        match r {
            Ok(x) => resolve_name(chain@, call, views(children@), views(floats@), prefix@, alias_views(aliases@)) == Ok::<Seq<char>, Seq<char>>(x@),
            Err(m) => resolve_name(chain@, call, views(children@), views(floats@), prefix@, alias_views(aliases@)) == Err::<Seq<char>, Seq<char>>(m@),
        },
{
    let ghost c = chain@;
    if call && !contains_dot(chain) {
        return Ok(whole(chain));
    }
    if is_sql_keyword_exec(chain) {
        return Ok(whole(chain));
    }
    let d = dot_from_exec(chain, 0);
    proof {
        lemma_dot_from(c, 0);
    }
    let ghost first = first_segment(c);
    assert(first == c.subrange(0, d as int));
    if let Some(col) = alias_lookup(aliases, chain, 0, d) {
        return Ok(col);
    }
    let plen = prefix.len();
    if plen > 0 && plen <= d && range_eq_str_vec(chain, 0, plen, prefix) && is_reserved_range(chain, plen, d) {
        proof {
            assert(prefix@.is_prefix_of(first)) by {
                assert(first.subrange(0, plen as int) =~= c.subrange(0, plen as int));
            }
            assert(first.skip(plen as int) =~= c.subrange(plen as int, d as int));
        }
        return Ok(crate::text::string_from_range(chain, plen, d));
    }
    proof {
        if plen > 0 && prefix@.is_prefix_of(first) {
            assert(first.subrange(0, plen as int) =~= c.subrange(0, plen as int));
            assert(first.skip(plen as int) =~= c.subrange(plen as int, d as int));
        }
    }
    if range_eq_str(chain, 0, d, COL_DATA) {
        if d < chain.len() {
            let d2 = dot_from_exec(chain, d + 1);
            proof {
                lemma_dot_from(c, d + 1);
            }
            if contains_range(floats, chain, d + 1, d2) {
                return Err(float_filter_message(chain, d + 1, d2));
            }
        }
    } else if contains_range(floats, chain, 0, d) {
        return Err(float_filter_message(chain, 0, d));
    }
    let reserved = is_reserved_range(chain, 0, d);
    if reserved && contains_range(children, chain, 0, d) {
        if plen > 0 || aliases.len() > 0 {
            Ok(data_qualified(chain))
        } else {
            Err(ambiguous_column_message(chain, 0, d))
        }
    } else if reserved {
        Ok(whole(chain))
    } else {
        Ok(data_qualified(chain))
    }
}

/// Whether `w[a..b]` equals `x`.
fn range_eq_str_vec(w: &Vec<char>, a: usize, b: usize, x: &Vec<char>) -> (r: bool)
    requires
        a <= b <= w@.len(),
    ensures
        r == (w@.subrange(a as int, b as int) == x@),
{
    if b - a != x.len() {
        proof {
            if w@.subrange(a as int, b as int) == x@ {
                assert(w@.subrange(a as int, b as int).len() == x@.len());
            }
        }
        return false;
    }
    let mut i: usize = 0;
    while i < x.len()
        invariant
            a <= b <= w@.len(),
            b - a == x@.len(),
            i <= x@.len(),
            forall|j: int| 0 <= j < i ==> w@[a + j] == x@[j],
        decreases x@.len() - i,
    {
        if w[a + i] != x[i] {
            proof {
                assert(w@.subrange(a as int, b as int)[i as int] != x@[i as int]);
            }
            return false;
        }
        i = i + 1;
    }
    assert(w@.subrange(a as int, b as int) =~= x@);
    true
}

proof fn lemma_prepend_prepend(a: Seq<char>, b: Seq<char>, r: Result<Seq<char>, Seq<char>>)
    ensures
        prepend(a, prepend(b, r)) == prepend(a + b, r),
{
    if let Ok(y) = r {
        assert(a + (b + y) =~= (a + b) + y);
    }
}

/// A stretch of the clause outside literals, every dotted name resolved.
fn rewrite_segment(
    seg: &Vec<char>,
    children: &Vec<String>,
    floats: &Vec<String>,
    prefix: &Vec<char>,
    aliases: &Vec<(String, String)>,
) -> (r: Result<String, String>)
    ensures
        match r {
            Ok(x) => rewrite_from(seg@, 0, views(children@), views(floats@), prefix@, alias_views(aliases@)) == Ok::<Seq<char>, Seq<char>>(x@),
            Err(m) => rewrite_from(seg@, 0, views(children@), views(floats@), prefix@, alias_views(aliases@)) == Err::<Seq<char>, Seq<char>>(m@),
        },
{
    let ghost s = seg@;
    let ghost ch = views(children@);
    let ghost fl = views(floats@);
    let ghost av = alias_views(aliases@);
    let mut out = String::new();
    let mut i: usize = 0;
    assert(prepend(out@, rewrite_from(s, 0, ch, fl, prefix@, av)) == rewrite_from(s, 0, ch, fl, prefix@, av)) by {
        if let Ok(y) = rewrite_from(s, 0, ch, fl, prefix@, av) {
            assert(out@ + y =~= y);
        }
    }
    while i < seg.len()
        invariant
            s == seg@,
            ch == views(children@),
            fl == views(floats@),
            av == alias_views(aliases@),
            i <= s.len(),
            rewrite_from(s, 0, ch, fl, prefix@, av) == prepend(out@, rewrite_from(s, i as int, ch, fl, prefix@, av)),
        decreases s.len() - i,
    {
        let p = next_ident_exec(seg, i);
        proof {
            lemma_next_ident(s, i as int);
        }
        if p >= seg.len() {
            let ghost before = out@;
            push_range(&mut out, seg, i, seg.len());
            proof {
                assert(out@ + Seq::<char>::empty() =~= out@);
            }
            i = seg.len();
        } else {
            let e = chain_end_exec(seg, p + 1);
            proof {
                lemma_chain_end(s, (p + 1) as int);
            }
            let chain = sub_vec(seg, p, e);
            let q = space_end_exec(seg, e);
            let call = q < seg.len() && seg[q] == '(';
            match resolve_name_exec(&chain, call, children, floats, prefix, aliases) {
                Err(m) => {
                    return Err(m);
                },
                Ok(x) => {
                    let ghost before = out@;
                    push_range(&mut out, seg, i, p);
                    push_str(&mut out, x.as_str());
                    proof {
                        lemma_prepend_prepend(before, s.subrange(i as int, p as int) + x@, rewrite_from(s, e as int, ch, fl, prefix@, av));
                        assert(before + (s.subrange(i as int, p as int) + x@) =~= out@);
                    }
                    i = e;
                },
            }
        }
    }
    proof {
        if let Ok(y) = rewrite_from(s, 0, ch, fl, prefix@, av) {
            assert(out@ + Seq::<char>::empty() =~= out@);
        }
    }
    Ok(out)
}

/// The translation of a whole clause, given the frontmatter fields of the
/// table (`children`), its `Array(Float)` fields, the internal-column prefix
/// and the `(column, alias)` pairs.
pub open spec fn translated_where(
    clause: Seq<char>,
    children: Seq<Seq<char>>,
    floats: Seq<Seq<char>>,
    prefix: Seq<char>,
    aliases: Seq<(Seq<char>, Seq<char>)>,
) -> Result<Seq<char>, Seq<char>> {
    translate_from(clause, 0, children, floats, prefix, aliases)
}

/// Rewrites a `--where` clause for the index table: quoted literals (with an
/// optional `date`/`timestamp` word) are kept as they are, and in the text
/// between them each dotted name is resolved as [`resolve_name`] says. The
/// first refusal, left to right, is the error.
pub fn translate_where_to_struct(
    clause: &str,
    data_children: &Vec<String>,
    float_list_fields: &Vec<String>,
    internal_prefix: &str,
    aliases: &Vec<(String, String)>,
) -> (r: Result<String, String>)
    ensures
        match r {
            Ok(x) => translated_where(clause@, views(data_children@), views(float_list_fields@), internal_prefix@, alias_views(aliases@)) == Ok::<Seq<char>, Seq<char>>(x@),
            Err(m) => translated_where(clause@, views(data_children@), views(float_list_fields@), internal_prefix@, alias_views(aliases@)) == Err::<Seq<char>, Seq<char>>(m@),
        },
{
    let v = chars_of(clause);
    let prefix = chars_of(internal_prefix);
    let ghost s = v@;
    let ghost ch = views(data_children@);
    let ghost fl = views(float_list_fields@);
    let ghost pf = internal_prefix@;
    let ghost av = alias_views(aliases@);
    let mut out = String::new();
    let mut from: usize = 0;
    assert(prepend(out@, translate_from(s, 0, ch, fl, pf, av)) == translate_from(s, 0, ch, fl, pf, av)) by {
        if let Ok(y) = translate_from(s, 0, ch, fl, pf, av) {
            assert(out@ + y =~= y);
        }
    }
    loop
        invariant
            s == v@,
            s == clause@,
            prefix@ == pf,
            pf == internal_prefix@,
            ch == views(data_children@),
            fl == views(float_list_fields@),
            av == alias_views(aliases@),
            from <= s.len(),
            translate_from(s, 0, ch, fl, pf, av) == prepend(out@, translate_from(s, from as int, ch, fl, pf, av)),
        decreases s.len() - from,
    {
        proof {
            lemma_next_literal(s, from as int);
        }
        match next_literal_exec(&v, from) {
            None => {
                let seg = sub_vec(&v, from, v.len());
                assert(translate_from(s, from as int, ch, fl, pf, av) == rewrite_from(seg@, 0, ch, fl, pf, av));
                match rewrite_segment(&seg, data_children, float_list_fields, &prefix, aliases) {
                    Err(m) => {
                        assert(translate_from(s, from as int, ch, fl, pf, av) == Err::<Seq<char>, Seq<char>>(m@));
                        assert(translate_from(s, 0, ch, fl, pf, av) == Err::<Seq<char>, Seq<char>>(m@));
                        return Err(m);
                    },
                    Ok(x) => {
                        push_str(&mut out, x.as_str());
                        assert(translate_from(s, 0, ch, fl, pf, av) == Ok::<Seq<char>, Seq<char>>(out@));
                        return Ok(out);
                    },
                }
            },
            Some((a, b)) => {
                let seg = sub_vec(&v, from, a);
                match rewrite_segment(&seg, data_children, float_list_fields, &prefix, aliases) {
                    Err(m) => {
                        return Err(m);
                    },
                    Ok(x) => {
                        let ghost before = out@;
                        push_str(&mut out, x.as_str());
                        push_range(&mut out, &v, a, b);
                        proof {
                            lemma_prepend_prepend(before, x@ + s.subrange(a as int, b as int), translate_from(s, b as int, ch, fl, pf, av));
                            assert(before + (x@ + s.subrange(a as int, b as int)) =~= out@);
                        }
                        from = b;
                    },
                }
            },
        }
    }
}

} // verus!
