//! Shared types of `mdvs.toml`: the on-disk field-type expression and its
//! parser, plus the scan, embedding-model and chunking sections.
//!
//! On disk a field type is a function-style string:
//!
//! ```text
//! Type   := Scalar | "Array(" Scalar ")"
//! Scalar := "String" | "Integer" | "Float" | "Boolean"
//! ```
//!
//! Whitespace (ASCII) may surround every token. `Object{...}`,
//! `Array(Object{...})`, `Array(Array(...))` and `@Name` references are
//! rejected with a 1-based column pointing at the offending token.

use vstd::prelude::*;
use crate::field_type::{FieldType, FieldTypeV, field_type_view, field_pairs_view, lemma_field_pairs_view};

use crate::text::{chars_of, owned, push_char, range_eq_str, str_eq, string_from_range};

verus! {

/// Serde-friendly representation of a field type.
///
/// The variants keep `Object` and the recursive `Array` shape so that
/// programmatic constructions can still describe these shapes; the parser
/// enforces what is legal on disk.
#[derive(Debug, PartialEq)]
pub enum FieldTypeSerde {
    /// A primitive type name: `"Boolean"`, `"Integer"`, `"Float"`, or `"String"`.
    Scalar(String),
    /// An array type with an inner element type.
    Array {
        /// Inner element type.
        array: Box<FieldTypeSerde>,
    },
    /// An object type with named sub-fields, in key order.
    Object {
        /// Sub-field names and their types.
        object: Vec<(String, FieldTypeSerde)>,
    },
}

/// Mathematical model of a [`FieldTypeSerde`].
pub enum FtsV {
    Scalar(Seq<char>),
    Array(Box<FtsV>),
    Object(Seq<(Seq<char>, FtsV)>),
}

pub open spec fn fts_view(t: FieldTypeSerde) -> FtsV
    decreases t,
{
    match t {
        FieldTypeSerde::Scalar(n) => FtsV::Scalar(n@),
        FieldTypeSerde::Array { array } => FtsV::Array(Box::new(fts_view(*array))),
        FieldTypeSerde::Object { object } => FtsV::Object(fts_pairs_view(object@)),
    }
}

pub open spec fn fts_pairs_view(s: Seq<(String, FieldTypeSerde)>) -> Seq<(Seq<char>, FtsV)>
    decreases s,
{
    if s.len() == 0 {
        Seq::empty()
    } else {
        seq![(s[0].0@, fts_view(s[0].1))] + fts_pairs_view(s.drop_first())
    }
}

impl View for FieldTypeSerde {
    type V = FtsV;

    open spec fn view(&self) -> FtsV {
        fts_view(*self)
    }
}

pub proof fn lemma_fts_pairs_view(s: Seq<(String, FieldTypeSerde)>)
    ensures
        fts_pairs_view(s).len() == s.len(),
        forall|j: int|
            0 <= j < s.len() ==> #[trigger] fts_pairs_view(s)[j] == (s[j].0@, fts_view(s[j].1)),
    decreases s.len(),
{
    if s.len() > 0 {
        lemma_fts_pairs_view(s.drop_first());
        assert forall|j: int| 0 <= j < s.len() implies #[trigger] fts_pairs_view(s)[j] == (
            s[j].0@,
            fts_view(s[j].1),
        ) by {
            if j > 0 {
                assert(s.drop_first()[j - 1] == s[j]);
            }
        }
    }
}

// ---------------------------------------------------------------------------
// Rendering
// ---------------------------------------------------------------------------

/// Function-style rendering: `Array(String)`, `Object{k: v, ...}`.
pub open spec fn fts_display(t: FtsV) -> Seq<char>
    decreases t,
{
    match t {
        FtsV::Scalar(n) => n,
        FtsV::Array(a) => "Array("@ + fts_display(*a) + ")"@,
        FtsV::Object(ps) => "Object{"@ + fts_pairs_display(ps) + "}"@,
    }
}

/// `k: v` entries separated by `, `.
pub open spec fn fts_pairs_display(ps: Seq<(Seq<char>, FtsV)>) -> Seq<char>
    decreases ps,
{
    if ps.len() == 0 {
        Seq::empty()
    } else {
        let head = ps[0].0 + ": "@ + fts_display(ps[0].1);
        if ps.len() == 1 {
            head
        } else {
            head + ", "@ + fts_pairs_display(ps.drop_first())
        }
    }
}

impl FieldTypeSerde {
    /// Function-style rendering, the on-disk form for scalars and arrays of
    /// scalars; objects render as `Object{k: v, ...}` for diagnostics.
    pub fn to_string(&self) -> (r: String)
        ensures
            r@ == fts_display(self@),
        decreases self, 0int,
    {
        match self {
            FieldTypeSerde::Scalar(name) => name.clone(),
            FieldTypeSerde::Array { array } => {
                let mut r = owned("Array(");
                let inner = array.to_string();
                r.append(inner.as_str());
                r.append(")");
                r
            },
            FieldTypeSerde::Object { object } => {
                let mut r = owned("Object{");
                proof {
                    lemma_fts_pairs_view(object@);
                    assert(object@.skip(0) =~= object@);
                }
                Self::append_pairs(object, 0, &mut r);
                r.append("}");
                r
            },
        }
    }

    fn append_pairs(v: &Vec<(String, FieldTypeSerde)>, i: usize, out: &mut String)
        requires
            i <= v@.len(),
        ensures
            final(out)@ == old(out)@ + fts_pairs_display(fts_pairs_view(v@.skip(i as int))),
        decreases v, v@.len() - i,
    {
        if i >= v.len() {
            proof {
                lemma_fts_pairs_view(v@.skip(i as int));
            }
            assert(out@ =~= out@ + Seq::<char>::empty());
            return;
        }
        let ghost rest = v@.skip(i as int);
        proof {
            lemma_fts_pairs_view(rest);
            lemma_fts_pairs_view(rest.drop_first());
            assert(rest.drop_first() =~= v@.skip(i + 1));
            assert(fts_pairs_view(rest).drop_first() =~= fts_pairs_view(rest.drop_first()));
            assert(fts_pairs_view(rest)[0] == (v@[i as int].0@, fts_view(v@[i as int].1)));
        }
        out.append(v[i].0.as_str());
        out.append(": ");
        let inner = v[i].1.to_string();
        out.append(inner.as_str());
        if i + 1 < v.len() {
            out.append(", ");
        }
        Self::append_pairs(v, i + 1, out);
        proof {
            let ps = fts_pairs_view(rest);
            let head = ps[0].0 + ": "@ + fts_display(ps[0].1);
            if ps.len() == 1 {
                assert(fts_pairs_view(v@.skip(i + 1)).len() == 0);
                assert(fts_pairs_display(ps) == head);
            } else {
                assert(fts_pairs_display(ps) == head + ", "@ + fts_pairs_display(ps.drop_first()));
            }
        }
    }
}

// ---------------------------------------------------------------------------
// Parsing
// ---------------------------------------------------------------------------

/// Error returned by [`FieldTypeSerde::parse`]: a human-readable message plus
/// the 1-based column where the offending token starts.
#[derive(Debug, PartialEq, Eq)]
pub struct ParseError {
    /// Human-readable error message.
    pub message: String,
    /// 1-based column offset of the offending token.
    pub column: usize,
}

/// `char::is_ascii_whitespace`: space, tab, line feed, form feed, carriage return.
pub open spec fn is_ascii_ws(c: char) -> bool {
    c == ' ' || c == '\t' || c == '\n' || c == '\x0C' || c == '\r'
}

/// Characters of a type name: ASCII letters and `_`.
pub open spec fn is_ident_char(c: char) -> bool {
    ('a' <= c && c <= 'z') || ('A' <= c && c <= 'Z') || c == '_'
}

/// First position at or after `p` that is not ASCII whitespace.
pub open spec fn skip_ws_from(s: Seq<char>, p: int) -> int
    decreases s.len() - p,
{
    if 0 <= p < s.len() && is_ascii_ws(s[p]) {
        skip_ws_from(s, p + 1)
    } else {
        p
    }
}

/// End of the run of name characters starting at `p`.
pub open spec fn ident_end_from(s: Seq<char>, p: int) -> int
    decreases s.len() - p,
{
    if 0 <= p < s.len() && is_ident_char(s[p]) {
        ident_end_from(s, p + 1)
    } else {
        p
    }
}

pub open spec fn is_scalar_name(id: Seq<char>) -> bool {
    id == "String"@ || id == "Integer"@ || id == "Float"@ || id == "Boolean"@
}

pub open spec fn msg_reference() -> Seq<char> {
    "reference syntax (@Name) is not supported in v0 (see TODO-0156)"@
}

pub open spec fn msg_expected_name() -> Seq<char> {
    "expected a type name (String, Integer, Float, Boolean, or Array(...))"@
}

pub open spec fn msg_expected_open() -> Seq<char> {
    "expected '(' after `Array`"@
}

pub open spec fn msg_expected_close() -> Seq<char> {
    "expected ')' to close `Array(...)`"@
}

pub open spec fn msg_object() -> Seq<char> {
    "Object types are not supported on disk (Wave C). Express nested structure via dotted-name leaves (e.g. `calibration.baseline.wavelength`)"@
}

pub open spec fn msg_unknown(id: Seq<char>) -> Seq<char> {
    "unknown type `"@ + id + "`. Expected one of String, Integer, Float, Boolean, or Array(...)"@
}

pub open spec fn msg_array_of_array() -> Seq<char> {
    "Array of Array is not supported"@
}

pub open spec fn msg_array_of_object() -> Seq<char> {
    "Array(Object{...}) is not supported in v0. Consider parallel scalar arrays (see TODO-0156)"@
}

pub open spec fn msg_unknown_inner(id: Seq<char>) -> Seq<char> {
    "unknown type `"@ + id + "` inside Array(...)"@
}

pub open spec fn msg_trailing() -> Seq<char> {
    "unexpected content after type expression"@
}

/// A parse step's outcome: the value and the position after it, or an
/// error message with its 1-based column.
pub type Step<T> = Result<(T, int), (Seq<char>, int)>;

/// The element type inside `Array(...)`: a scalar name only.
pub open spec fn parse_inner_at(s: Seq<char>, p: int) -> Step<FtsV> {
    let q = skip_ws_from(s, p);
    if q < s.len() && s[q] == '@' {
        Err((msg_reference(), q + 1))
    } else {
        let e = ident_end_from(s, q);
        if e == q {
            Err((msg_expected_name(), q + 1))
        } else {
            let id = s.subrange(q, e);
            if is_scalar_name(id) {
                Ok((FtsV::Scalar(id), e))
            } else if id == "Array"@ {
                Err((msg_array_of_array(), q + 1))
            } else if id == "Object"@ {
                Err((msg_array_of_object(), q + 1))
            } else {
                Err((msg_unknown_inner(id), q + 1))
            }
        }
    }
}

/// A type expression starting at `p`: a scalar name or `Array(` scalar `)`.
pub open spec fn parse_type_at(s: Seq<char>, p: int) -> Step<FtsV> {
    let q = skip_ws_from(s, p);
    if q < s.len() && s[q] == '@' {
        Err((msg_reference(), q + 1))
    } else {
        let e = ident_end_from(s, q);
        if e == q {
            Err((msg_expected_name(), q + 1))
        } else {
            let id = s.subrange(q, e);
            if is_scalar_name(id) {
                Ok((FtsV::Scalar(id), e))
            } else if id == "Array"@ {
                let a = skip_ws_from(s, e);
                if !(a < s.len() && s[a] == '(') {
                    Err((msg_expected_open(), a + 1))
                } else {
                    match parse_inner_at(s, a + 1) {
                        Err(err) => Err(err),
                        Ok((inner, e2)) => {
                            let c = skip_ws_from(s, e2);
                            if c < s.len() && s[c] == ')' {
                                Ok((FtsV::Array(Box::new(inner)), c + 1))
                            } else {
                                Err((msg_expected_close(), c + 1))
                            }
                        },
                    }
                }
            } else if id == "Object"@ {
                Err((msg_object(), q + 1))
            } else {
                Err((msg_unknown(id), q + 1))
            }
        }
    }
}

/// What [`FieldTypeSerde::parse`] gives for the input `s`: a whole-input
/// type expression, or the message and column of the first problem.
pub open spec fn parse_spec(s: Seq<char>) -> Result<FtsV, (Seq<char>, int)> {
    match parse_type_at(s, 0) {
        Err(err) => Err(err),
        Ok((t, e)) => {
            let w = skip_ws_from(s, e);
            if w < s.len() {
                Err((msg_trailing(), w + 1))
            } else {
                Ok(t)
            }
        },
    }
}

fn is_ws_char(c: char) -> (b: bool)
    ensures
        b == is_ascii_ws(c),
{
    c == ' ' || c == '\t' || c == '\n' || c == '\x0C' || c == '\r'
}

fn is_ident_char_exec(c: char) -> (b: bool)
    ensures
        b == is_ident_char(c),
{
    ('a' <= c && c <= 'z') || ('A' <= c && c <= 'Z') || c == '_'
}

struct Parser {
    input: Vec<char>,
    pos: usize,
}

impl Parser {
    spec fn wf(&self) -> bool {
        &&& self.pos <= self.input@.len()
        &&& self.input@.len() < usize::MAX
    }

    fn new(s: &str) -> (p: Parser)
        requires
            s@.len() < usize::MAX,
        ensures
            p.input@ == s@,
            p.pos == 0,
            p.wf(),
    {
        Parser { input: chars_of(s), pos: 0 }
    }

    fn at_end(&self) -> (b: bool)
        ensures
            b == (self.pos >= self.input@.len()),
    {
        self.pos >= self.input.len()
    }

    fn column(&self) -> (c: usize)
        requires
            self.wf(),
        ensures
            c == self.pos + 1,
    {
        self.pos + 1
    }

    fn peek(&self) -> (c: Option<char>)
        ensures
            c == (if self.pos < self.input@.len() {
                Some(self.input@[self.pos as int])
            } else {
                None::<char>
            }),
    {
        if self.pos < self.input.len() {
            Some(self.input[self.pos])
        } else {
            None
        }
    }

    fn skip_ws(&mut self)
        requires
            old(self).wf(),
        ensures
            final(self).wf(),
            final(self).input == old(self).input,
            final(self).pos == skip_ws_from(old(self).input@, old(self).pos as int),
    {
        while self.pos < self.input.len() && is_ws_char(self.input[self.pos])
            invariant
                self.wf(),
                self.input == old(self).input,
                skip_ws_from(self.input@, self.pos as int) == skip_ws_from(
                    old(self).input@,
                    old(self).pos as int,
                ),
            decreases self.input@.len() - self.pos,
        {
            self.pos = self.pos + 1;
        }
    }

    /// Skips whitespace, then reads a run of name characters. Returns the run's
    /// bounds, or an error when it is empty.
    fn parse_ident(&mut self) -> (r: Result<(usize, usize), ParseError>)
        requires
            old(self).wf(),
        ensures
            final(self).wf(),
            final(self).input == old(self).input,
            ({
                let q = skip_ws_from(old(self).input@, old(self).pos as int);
                let e = ident_end_from(old(self).input@, q);
                match r {
                    Ok((a, b)) => a == q && b == e && a < b && final(self).pos == e,
                    Err(err) => e == q && err.message@ == msg_expected_name() && err.column == q
                        + 1,
                }
            }),
    {
        self.skip_ws();
        let start = self.pos;
        while self.pos < self.input.len() && is_ident_char_exec(self.input[self.pos])
            invariant
                self.wf(),
                self.input == old(self).input,
                start <= self.pos,
                start == skip_ws_from(old(self).input@, old(self).pos as int),
                ident_end_from(self.input@, self.pos as int) == ident_end_from(
                    self.input@,
                    start as int,
                ),
            decreases self.input@.len() - self.pos,
        {
            self.pos = self.pos + 1;
        }
        if start == self.pos {
            return Err(
                ParseError {
                    message: owned(
                        "expected a type name (String, Integer, Float, Boolean, or Array(...))",
                    ),
                    column: start + 1,
                },
            );
        }
        Ok((start, self.pos))
    }

    /// Skips whitespace and consumes `c`, or reports what was expected.
    fn expect_char(&mut self, c: char, ctx: &str) -> (r: Result<(), ParseError>)
        requires
            old(self).wf(),
        ensures
            final(self).wf(),
            final(self).input == old(self).input,
            ({
                let q = skip_ws_from(old(self).input@, old(self).pos as int);
                let found = q < old(self).input@.len() && old(self).input@[q] == c;
                match r {
                    Ok(()) => found && final(self).pos == q + 1,
                    Err(err) => !found && err.message@ == "expected '"@ + seq![c] + "' "@ + ctx@
                        && err.column == q + 1,
                }
            }),
    {
        self.skip_ws();
        if self.peek() == Some(c) {
            self.pos = self.pos + 1;
            Ok(())
        } else {
            let mut message = owned("expected '");
            push_char(&mut message, c);
            message.append("' ");
            message.append(ctx);
            Err(ParseError { message, column: self.pos + 1 })
        }
    }

    fn scalar_of(&self, start: usize, end: usize) -> (r: Option<FieldTypeSerde>)
        requires
            start <= end <= self.input@.len(),
        ensures
            is_scalar_name(self.input@.subrange(start as int, end as int)) ==> (r matches Some(
                t,
            ) && t@ == FtsV::Scalar(self.input@.subrange(start as int, end as int))),
            !is_scalar_name(self.input@.subrange(start as int, end as int)) ==> r is None,
    {
        if range_eq_str(&self.input, start, end, "String") || range_eq_str(
            &self.input,
            start,
            end,
            "Integer",
        ) || range_eq_str(&self.input, start, end, "Float") || range_eq_str(
            &self.input,
            start,
            end,
            "Boolean",
        ) {
            Some(FieldTypeSerde::Scalar(string_from_range(&self.input, start, end)))
        } else {
            None
        }
    }

    fn parse_type(&mut self) -> (r: Result<FieldTypeSerde, ParseError>)
        requires
            old(self).wf(),
        ensures
            final(self).wf(),
            final(self).input == old(self).input,
            match r {
                Ok(t) => parse_type_at(old(self).input@, old(self).pos as int) == Ok::<
                    (FtsV, int),
                    (Seq<char>, int),
                >((t@, final(self).pos as int)),
                Err(err) => parse_type_at(old(self).input@, old(self).pos as int) == Err::<
                    (FtsV, int),
                    (Seq<char>, int),
                >((err.message@, err.column as int)),
            },
    {
        let ghost s = self.input@;
        self.skip_ws();
        if self.peek() == Some('@') {
            return Err(
                ParseError {
                    message: owned(
                        "reference syntax (@Name) is not supported in v0 (see TODO-0156)",
                    ),
                    column: self.pos + 1,
                },
            );
        }
        let ident_start = self.pos;
        proof {
            lemma_skip_ws_idempotent(s, old(self).pos as int);
        }
        let (start, end) = match self.parse_ident() {
            Ok(b) => b,
            Err(e) => {
                return Err(e);
            },
        };
        if let Some(t) = self.scalar_of(start, end) {
            return Ok(t);
        }
        if range_eq_str(&self.input, start, end, "Array") {
            match self.expect_char('(', "after `Array`") {
                Ok(()) => {},
                Err(e) => {
                    proof {
                        reveal_strlit("after `Array`");
                        reveal_strlit("expected '(' after `Array`");
                        reveal_strlit("expected '");
                        reveal_strlit("' ");
                        assert(e.message@ =~= msg_expected_open());
                    }
                    return Err(e);
                },
            }
            let inner = match self.parse_array_inner() {
                Ok(t) => t,
                Err(e) => {
                    return Err(e);
                },
            };
            match self.expect_char(')', "to close `Array(...)`") {
                Ok(()) => {},
                Err(e) => {
                    proof {
                        reveal_strlit("to close `Array(...)`");
                        reveal_strlit("expected ')' to close `Array(...)`");
                        reveal_strlit("expected '");
                        reveal_strlit("' ");
                        assert(e.message@ =~= msg_expected_close());
                    }
                    return Err(e);
                },
            }
            return Ok(FieldTypeSerde::Array { array: Box::new(inner) });
        }
        if range_eq_str(&self.input, start, end, "Object") {
            return Err(
                ParseError {
                    message: owned(
                        "Object types are not supported on disk (Wave C). Express nested structure via dotted-name leaves (e.g. `calibration.baseline.wavelength`)",
                    ),
                    column: ident_start + 1,
                },
            );
        }
        let mut message = owned("unknown type `");
        let name = string_from_range(&self.input, start, end);
        message.append(name.as_str());
        message.append("`. Expected one of String, Integer, Float, Boolean, or Array(...)");
        Err(ParseError { message, column: ident_start + 1 })
    }

    fn parse_array_inner(&mut self) -> (r: Result<FieldTypeSerde, ParseError>)
        requires
            old(self).wf(),
        ensures
            final(self).wf(),
            final(self).input == old(self).input,
            match r {
                Ok(t) => parse_inner_at(old(self).input@, old(self).pos as int) == Ok::<
                    (FtsV, int),
                    (Seq<char>, int),
                >((t@, final(self).pos as int)),
                Err(err) => parse_inner_at(old(self).input@, old(self).pos as int) == Err::<
                    (FtsV, int),
                    (Seq<char>, int),
                >((err.message@, err.column as int)),
            },
    {
        let ghost s = self.input@;
        self.skip_ws();
        if self.peek() == Some('@') {
            return Err(
                ParseError {
                    message: owned(
                        "reference syntax (@Name) is not supported in v0 (see TODO-0156)",
                    ),
                    column: self.pos + 1,
                },
            );
        }
        let inner_start = self.pos;
        proof {
            lemma_skip_ws_idempotent(s, old(self).pos as int);
        }
        let (start, end) = match self.parse_ident() {
            Ok(b) => b,
            Err(e) => {
                return Err(e);
            },
        };
        if let Some(t) = self.scalar_of(start, end) {
            return Ok(t);
        }
        if range_eq_str(&self.input, start, end, "Array") {
            return Err(
                ParseError {
                    message: owned("Array of Array is not supported"),
                    column: inner_start + 1,
                },
            );
        }
        if range_eq_str(&self.input, start, end, "Object") {
            return Err(
                ParseError {
                    message: owned(
                        "Array(Object{...}) is not supported in v0. Consider parallel scalar arrays (see TODO-0156)",
                    ),
                    column: inner_start + 1,
                },
            );
        }
        let mut message = owned("unknown type `");
        let name = string_from_range(&self.input, start, end);
        message.append(name.as_str());
        message.append("` inside Array(...)");
        Err(ParseError { message, column: inner_start + 1 })
    }
}

proof fn lemma_skip_ws_idempotent(s: Seq<char>, p: int)
    requires
        0 <= p <= s.len(),
    ensures
        skip_ws_from(s, skip_ws_from(s, p)) == skip_ws_from(s, p),
        p <= skip_ws_from(s, p) <= s.len(),
    decreases s.len() - p,
{
    if p < s.len() && is_ascii_ws(s[p]) {
        lemma_skip_ws_idempotent(s, p + 1);
    }
}

impl FieldTypeSerde {
    /// Parse a function-style type expression (`String`, `Array(Float)`, ...).
    ///
    /// Accepts the v0 grammar (Scalar | Array(Scalar)); rejects every other
    /// shape with a message and the column of the offending token.
    pub fn parse(s: &str) -> (r: Result<FieldTypeSerde, ParseError>)
        requires
            s@.len() < usize::MAX,
        ensures
            match r {
                Ok(t) => parse_spec(s@) == Ok::<FtsV, (Seq<char>, int)>(t@),
                Err(e) => parse_spec(s@) == Err::<FtsV, (Seq<char>, int)>(
                    (e.message@, e.column as int),
                ),
            },
    {
        let mut p = Parser::new(s);
        let ty = match p.parse_type() {
            Ok(t) => t,
            Err(e) => {
                return Err(e);
            },
        };
        p.skip_ws();
        if !p.at_end() {
            return Err(
                ParseError {
                    message: owned("unexpected content after type expression"),
                    column: p.column(),
                },
            );
        }
        Ok(ty)
    }
}

} // verus!

verus! {

/// The types the on-disk grammar can express: a scalar name, or an array of one.
pub open spec fn is_v0_type(t: FtsV) -> bool {
    match t {
        FtsV::Scalar(n) => is_scalar_name(n),
        FtsV::Array(a) => match *a {
            FtsV::Scalar(n) => is_scalar_name(n),
            _ => false,
        },
        FtsV::Object(_) => false,
    }
}

proof fn lemma_ident_end(s: Seq<char>, p: int, e: int)
    requires
        0 <= p <= e <= s.len(),
        forall|i: int| p <= i < e ==> is_ident_char(#[trigger] s[i]),
        e == s.len() || !is_ident_char(s[e]),
    ensures
        ident_end_from(s, p) == e,
    decreases e - p,
{
    if p < e {
        lemma_ident_end(s, p + 1, e);
    }
}

proof fn lemma_scalar_name_chars(n: Seq<char>)
    requires
        is_scalar_name(n),
    ensures
        n.len() > 0,
        forall|i: int| 0 <= i < n.len() ==> is_ident_char(#[trigger] n[i]),
{
    reveal_strlit("String");
    reveal_strlit("Integer");
    reveal_strlit("Float");
    reveal_strlit("Boolean");
}

/// Rendering a type the on-disk grammar can express and parsing the text
/// back gives the same type.
pub proof fn lemma_parse_display_roundtrip(t: FtsV)
    requires
        is_v0_type(t),
    ensures
        parse_spec(fts_display(t)) == Ok::<FtsV, (Seq<char>, int)>(t),
{
    let s = fts_display(t);
    reveal_strlit("Array(");
    reveal_strlit(")");
    reveal_strlit("Array");
    reveal_strlit("String");
    reveal_strlit("Integer");
    reveal_strlit("Float");
    reveal_strlit("Boolean");
    match t {
        FtsV::Scalar(n) => {
            lemma_scalar_name_chars(n);
            assert(s == n);
            assert(is_ident_char(s[0]));
            assert(skip_ws_from(s, 0) == 0);
            lemma_ident_end(s, 0, s.len() as int);
            assert(s.subrange(0, s.len() as int) =~= n);
            assert(skip_ws_from(s, s.len() as int) == s.len());
            assert(s[0] != '@');
            assert(ident_end_from(s, 0) == s.len());
            assert(parse_type_at(s, 0) == Ok::<(FtsV, int), (Seq<char>, int)>((FtsV::Scalar(n), s.len() as int)));
            assert(parse_spec(s) == Ok::<FtsV, (Seq<char>, int)>(FtsV::Scalar(n)));
            assert(t == FtsV::Scalar(n));
            assert(parse_spec(fts_display(t)) == Ok::<FtsV, (Seq<char>, int)>(t));
        },
        FtsV::Array(a) => {
            if let FtsV::Scalar(n) = *a {
                lemma_scalar_name_chars(n);
                let m = n.len() as int;
                assert(fts_display(*a) == n);
                assert(s =~= "Array("@ + n + ")"@);
                assert(skip_ws_from(s, 0) == 0);
                assert(skip_ws_from(s, 5) == 5);
                assert(is_ident_char(s[6]));
                assert(skip_ws_from(s, 6) == 6);
                assert(s.len() == m + 7);
                assert(s[5] == '(');
                lemma_ident_end(s, 0, 5);
                assert(s.subrange(0, 5) =~= "Array"@);
                assert forall|i: int| 6 <= i < 6 + m implies is_ident_char(#[trigger] s[i]) by {
                    assert(s[i] == n[i - 6]);
                }
                assert(s[6 + m] == ')');
                lemma_ident_end(s, 6, 6 + m);
                assert(s.subrange(6, 6 + m) =~= n);
                assert(skip_ws_from(s, 6 + m) == 6 + m);
                assert(skip_ws_from(s, 7 + m) == 7 + m);
                assert(s[6] != '@');
                assert(parse_inner_at(s, 6) == Ok::<(FtsV, int), (Seq<char>, int)>((FtsV::Scalar(n), 6 + m)));
                assert(s[0] != '@');
                assert(ident_end_from(s, 0) == 5);
                assert(s.subrange(0, 5) == "Array"@);
                assert("Array"@ != "Float"@) by {
                    assert("Array"@[0] != "Float"@[0]);
                }
                assert(!is_scalar_name(s.subrange(0, 5)));
                assert(skip_ws_from(s, 5) == 5 && s[5] == '(');
                assert(skip_ws_from(s, 6 + m) == 6 + m && s[6 + m] == ')');
                assert(parse_type_at(s, 0) == Ok::<(FtsV, int), (Seq<char>, int)>((FtsV::Array(Box::new(FtsV::Scalar(n))), 7 + m)));
                assert(t == FtsV::Array(Box::new(FtsV::Scalar(n))));
            }
        },
        FtsV::Object(_) => {},
    }
}

/// Everything the parser accepts is a type the on-disk grammar expresses.
pub proof fn lemma_parse_accepts_only_v0(s: Seq<char>)
    ensures
        parse_spec(s) matches Ok(t) ==> is_v0_type(t),
{
}

} // verus!

verus! {

// ---------------------------------------------------------------------------
// Conversions between FieldType and FieldTypeSerde
// ---------------------------------------------------------------------------

/// The serde form of a field type: scalar types by name, arrays and objects
/// structurally.
pub open spec fn serde_of(t: FieldTypeV) -> FtsV
    decreases t,
{
    match t {
        FieldTypeV::Boolean => FtsV::Scalar("Boolean"@),
        FieldTypeV::Integer => FtsV::Scalar("Integer"@),
        FieldTypeV::Float => FtsV::Scalar("Float"@),
        FieldTypeV::String => FtsV::Scalar("String"@),
        FieldTypeV::Date => FtsV::Scalar("Date"@),
        FieldTypeV::DateTime => FtsV::Scalar("DateTime"@),
        FieldTypeV::Array(a) => FtsV::Array(Box::new(serde_of(*a))),
        FieldTypeV::Object(ps) => FtsV::Object(serde_pairs_of(ps)),
    }
}

pub open spec fn serde_pairs_of(ps: Seq<(Seq<char>, FieldTypeV)>) -> Seq<(Seq<char>, FtsV)>
    decreases ps,
{
    if ps.len() == 0 {
        Seq::empty()
    } else {
        seq![(ps[0].0, serde_of(ps[0].1))] + serde_pairs_of(ps.drop_first())
    }
}

/// The field type a serde form denotes, or the message for the first
/// unknown scalar name (objects are checked in key order).
pub open spec fn type_of(t: FtsV) -> Result<FieldTypeV, Seq<char>>
    decreases t,
{
    match t {
        FtsV::Scalar(n) => if n == "Boolean"@ {
            Ok(FieldTypeV::Boolean)
        } else if n == "Integer"@ {
            Ok(FieldTypeV::Integer)
        } else if n == "Float"@ {
            Ok(FieldTypeV::Float)
        } else if n == "String"@ {
            Ok(FieldTypeV::String)
        } else {
            Err("unknown type: "@ + n)
        },
        FtsV::Array(a) => match type_of(*a) {
            Ok(inner) => Ok(FieldTypeV::Array(Box::new(inner))),
            Err(e) => Err(e),
        },
        FtsV::Object(ps) => match type_pairs_of(ps) {
            Ok(fields) => Ok(FieldTypeV::Object(fields)),
            Err(e) => Err(e),
        },
    }
}

pub open spec fn type_pairs_of(ps: Seq<(Seq<char>, FtsV)>) -> Result<
    Seq<(Seq<char>, FieldTypeV)>,
    Seq<char>,
>
    decreases ps,
{
    if ps.len() == 0 {
        Ok(Seq::empty())
    } else {
        match type_of(ps[0].1) {
            Err(e) => Err(e),
            Ok(head) => match type_pairs_of(ps.drop_first()) {
                Err(e) => Err(e),
                Ok(rest) => Ok(seq![(ps[0].0, head)] + rest),
            },
        }
    }
}

impl FieldTypeSerde {
    /// The serde form of `ft` (`FieldTypeSerde::from(&ft)`).
    pub fn from(ft: &FieldType) -> (r: FieldTypeSerde)
        ensures
            r@ == serde_of(ft@),
        decreases ft, 0int,
    {
        match ft {
            FieldType::Boolean => FieldTypeSerde::Scalar(owned("Boolean")),
            FieldType::Integer => FieldTypeSerde::Scalar(owned("Integer")),
            FieldType::Float => FieldTypeSerde::Scalar(owned("Float")),
            FieldType::String => FieldTypeSerde::Scalar(owned("String")),
            FieldType::Date => FieldTypeSerde::Scalar(owned("Date")),
            FieldType::DateTime => FieldTypeSerde::Scalar(owned("DateTime")),
            FieldType::Array(inner) => FieldTypeSerde::Array {
                array: Box::new(FieldTypeSerde::from(inner)),
            },
            FieldType::Object(fields) => {
                let mut out: Vec<(String, FieldTypeSerde)> = Vec::new();
                proof {
                    lemma_field_pairs_view(fields@);
                    assert(field_pairs_view(fields@).skip(0) =~= field_pairs_view(fields@));
                }
                Self::from_pairs(fields, 0, &mut out);
                assert(fts_pairs_view(out@) =~= fts_pairs_view(out@).skip(0));
                FieldTypeSerde::Object { object: out }
            },
        }
    }

    fn from_pairs(v: &Vec<(String, FieldType)>, i: usize, out: &mut Vec<(String, FieldTypeSerde)>)
        requires
            i <= v@.len(),
        ensures
            fts_pairs_view(final(out)@) == fts_pairs_view(old(out)@) + serde_pairs_of(
                field_pairs_view(v@).skip(i as int),
            ),
        decreases v, v@.len() - i,
    {
        proof {
            lemma_field_pairs_view(v@);
        }
        if i >= v.len() {
            assert(field_pairs_view(v@).skip(i as int) =~= Seq::empty());
            assert(fts_pairs_view(out@) =~= fts_pairs_view(out@) + Seq::empty());
            return;
        }
        let name = v[i].0.clone();
        let t = FieldTypeSerde::from(&v[i].1);
        let ghost prev = out@;
        out.push((name, t));
        proof {
            lemma_fts_pairs_append(prev, (name, t));
            let rest = field_pairs_view(v@).skip(i as int);
            assert(rest.drop_first() =~= field_pairs_view(v@).skip(i + 1));
            assert(rest[0] == (v@[i as int].0@, field_type_view(v@[i as int].1)));
        }
        Self::from_pairs(v, i + 1, out);
        proof {
            let rest = field_pairs_view(v@).skip(i as int);
            assert(serde_pairs_of(rest) == seq![(rest[0].0, serde_of(rest[0].1))]
                + serde_pairs_of(rest.drop_first()));
            assert(fts_pairs_view(prev) + seq![(name@, fts_view(t))] + serde_pairs_of(rest.drop_first())
                =~= fts_pairs_view(prev) + serde_pairs_of(rest));
        }
    }
}

pub proof fn lemma_fts_pairs_append(s: Seq<(String, FieldTypeSerde)>, x: (String, FieldTypeSerde))
    ensures
        fts_pairs_view(s.push(x)) == fts_pairs_view(s) + seq![(x.0@, fts_view(x.1))],
{
    lemma_fts_pairs_view(s);
    lemma_fts_pairs_view(s.push(x));
    assert(fts_pairs_view(s.push(x)) =~= fts_pairs_view(s) + seq![(x.0@, fts_view(x.1))]);
}

pub proof fn lemma_field_pairs_append(s: Seq<(String, FieldType)>, x: (String, FieldType))
    ensures
        field_pairs_view(s.push(x)) == field_pairs_view(s) + seq![(x.0@, field_type_view(x.1))],
{
    lemma_field_pairs_view(s);
    lemma_field_pairs_view(s.push(x));
    assert(field_pairs_view(s.push(x)) =~= field_pairs_view(s) + seq![(x.0@, field_type_view(x.1))]);
}

impl FieldType {
    /// The field type a serde form denotes (`FieldType::try_from(&s)`); an
    /// unknown scalar name gives `unknown type: <name>`.
    pub fn try_from(s: &FieldTypeSerde) -> (r: Result<FieldType, String>)
        ensures
            match r {
                Ok(t) => type_of(s@) == Ok::<FieldTypeV, Seq<char>>(t@),
                Err(e) => type_of(s@) == Err::<FieldTypeV, Seq<char>>(e@),
            },
        decreases s, 0int,
    {
        match s {
            FieldTypeSerde::Scalar(name) => {
                let n = name.as_str();
                if str_eq(n, "Boolean") {
                    Ok(FieldType::Boolean)
                } else if str_eq(n, "Integer") {
                    Ok(FieldType::Integer)
                } else if str_eq(n, "Float") {
                    Ok(FieldType::Float)
                } else if str_eq(n, "String") {
                    Ok(FieldType::String)
                } else {
                    let mut m = owned("unknown type: ");
                    m.append(n);
                    Err(m)
                }
            },
            FieldTypeSerde::Array { array } => match FieldType::try_from(array) {
                Ok(inner) => Ok(FieldType::Array(Box::new(inner))),
                Err(e) => Err(e),
            },
            FieldTypeSerde::Object { object } => {
                let mut out: Vec<(String, FieldType)> = Vec::new();
                proof {
                    lemma_fts_pairs_view(object@);
                    assert(fts_pairs_view(object@).skip(0) =~= fts_pairs_view(object@));
                    assert(field_pairs_view(out@) =~= Seq::empty());
                }
                match Self::from_serde_pairs(object, 0, &mut out) {
                    Ok(()) => {
                        assert(Seq::<(Seq<char>, FieldTypeV)>::empty() + field_pairs_view(out@) =~= field_pairs_view(out@));
                        Ok(FieldType::Object(out))
                    },
                    Err(e) => Err(e),
                }
            },
        }
    }

    fn from_serde_pairs(
        v: &Vec<(String, FieldTypeSerde)>,
        i: usize,
        out: &mut Vec<(String, FieldType)>,
    ) -> (r: Result<(), String>)
        requires
            i <= v@.len(),
        ensures
            match (r, type_pairs_of(fts_pairs_view(v@).skip(i as int))) {
                (Ok(()), Ok(rest)) => field_pairs_view(final(out)@) == field_pairs_view(old(out)@)
                    + rest,
                (Err(e), Err(m)) => e@ == m,
                _ => false,
            },
        decreases v, v@.len() - i,
    {
        proof {
            lemma_fts_pairs_view(v@);
        }
        if i >= v.len() {
            assert(fts_pairs_view(v@).skip(i as int) =~= Seq::empty());
            assert(field_pairs_view(out@) =~= field_pairs_view(out@) + Seq::empty());
            return Ok(());
        }
        let ghost rest = fts_pairs_view(v@).skip(i as int);
        proof {
            assert(rest.drop_first() =~= fts_pairs_view(v@).skip(i + 1));
            assert(rest[0] == (v@[i as int].0@, fts_view(v@[i as int].1)));
        }
        let t = match FieldType::try_from(&v[i].1) {
            Ok(t) => t,
            Err(e) => {
                return Err(e);
            },
        };
        let name = v[i].0.clone();
        let ghost prev = out@;
        out.push((name, t));
        proof {
            lemma_field_pairs_append(prev, (name, t));
        }
        let r = Self::from_serde_pairs(v, i + 1, out);
        proof {
            if r is Ok {
                let tail = type_pairs_of(rest.drop_first())->Ok_0;
                assert(field_pairs_view(prev) + seq![(name@, field_type_view(t))] + tail
                    =~= field_pairs_view(prev) + (seq![(rest[0].0, field_type_view(t))] + tail));
            }
        }
        r
    }
}

} // verus!

verus! {

/// Configuration for file scanning (`[scan]` in `mdvs.toml`).
#[derive(Debug, PartialEq)]
pub struct ScanConfig {
    /// Glob pattern for matching markdown files.
    pub glob: String,
    /// Whether to include files without YAML frontmatter.
    pub include_bare_files: bool,
    /// Skip reading `.gitignore` patterns during scan.
    pub skip_gitignore: bool,
}

/// Embedding model identity (`[embedding_model]` in `mdvs.toml`).
#[derive(Debug, Clone, PartialEq, Eq)]
pub struct EmbeddingModelConfig {
    /// Provider name (e.g. `"model2vec"`).
    pub provider: String,
    /// HuggingFace model ID (e.g. `"minishlab/potion-base-8M"`).
    pub name: String,
    /// Pinned revision (commit SHA).
    pub revision: Option<String>,
    /// Embedding dimension for providers that take one (the mock provider).
    pub dim: Option<usize>,
}

/// Chunking settings (`[chunking]` in `mdvs.toml`).
#[derive(Debug, Clone, PartialEq, Eq)]
pub struct ChunkingConfig {
    /// Maximum chunk size in characters.
    pub max_chunk_size: usize,
}

/// Provider used when `[embedding_model]` names none.
pub fn default_provider() -> (r: String)
    ensures
        r@ == "model2vec"@,
{
    owned("model2vec")
}

} // verus!
