//! TOML values as they appear in constraint settings (`categories`, `min`,
//! `max`).
//!
//! A float is held by its IEEE-754 bit pattern, which is all the logic needs
//! to compare it exactly, together with the text TOML renders for it.

use vstd::prelude::*;
use crate::text::{bool_string, i64_string, owned, push_char, push_str, signed_decimal};

verus! {

/// A float: its IEEE-754 binary64 bit pattern and its renderings.
#[derive(Debug, PartialEq)]
pub struct TomlFloat {
    /// `f64::to_bits` of the value.
    pub bits: u64,
    /// The value as TOML writes it (e.g. `1.0`, `-0.0`, `inf`).
    pub text: String,
    /// The value as Rust's `Display` for `f64` writes it (e.g. `1`, `-0`, `inf`).
    pub display: String,
    /// The value as `serde_json` writes it (e.g. `1.0`, `1e20`; `null` when
    /// not finite).
    pub json: String,
}

/// Model of a [`TomlFloat`].
pub struct FloatV {
    pub bits: u64,
    pub text: Seq<char>,
    pub display: Seq<char>,
    pub json: Seq<char>,
}

impl View for TomlFloat {
    type V = FloatV;

    open spec fn view(&self) -> FloatV {
        FloatV { bits: self.bits, text: self.text@, display: self.display@, json: self.json@ }
    }
}

impl TomlFloat {
    /// A copy.
    pub fn duplicate(&self) -> (r: TomlFloat)
        ensures
            r@ == self@,
    {
        TomlFloat {
            bits: self.bits,
            text: self.text.clone(),
            display: self.display.clone(),
            json: self.json.clone(),
        }
    }
}

/// A TOML value.
#[derive(Debug, PartialEq)]
pub enum TomlValue {
    /// A string.
    String(String),
    /// A 64-bit signed integer.
    Integer(i64),
    /// A float.
    Float(TomlFloat),
    /// `true` / `false`.
    Boolean(bool),
    /// An offset or local date-time, date or time, in its TOML text form.
    Datetime(String),
    /// An array of values.
    Array(Vec<TomlValue>),
    /// A table: keys and values in order.
    Table(Vec<(String, TomlValue)>),
}

/// Mathematical model of a [`TomlValue`].
pub enum TomlV {
    String(Seq<char>),
    Integer(int),
    Float(FloatV),
    Boolean(bool),
    Datetime(Seq<char>),
    Array(Seq<TomlV>),
    Table(Seq<(Seq<char>, TomlV)>),
}

pub open spec fn toml_view(v: TomlValue) -> TomlV
    decreases v,
{
    match v {
        TomlValue::String(s) => TomlV::String(s@),
        TomlValue::Integer(n) => TomlV::Integer(n as int),
        TomlValue::Float(f) => TomlV::Float(f@),
        TomlValue::Boolean(b) => TomlV::Boolean(b),
        TomlValue::Datetime(s) => TomlV::Datetime(s@),
        TomlValue::Array(items) => TomlV::Array(toml_items_view(items@)),
        TomlValue::Table(entries) => TomlV::Table(toml_entries_view(entries@)),
    }
}

pub open spec fn toml_items_view(s: Seq<TomlValue>) -> Seq<TomlV>
    decreases s,
{
    if s.len() == 0 {
        Seq::empty()
    } else {
        seq![toml_view(s[0])] + toml_items_view(s.drop_first())
    }
}

pub open spec fn toml_entries_view(s: Seq<(String, TomlValue)>) -> Seq<(Seq<char>, TomlV)>
    decreases s,
{
    if s.len() == 0 {
        Seq::empty()
    } else {
        seq![(s[0].0@, toml_view(s[0].1))] + toml_entries_view(s.drop_first())
    }
}

impl View for TomlValue {
    type V = TomlV;

    open spec fn view(&self) -> TomlV {
        toml_view(*self)
    }
}

/// `toml::Value::type_str`.
pub open spec fn type_str_spec(v: TomlV) -> Seq<char> {
    match v {
        TomlV::String(_) => "string"@,
        TomlV::Integer(_) => "integer"@,
        TomlV::Float(_) => "float"@,
        TomlV::Boolean(_) => "boolean"@,
        TomlV::Datetime(_) => "datetime"@,
        TomlV::Array(_) => "array"@,
        TomlV::Table(_) => "table"@,
    }
}

/// A string as a TOML basic string: double quotes, with `"` and `\`
/// backslash-escaped and line breaks and tabs written as escapes.
pub open spec fn quote_char(c: char) -> Seq<char> {
    if c == '"' {
        seq!['\\', '"']
    } else if c == '\\' {
        seq!['\\', '\\']
    } else if c == '\n' {
        seq!['\\', 'n']
    } else if c == '\r' {
        seq!['\\', 'r']
    } else if c == '\t' {
        seq!['\\', 't']
    } else {
        seq![c]
    }
}

pub open spec fn quote_body(s: Seq<char>) -> Seq<char>
    decreases s.len(),
{
    if s.len() == 0 {
        Seq::empty()
    } else {
        quote_body(s.drop_last()) + quote_char(s.last())
    }
}

pub open spec fn quoted(s: Seq<char>) -> Seq<char> {
    seq!['"'] + quote_body(s) + seq!['"']
}

/// The TOML inline rendering of a value, as shown in diagnostics.
pub open spec fn toml_text(v: TomlV) -> Seq<char>
    decreases v,
{
    match v {
        TomlV::String(s) => quoted(s),
        TomlV::Integer(n) => signed_decimal(n),
        TomlV::Float(f) => f.text,
        TomlV::Boolean(b) => if b { "true"@ } else { "false"@ },
        TomlV::Datetime(t) => t,
        TomlV::Array(items) => seq!['['] + toml_items_text(items) + seq![']'],
        TomlV::Table(entries) => if entries.len() == 0 {
            "{}"@
        } else {
            "{ "@ + toml_entries_text(entries) + " }"@
        },
    }
}

pub open spec fn toml_items_text(items: Seq<TomlV>) -> Seq<char>
    decreases items,
{
    if items.len() == 0 {
        Seq::empty()
    } else if items.len() == 1 {
        toml_text(items[0])
    } else {
        toml_text(items[0]) + ", "@ + toml_items_text(items.drop_first())
    }
}

pub open spec fn toml_entries_text(entries: Seq<(Seq<char>, TomlV)>) -> Seq<char>
    decreases entries,
{
    if entries.len() == 0 {
        Seq::empty()
    } else {
        let head = entries[0].0 + " = "@ + toml_text(entries[0].1);
        if entries.len() == 1 {
            head
        } else {
            head + ", "@ + toml_entries_text(entries.drop_first())
        }
    }
}

pub proof fn lemma_toml_items_view(s: Seq<TomlValue>)
    ensures
        toml_items_view(s).len() == s.len(),
        forall|j: int| 0 <= j < s.len() ==> #[trigger] toml_items_view(s)[j] == toml_view(s[j]),
    decreases s.len(),
{
    if s.len() > 0 {
        lemma_toml_items_view(s.drop_first());
        assert forall|j: int| 0 <= j < s.len() implies #[trigger] toml_items_view(s)[j]
            == toml_view(s[j]) by {
            if j > 0 {
                assert(s.drop_first()[j - 1] == s[j]);
            }
        }
    }
}

pub proof fn lemma_toml_entries_view(s: Seq<(String, TomlValue)>)
    ensures
        toml_entries_view(s).len() == s.len(),
        forall|j: int|
            0 <= j < s.len() ==> #[trigger] toml_entries_view(s)[j] == (
                s[j].0@,
                toml_view(s[j].1),
            ),
    decreases s.len(),
{
    if s.len() > 0 {
        lemma_toml_entries_view(s.drop_first());
        assert forall|j: int| 0 <= j < s.len() implies #[trigger] toml_entries_view(s)[j] == (
            s[j].0@,
            toml_view(s[j].1),
        ) by {
            if j > 0 {
                assert(s.drop_first()[j - 1] == s[j]);
            }
        }
    }
}

/// Appends the quoted form of `s`.
fn push_quoted(out: &mut String, s: &String)
    ensures
        final(out)@ == old(out)@ + quoted(s@),
{
    let v = crate::text::chars_of(s.as_str());
    push_char(out, '"');
    let ghost start = out@;
    let mut i: usize = 0;
    while i < v.len()
        invariant
            v@ == s@,
            i <= v@.len(),
            out@ == start + quote_body(v@.take(i as int)),
        decreases v@.len() - i,
    {
        let c = v[i];
        if c == '"' {
            push_char(out, '\\');
            push_char(out, '"');
        } else if c == '\\' {
            push_char(out, '\\');
            push_char(out, '\\');
        } else if c == '\n' {
            push_char(out, '\\');
            push_char(out, 'n');
        } else if c == '\r' {
            push_char(out, '\\');
            push_char(out, 'r');
        } else if c == '\t' {
            push_char(out, '\\');
            push_char(out, 't');
        } else {
            push_char(out, c);
        }
        proof {
            assert(v@.take(i + 1).drop_last() =~= v@.take(i as int));
            assert(v@.take(i + 1).last() == c);
        }
        i = i + 1;
        assert(out@ =~= start + quote_body(v@.take(i as int)));
    }
    push_char(out, '"');
    assert(v@.take(v@.len() as int) =~= s@);
    assert(out@ =~= old(out)@ + quoted(s@));
}

impl TomlValue {
    /// `toml::Value::type_str`: the value's kind in lower case.
    pub fn type_str(&self) -> (r: &'static str)
        ensures
            r@ == type_str_spec(self@),
    {
        match self {
            TomlValue::String(_) => "string",
            TomlValue::Integer(_) => "integer",
            TomlValue::Float(_) => "float",
            TomlValue::Boolean(_) => "boolean",
            TomlValue::Datetime(_) => "datetime",
            TomlValue::Array(_) => "array",
            TomlValue::Table(_) => "table",
        }
    }

    /// Whether the value is a string.
    pub fn is_str(&self) -> (b: bool)
        ensures
            b == (self@ is String),
    {
        match self {
            TomlValue::String(_) => true,
            _ => false,
        }
    }

    /// Whether the value is an integer.
    pub fn is_integer(&self) -> (b: bool)
        ensures
            b == (self@ is Integer),
    {
        match self {
            TomlValue::Integer(_) => true,
            _ => false,
        }
    }

    /// The TOML inline rendering of the value.
    pub fn to_string(&self) -> (r: String)
        ensures
            r@ == toml_text(self@),
    {
        let mut r = String::new();
        self.append_text(&mut r);
        assert(r@ =~= toml_text(self@));
        r
    }

    fn append_text(&self, out: &mut String)
        ensures
            final(out)@ == old(out)@ + toml_text(self@),
        decreases self, 0int,
    {
        match self {
            TomlValue::String(s) => push_quoted(out, s),
            TomlValue::Integer(n) => {
                let t = i64_string(*n);
                push_str(out, t.as_str());
            },
            TomlValue::Float(f) => push_str(out, f.text.as_str()),
            TomlValue::Boolean(b) => {
                let t = bool_string(*b);
                push_str(out, t.as_str());
            },
            TomlValue::Datetime(t) => push_str(out, t.as_str()),
            TomlValue::Array(items) => {
                push_char(out, '[');
                proof {
                    lemma_toml_items_view(items@);
                    assert(items@.skip(0) =~= items@);
                }
                Self::append_items(items, 0, out);
                push_char(out, ']');
                assert(out@ =~= old(out)@ + toml_text(self@));
            },
            TomlValue::Table(entries) => {
                if entries.len() == 0 {
                    proof {
                        lemma_toml_entries_view(entries@);
                    }
                    push_str(out, "{}");
                } else {
                    push_str(out, "{ ");
                    proof {
                        lemma_toml_entries_view(entries@);
                        assert(entries@.skip(0) =~= entries@);
                    }
                    Self::append_entries(entries, 0, out);
                    push_str(out, " }");
                    assert(out@ =~= old(out)@ + toml_text(self@));
                }
            },
        }
    }

    fn append_items(items: &Vec<TomlValue>, i: usize, out: &mut String)
        requires
            i <= items@.len(),
        ensures
            final(out)@ == old(out)@ + toml_items_text(toml_items_view(items@.skip(i as int))),
        decreases items, items@.len() - i,
    {
        let ghost rest = items@.skip(i as int);
        proof {
            lemma_toml_items_view(rest);
        }
        if i >= items.len() {
            assert(out@ =~= out@ + Seq::<char>::empty());
            return;
        }
        proof {
            lemma_toml_items_view(rest.drop_first());
            assert(rest.drop_first() =~= items@.skip(i + 1));
            assert(toml_items_view(rest).drop_first() =~= toml_items_view(rest.drop_first()));
        }
        items[i].append_text(out);
        if i + 1 < items.len() {
            push_str(out, ", ");
        }
        Self::append_items(items, i + 1, out);
        proof {
            let tv = toml_items_view(rest);
            if tv.len() == 1 {
                assert(toml_items_view(items@.skip(i + 1)).len() == 0);
            }
            assert(out@ =~= old(out)@ + toml_items_text(tv));
        }
    }

    fn append_entries(entries: &Vec<(String, TomlValue)>, i: usize, out: &mut String)
        requires
            i <= entries@.len(),
        ensures
            final(out)@ == old(out)@ + toml_entries_text(
                toml_entries_view(entries@.skip(i as int)),
            ),
        decreases entries, entries@.len() - i,
    {
        let ghost rest = entries@.skip(i as int);
        proof {
            lemma_toml_entries_view(rest);
        }
        if i >= entries.len() {
            assert(out@ =~= out@ + Seq::<char>::empty());
            return;
        }
        proof {
            lemma_toml_entries_view(rest.drop_first());
            assert(rest.drop_first() =~= entries@.skip(i + 1));
            assert(toml_entries_view(rest).drop_first() =~= toml_entries_view(rest.drop_first()));
        }
        push_str(out, entries[i].0.as_str());
        push_str(out, " = ");
        entries[i].1.append_text(out);
        if i + 1 < entries.len() {
            push_str(out, ", ");
        }
        Self::append_entries(entries, i + 1, out);
        proof {
            let tv = toml_entries_view(rest);
            if tv.len() == 1 {
                assert(toml_entries_view(entries@.skip(i + 1)).len() == 0);
            }
            assert(out@ =~= old(out)@ + toml_entries_text(tv));
        }
    }
}

} // verus!

verus! {

impl TomlValue {
    /// A structurally equal copy.
    pub fn duplicate(&self) -> (r: TomlValue)
        ensures
            r@ == self@,
        decreases self, 0int,
    {
        match self {
            TomlValue::String(s) => TomlValue::String(s.clone()),
            TomlValue::Integer(n) => TomlValue::Integer(*n),
            TomlValue::Float(f) => TomlValue::Float(f.duplicate()),
            TomlValue::Boolean(b) => TomlValue::Boolean(*b),
            TomlValue::Datetime(s) => TomlValue::Datetime(s.clone()),
            TomlValue::Array(items) => {
                let mut out: Vec<TomlValue> = Vec::new();
                Self::duplicate_items(items, 0, &mut out);
                proof {
                    lemma_toml_items_view(out@);
                    lemma_toml_items_view(items@);
                    assert(toml_items_view(out@) =~= toml_items_view(items@));
                }
                TomlValue::Array(out)
            },
            TomlValue::Table(entries) => {
                let mut out: Vec<(String, TomlValue)> = Vec::new();
                Self::duplicate_entries(entries, 0, &mut out);
                proof {
                    lemma_toml_entries_view(out@);
                    lemma_toml_entries_view(entries@);
                    assert forall|j: int| 0 <= j < out@.len() implies toml_entries_view(out@)[j]
                        == toml_entries_view(entries@)[j] by {
                        assert(same_entry(out@[j], entries@[j]));
                    }
                    assert(toml_entries_view(out@) =~= toml_entries_view(entries@));
                }
                TomlValue::Table(out)
            },
        }
    }

    /// A copy of a list of values.
    pub fn duplicate_vec(items: &Vec<TomlValue>) -> (r: Vec<TomlValue>)
        ensures
            toml_items_view(r@) == toml_items_view(items@),
    {
        let mut out: Vec<TomlValue> = Vec::new();
        Self::duplicate_items(items, 0, &mut out);
        proof {
            lemma_toml_items_view(out@);
            lemma_toml_items_view(items@);
            assert(toml_items_view(out@) =~= toml_items_view(items@));
        }
        out
    }

    fn duplicate_items(v: &Vec<TomlValue>, i: usize, out: &mut Vec<TomlValue>)
        requires
            i <= v@.len(),
            old(out)@.len() == i,
            forall|j: int| 0 <= j < i ==> toml_view(#[trigger] old(out)@[j]) == toml_view(v@[j]),
        ensures
            final(out)@.len() == v@.len(),
            forall|j: int|
                0 <= j < v@.len() ==> toml_view(#[trigger] final(out)@[j]) == toml_view(v@[j]),
        decreases v, v@.len() - i,
    {
        if i >= v.len() {
            return;
        }
        let x = v[i].duplicate();
        let ghost prev = out@;
        out.push(x);
        assert forall|j: int| 0 <= j < i + 1 implies toml_view(#[trigger] out@[j]) == toml_view(
            v@[j],
        ) by {
            if j < i {
                assert(out@[j] == prev[j]);
            }
        }
        Self::duplicate_items(v, i + 1, out);
    }

    fn duplicate_entries(v: &Vec<(String, TomlValue)>, i: usize, out: &mut Vec<(String, TomlValue)>)
        requires
            i <= v@.len(),
            old(out)@.len() == i,
            forall|j: int| 0 <= j < i ==> same_entry(#[trigger] old(out)@[j], v@[j]),
        ensures
            final(out)@.len() == v@.len(),
            forall|j: int| 0 <= j < v@.len() ==> same_entry(#[trigger] final(out)@[j], v@[j]),
        decreases v, v@.len() - i,
    {
        if i >= v.len() {
            return;
        }
        let k = v[i].0.clone();
        let x = v[i].1.duplicate();
        let ghost prev = out@;
        out.push((k, x));
        assert forall|j: int| 0 <= j < i + 1 implies same_entry(#[trigger] out@[j], v@[j]) by {
            if j < i {
                assert(out@[j] == prev[j]);
            }
        }
        Self::duplicate_entries(v, i + 1, out);
    }
}

/// Two table entries with the same key and structurally equal values.
pub open spec fn same_entry(a: (String, TomlValue), b: (String, TomlValue)) -> bool {
    a.0@ == b.0@ && toml_view(a.1) == toml_view(b.1)
}

} // verus!
