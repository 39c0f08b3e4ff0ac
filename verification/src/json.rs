//! JSON values as `serde_json` holds them (objects in key order), with
//! each float carried by its bit pattern and its renderings.

use vstd::prelude::*;
use crate::keyed::{entries_get, entries_insert, get_from, key_found, key_pos, key_position, keys_of, keys_of_view, find_key, lemma_get_first, lemma_get_none};
use crate::schema::toml_value::{FloatV, TomlFloat};
use crate::index::storage::{hex_char, hex_digit};
use crate::text::{chars_of, decimal, decimal_string, i64_string, push_char, push_str, signed_decimal};

verus! {

/// A JSON number.
#[derive(Debug, PartialEq)]
pub enum JsonNumber {
    /// An integer within `i64`.
    Int(i64),
    /// A positive integer above `i64::MAX`, with the nearest float when the
    /// number was read from a document (numbers built here carry none).
    BigUint(u64, Option<TomlFloat>),
    /// A finite float.
    Float(TomlFloat),
}

/// A JSON value.
#[derive(Debug, PartialEq)]
pub enum JsonValue {
    Null,
    Bool(bool),
    Number(JsonNumber),
    String(String),
    Array(Vec<JsonValue>),
    /// Members in key order.
    Object(Vec<(String, JsonValue)>),
}

/// Model of a [`JsonNumber`].
pub enum JsonNumV {
    Int(int),
    BigUint(nat, Option<FloatV>),
    Float(FloatV),
}

/// Model of a [`JsonValue`].
pub enum JsonV {
    Null,
    Bool(bool),
    Number(JsonNumV),
    String(Seq<char>),
    Array(Seq<JsonV>),
    Object(Seq<(Seq<char>, JsonV)>),
}

pub open spec fn json_num_view(n: JsonNumber) -> JsonNumV {
    match n {
        JsonNumber::Int(i) => JsonNumV::Int(i as int),
        JsonNumber::BigUint(u, f) => JsonNumV::BigUint(
            u as nat,
            match f {
                Some(f) => Some(f@),
                None => None,
            },
        ),
        JsonNumber::Float(f) => JsonNumV::Float(f@),
    }
}

pub open spec fn json_view(v: JsonValue) -> JsonV
    decreases v,
{
    match v {
        JsonValue::Null => JsonV::Null,
        JsonValue::Bool(b) => JsonV::Bool(b),
        JsonValue::Number(n) => JsonV::Number(json_num_view(n)),
        JsonValue::String(s) => JsonV::String(s@),
        JsonValue::Array(items) => JsonV::Array(json_items_view(items@)),
        JsonValue::Object(entries) => JsonV::Object(json_entries_view(entries@)),
    }
}

pub open spec fn json_items_view(s: Seq<JsonValue>) -> Seq<JsonV>
    decreases s,
{
    if s.len() == 0 {
        Seq::empty()
    } else {
        seq![json_view(s[0])] + json_items_view(s.drop_first())
    }
}

pub open spec fn json_entries_view(s: Seq<(String, JsonValue)>) -> Seq<(Seq<char>, JsonV)>
    decreases s,
{
    if s.len() == 0 {
        Seq::empty()
    } else {
        seq![(s[0].0@, json_view(s[0].1))] + json_entries_view(s.drop_first())
    }
}

impl View for JsonValue {
    type V = JsonV;

    open spec fn view(&self) -> JsonV {
        json_view(*self)
    }
}

pub proof fn lemma_json_items_view(s: Seq<JsonValue>)
    ensures
        json_items_view(s).len() == s.len(),
        forall|j: int| 0 <= j < s.len() ==> #[trigger] json_items_view(s)[j] == json_view(s[j]),
    decreases s.len(),
{
    if s.len() > 0 {
        lemma_json_items_view(s.drop_first());
        assert forall|j: int| 0 <= j < s.len() implies #[trigger] json_items_view(s)[j] == json_view(
            s[j],
        ) by {
            if j > 0 {
                assert(s.drop_first()[j - 1] == s[j]);
            }
        }
    }
}

pub proof fn lemma_json_entries_view(s: Seq<(String, JsonValue)>)
    ensures
        json_entries_view(s).len() == s.len(),
        forall|j: int|
            0 <= j < s.len() ==> #[trigger] json_entries_view(s)[j] == (s[j].0@, json_view(s[j].1)),
        keys_of_view(json_entries_view(s)) == keys_of(s),
    decreases s.len(),
{
    if s.len() > 0 {
        lemma_json_entries_view(s.drop_first());
        assert forall|j: int| 0 <= j < s.len() implies #[trigger] json_entries_view(s)[j] == (
            s[j].0@,
            json_view(s[j].1),
        ) by {
            if j > 0 {
                assert(s.drop_first()[j - 1] == s[j]);
            }
        }
    }
    assert(keys_of_view(json_entries_view(s)) =~= keys_of(s));
}

pub proof fn lemma_json_items_push(s: Seq<JsonValue>, v: JsonValue)
    ensures
        json_items_view(s.push(v)) == json_items_view(s).push(json_view(v)),
{
    lemma_json_items_view(s);
    lemma_json_items_view(s.push(v));
    assert(json_items_view(s.push(v)) =~= json_items_view(s).push(json_view(v)));
}

pub proof fn lemma_json_entries_push(s: Seq<(String, JsonValue)>, e: (String, JsonValue))
    ensures
        json_entries_view(s.push(e)) == json_entries_view(s).push((e.0@, json_view(e.1))),
{
    lemma_json_entries_view(s);
    lemma_json_entries_view(s.push(e));
    assert(json_entries_view(s.push(e)) =~= json_entries_view(s).push((e.0@, json_view(e.1))));
}

/// Maps `k` to `v` in an object's members (in key order).
pub fn object_insert(entries: &mut Vec<(String, JsonValue)>, k: String, v: JsonValue)
    ensures
        json_entries_view(final(entries)@) == entries_insert(json_entries_view(old(entries)@), k@, v@),
{
    proof {
        lemma_json_entries_view(entries@);
    }
    let (pos, found) = key_position(entries, k.as_str());
    let ghost old_e = entries@;
    let ghost kv = k@;
    let ghost vv = v@;
    if found {
        entries.set(pos, (k, v));
        proof {
            lemma_json_entries_view(entries@);
            assert(json_entries_view(entries@) =~= json_entries_view(old_e).update(pos as int, (kv, vv)));
        }
    } else {
        entries.insert(pos, (k, v));
        proof {
            lemma_json_entries_view(entries@);
            assert(json_entries_view(entries@) =~= json_entries_view(old_e).insert(pos as int, (kv, vv)));
        }
    }
}

/// The member `k` of an object's members.
pub fn object_get<'a>(entries: &'a Vec<(String, JsonValue)>, k: &str) -> (r: Option<&'a JsonValue>)
    ensures
        match r {
            Some(v) => entries_get(json_entries_view(entries@), k@) == Some(v@),
            None => entries_get(json_entries_view(entries@), k@) is None,
        },
{
    proof {
        lemma_json_entries_view(entries@);
    }
    match find_key(entries, k) {
        Some(i) => {
            proof {
                let e = json_entries_view(entries@);
                assert forall|j: int| 0 <= j < i implies #[trigger] e[j].0 != k@ by {
                    assert(e[j].0 == entries@[j].0@);
                }
                lemma_get_first(e, k@, i as int);
            }
            Some(&entries[i].1)
        },
        None => {
            proof {
                let e = json_entries_view(entries@);
                assert forall|j: int| 0 <= j < e.len() implies #[trigger] e[j].0 != k@ by {
                    assert(e[j].0 == entries@[j].0@);
                }
                lemma_get_none(e, k@);
            }
            None
        },
    }
}

/// The member `k` of `v` when `v` is an object.
pub open spec fn member(v: JsonV, k: Seq<char>) -> Option<JsonV> {
    match v {
        JsonV::Object(e) => entries_get(e, k),
        _ => None,
    }
}

impl JsonValue {
    /// The member `key` when this is an object (`serde_json::Value::get`).
    pub fn get(&self, key: &str) -> (r: Option<&JsonValue>)
        ensures
            match r {
                Some(v) => member(self@, key@) == Some(v@),
                None => member(self@, key@) is None,
            },
    {
        match self {
            JsonValue::Object(entries) => object_get(entries, key),
            _ => None,
        }
    }

    /// A structurally equal copy.
    pub fn duplicate(&self) -> (r: JsonValue)
        ensures
            r@ == self@,
        decreases self, 0int,
    {
        match self {
            JsonValue::Null => JsonValue::Null,
            JsonValue::Bool(b) => JsonValue::Bool(*b),
            JsonValue::Number(n) => JsonValue::Number(
                match n {
                    JsonNumber::Int(i) => JsonNumber::Int(*i),
                    JsonNumber::BigUint(u, f) => JsonNumber::BigUint(
                        *u,
                        match f {
                            Some(f) => Some(f.duplicate()),
                            None => None,
                        },
                    ),
                    JsonNumber::Float(f) => JsonNumber::Float(f.duplicate()),
                },
            ),
            JsonValue::String(s) => JsonValue::String(s.clone()),
            JsonValue::Array(items) => {
                let mut out: Vec<JsonValue> = Vec::new();
                Self::duplicate_items(items, 0, &mut out);
                JsonValue::Array(out)
            },
            JsonValue::Object(entries) => {
                let mut out: Vec<(String, JsonValue)> = Vec::new();
                Self::duplicate_entries(entries, 0, &mut out);
                JsonValue::Object(out)
            },
        }
    }

    fn duplicate_items(v: &Vec<JsonValue>, i: usize, out: &mut Vec<JsonValue>)
        requires
            i <= v@.len(),
            json_items_view(old(out)@) == json_items_view(v@.take(i as int)),
        ensures
            json_items_view(final(out)@) == json_items_view(v@),
        decreases v, v@.len() - i,
    {
        if i >= v.len() {
            assert(v@.take(i as int) =~= v@);
            return;
        }
        let d = v[i].duplicate();
        proof {
            lemma_json_items_push(out@, d);
            lemma_json_items_push(v@.take(i as int), v@[i as int]);
            assert(v@.take(i as int).push(v@[i as int]) =~= v@.take(i + 1));
        }
        out.push(d);
        Self::duplicate_items(v, i + 1, out);
    }

    fn duplicate_entries(v: &Vec<(String, JsonValue)>, i: usize, out: &mut Vec<(String, JsonValue)>)
        requires
            i <= v@.len(),
            json_entries_view(old(out)@) == json_entries_view(v@.take(i as int)),
        ensures
            json_entries_view(final(out)@) == json_entries_view(v@),
        decreases v, v@.len() - i,
    {
        if i >= v.len() {
            assert(v@.take(i as int) =~= v@);
            return;
        }
        let d = v[i].1.duplicate();
        let k = v[i].0.clone();
        proof {
            lemma_json_entries_push(out@, (k, d));
            lemma_json_entries_push(v@.take(i as int), v@[i as int]);
            assert(v@.take(i as int).push(v@[i as int]) =~= v@.take(i + 1));
        }
        out.push((k, d));
        Self::duplicate_entries(v, i + 1, out);
    }
}

} // verus!

verus! {

// ---------------------------------------------------------------------------
// Compact text, as `serde_json::to_string` writes it
// ---------------------------------------------------------------------------

/// How one character of a string is written inside JSON quotes: `"` and
/// `\` backslash-escaped, the usual short escapes for backspace, tab,
/// newline, form feed and carriage return, `\u00xx` (lowercase hex) for the
/// other control characters, anything else as is.
pub open spec fn json_escape_char(c: char) -> Seq<char> {
    if c == '"' {
        seq!['\\', '"']
    } else if c == '\\' {
        seq!['\\', '\\']
    } else if c == '\u{8}' {
        seq!['\\', 'b']
    } else if c == '\t' {
        seq!['\\', 't']
    } else if c == '\n' {
        seq!['\\', 'n']
    } else if c == '\u{c}' {
        seq!['\\', 'f']
    } else if c == '\r' {
        seq!['\\', 'r']
    } else if (c as u32) < 0x20 {
        seq!['\\', 'u', '0', '0', hex_char((c as u32 / 16) as nat), hex_char((c as u32 % 16) as nat)]
    } else {
        seq![c]
    }
}

pub open spec fn json_escape(s: Seq<char>) -> Seq<char>
    decreases s.len(),
{
    if s.len() == 0 {
        Seq::empty()
    } else {
        json_escape(s.drop_last()) + json_escape_char(s.last())
    }
}

/// A string as a JSON string literal.
pub open spec fn json_quote(s: Seq<char>) -> Seq<char> {
    seq!['"'] + json_escape(s) + seq!['"']
}

/// The compact JSON text of a value.
pub open spec fn json_text(v: JsonV) -> Seq<char>
    decreases v,
{
    match v {
        JsonV::Null => "null"@,
        JsonV::Bool(b) => if b {
            "true"@
        } else {
            "false"@
        },
        JsonV::Number(n) => match n {
            JsonNumV::Int(i) => signed_decimal(i),
            JsonNumV::BigUint(u, _) => decimal(u),
            JsonNumV::Float(f) => f.json,
        },
        JsonV::String(s) => json_quote(s),
        JsonV::Array(items) => seq!['['] + items_text(items) + seq![']'],
        JsonV::Object(m) => seq!['{'] + members_text(m) + seq!['}'],
    }
}

pub open spec fn items_text(s: Seq<JsonV>) -> Seq<char>
    decreases s,
{
    if s.len() == 0 {
        Seq::empty()
    } else if s.len() == 1 {
        json_text(s[0])
    } else {
        json_text(s[0]) + seq![','] + items_text(s.drop_first())
    }
}

pub open spec fn members_text(m: Seq<(Seq<char>, JsonV)>) -> Seq<char>
    decreases m,
{
    if m.len() == 0 {
        Seq::empty()
    } else if m.len() == 1 {
        json_quote(m[0].0) + seq![':'] + json_text(m[0].1)
    } else {
        json_quote(m[0].0) + seq![':'] + json_text(m[0].1) + seq![','] + members_text(m.drop_first())
    }
}

/// The text of one object member: its quoted key, `:`, its value's text.
pub open spec fn member_text(e: (Seq<char>, JsonV)) -> Seq<char> {
    json_quote(e.0) + seq![':'] + json_text(e.1)
}

proof fn lemma_members_text_push(m: Seq<(Seq<char>, JsonV)>, e: (Seq<char>, JsonV))
    requires
        m.len() >= 1,
    ensures
        members_text(m.push(e)) == members_text(m) + seq![','] + member_text(e),
    decreases m.len(),
{
    let h = member_text(m[0]);
    assert(m.push(e)[0] == m[0]);
    if m.len() == 1 {
        assert(m.push(e).drop_first() =~= seq![e]);
        assert(members_text(seq![e]) == member_text(e));
        assert(members_text(m) == h);
    } else {
        lemma_members_text_push(m.drop_first(), e);
        assert(m.push(e).drop_first() =~= m.drop_first().push(e));
        assert(members_text(m) == h + seq![','] + members_text(m.drop_first()));
    }
    assert(members_text(m.push(e)) == h + seq![','] + members_text(m.push(e).drop_first()));
    assert(members_text(m.push(e)) =~= members_text(m) + seq![','] + member_text(e));
}

proof fn lemma_items_text_push(s: Seq<JsonV>, v: JsonV)
    requires
        s.len() >= 1,
    ensures
        items_text(s.push(v)) == items_text(s) + seq![','] + json_text(v),
    decreases s.len(),
{
    let h = json_text(s[0]);
    assert(s.push(v)[0] == s[0]);
    if s.len() == 1 {
        assert(s.push(v).drop_first() =~= seq![v]);
        assert(items_text(seq![v]) == json_text(v));
        assert(items_text(s) == h);
    } else {
        lemma_items_text_push(s.drop_first(), v);
        assert(s.push(v).drop_first() =~= s.drop_first().push(v));
        assert(items_text(s) == h + seq![','] + items_text(s.drop_first()));
    }
    assert(items_text(s.push(v)) == h + seq![','] + items_text(s.push(v).drop_first()));
    assert(items_text(s.push(v)) =~= items_text(s) + seq![','] + json_text(v));
}

/// **Compact JSON text of containers.** An empty object is `{}` and an
/// empty array `[]`; one member is `{` key `:` value `}` and one item
/// `[` value `]`; each further member or item is written after the others
/// with exactly one `,` before it, just inside the closing bracket.
pub proof fn lemma_container_text(m: Seq<(Seq<char>, JsonV)>, e: (Seq<char>, JsonV), s: Seq<JsonV>, v: JsonV)
    ensures
        json_text(JsonV::Object(Seq::empty())) == seq!['{', '}'],
        json_text(JsonV::Array(Seq::empty())) == seq!['[', ']'],
        json_text(JsonV::Object(seq![e])) == seq!['{'] + json_quote(e.0) + seq![':'] + json_text(e.1) + seq!['}'],
        json_text(JsonV::Array(seq![v])) == seq!['['] + json_text(v) + seq![']'],
        m.len() >= 1 ==> json_text(JsonV::Object(m.push(e))) == json_text(JsonV::Object(m)).drop_last() + seq![',']
            + json_quote(e.0) + seq![':'] + json_text(e.1) + seq!['}'],
        s.len() >= 1 ==> json_text(JsonV::Array(s.push(v))) == json_text(JsonV::Array(s)).drop_last() + seq![',']
            + json_text(v) + seq![']'],
{
    assert(seq!['{'] + Seq::<char>::empty() + seq!['}'] =~= seq!['{', '}']);
    assert(seq!['['] + Seq::<char>::empty() + seq![']'] =~= seq!['[', ']']);
    if m.len() >= 1 {
        lemma_members_text_push(m, e);
        let t = seq!['{'] + members_text(m) + seq!['}'];
        assert(t.drop_last() =~= seq!['{'] + members_text(m));
        assert(json_text(JsonV::Object(m.push(e))) =~= t.drop_last() + seq![','] + json_quote(e.0) + seq![':']
            + json_text(e.1) + seq!['}']);
    }
    if s.len() >= 1 {
        lemma_items_text_push(s, v);
        let t = seq!['['] + items_text(s) + seq![']'];
        assert(t.drop_last() =~= seq!['['] + items_text(s));
        assert(json_text(JsonV::Array(s.push(v))) =~= t.drop_last() + seq![','] + json_text(v) + seq![']']);
    }
}

fn write_quoted(s: &str, out: &mut String)
    ensures
        final(out)@ == old(out)@ + json_quote(s@),
{
    let v = chars_of(s);
    let ghost start = old(out)@;
    push_char(out, '"');
    let mut i: usize = 0;
    while i < v.len()
        invariant
            v@ == s@,
            i <= v@.len(),
            out@ == start + seq!['"'] + json_escape(v@.take(i as int)),
        decreases v@.len() - i,
    {
        let c = v[i];
        let ghost before = out@;
        if c == '"' {
            push_char(out, '\\');
            push_char(out, '"');
        } else if c == '\\' {
            push_char(out, '\\');
            push_char(out, '\\');
        } else if c == '\u{8}' {
            push_char(out, '\\');
            push_char(out, 'b');
        } else if c == '\t' {
            push_char(out, '\\');
            push_char(out, 't');
        } else if c == '\n' {
            push_char(out, '\\');
            push_char(out, 'n');
        } else if c == '\u{c}' {
            push_char(out, '\\');
            push_char(out, 'f');
        } else if c == '\r' {
            push_char(out, '\\');
            push_char(out, 'r');
        } else if (c as u32) < 0x20 {
            push_char(out, '\\');
            push_char(out, 'u');
            push_char(out, '0');
            push_char(out, '0');
            push_char(out, hex_digit((c as u32 / 16) as u64));
            push_char(out, hex_digit((c as u32 % 16) as u64));
        } else {
            push_char(out, c);
        }
        assert(out@ =~= before + json_escape_char(c));
        proof {
            assert(v@.take(i + 1).drop_last() =~= v@.take(i as int));
            assert(v@.take(i + 1).last() == c);
        }
        i = i + 1;
        assert(out@ =~= start + seq!['"'] + json_escape(v@.take(i as int)));
    }
    assert(v@.take(v@.len() as int) =~= s@);
    push_char(out, '"');
    assert(out@ =~= start + json_quote(s@));
}

/// Appends the compact JSON text of `v`.
pub fn write_json(v: &JsonValue, out: &mut String)
    ensures
        final(out)@ == old(out)@ + json_text(v@),
    decreases v, 0int,
{
    match v {
        JsonValue::Null => push_str(out, "null"),
        JsonValue::Bool(b) => if *b {
            push_str(out, "true")
        } else {
            push_str(out, "false")
        },
        JsonValue::Number(n) => match n {
            JsonNumber::Int(i) => {
                let t = i64_string(*i);
                push_str(out, t.as_str());
            },
            JsonNumber::BigUint(u, _) => {
                let t = decimal_string(*u);
                push_str(out, t.as_str());
            },
            JsonNumber::Float(f) => push_str(out, f.json.as_str()),
        },
        JsonValue::String(s) => write_quoted(s.as_str(), out),
        JsonValue::Array(items) => {
            push_char(out, '[');
            proof {
                lemma_json_items_view(items@);
            }
            assert(items@.skip(0) =~= items@);
            assert(json_items_view(items@) =~= json_items_view(items@.skip(0)));
            write_items(items, 0, out);
            push_char(out, ']');
            assert(out@ =~= old(out)@ + json_text(v@));
        },
        JsonValue::Object(entries) => {
            push_char(out, '{');
            assert(entries@.skip(0) =~= entries@);
            write_members(entries, 0, out);
            push_char(out, '}');
            assert(out@ =~= old(out)@ + json_text(v@));
        },
    }
}

proof fn lemma_items_skip(s: Seq<JsonValue>, i: int)
    requires
        0 <= i < s.len(),
    ensures
        json_items_view(s.skip(i)).len() == s.len() - i,
        json_items_view(s.skip(i))[0] == json_view(s[i]),
        json_items_view(s.skip(i)).drop_first() == json_items_view(s.skip(i + 1)),
{
    lemma_json_items_view(s.skip(i));
    lemma_json_items_view(s.skip(i + 1));
    assert(s.skip(i)[0] == s[i]);
    assert(json_items_view(s.skip(i)).drop_first() =~= json_items_view(s.skip(i + 1))) by {
        assert forall|j: int| 0 <= j < json_items_view(s.skip(i + 1)).len() implies json_items_view(
            s.skip(i),
        ).drop_first()[j] == json_items_view(s.skip(i + 1))[j] by {
            assert(s.skip(i)[j + 1] == s.skip(i + 1)[j]);
        }
    }
}

proof fn lemma_entries_skip(s: Seq<(String, JsonValue)>, i: int)
    requires
        0 <= i < s.len(),
    ensures
        json_entries_view(s.skip(i)).len() == s.len() - i,
        json_entries_view(s.skip(i))[0] == (s[i].0@, json_view(s[i].1)),
        json_entries_view(s.skip(i)).drop_first() == json_entries_view(s.skip(i + 1)),
{
    lemma_json_entries_view(s.skip(i));
    lemma_json_entries_view(s.skip(i + 1));
    assert(s.skip(i)[0] == s[i]);
    assert(json_entries_view(s.skip(i)).drop_first() =~= json_entries_view(s.skip(i + 1))) by {
        assert forall|j: int| 0 <= j < json_entries_view(s.skip(i + 1)).len() implies json_entries_view(
            s.skip(i),
        ).drop_first()[j] == json_entries_view(s.skip(i + 1))[j] by {
            assert(s.skip(i)[j + 1] == s.skip(i + 1)[j]);
        }
    }
}

fn write_items(items: &Vec<JsonValue>, i: usize, out: &mut String)
    requires
        i <= items@.len(),
    ensures
        final(out)@ == old(out)@ + items_text(json_items_view(items@.skip(i as int))),
    decreases items, items@.len() - i,
{
    if i >= items.len() {
        proof {
            lemma_json_items_view(items@.skip(i as int));
        }
        assert(out@ =~= out@ + Seq::<char>::empty());
        return;
    }
    proof {
        lemma_items_skip(items@, i as int);
    }
    write_json(&items[i], out);
    if i + 1 < items.len() {
        push_char(out, ',');
        proof {
            lemma_items_skip(items@, i + 1);
        }
    } else {
        proof {
            lemma_json_items_view(items@.skip(i + 1));
        }
    }
    write_items(items, i + 1, out);
    assert(out@ =~= old(out)@ + items_text(json_items_view(items@.skip(i as int))));
}

fn write_members(entries: &Vec<(String, JsonValue)>, i: usize, out: &mut String)
    requires
        i <= entries@.len(),
    ensures
        final(out)@ == old(out)@ + members_text(json_entries_view(entries@.skip(i as int))),
    decreases entries, entries@.len() - i,
{
    if i >= entries.len() {
        proof {
            lemma_json_entries_view(entries@.skip(i as int));
        }
        assert(out@ =~= out@ + Seq::<char>::empty());
        return;
    }
    proof {
        lemma_entries_skip(entries@, i as int);
    }
    write_quoted(entries[i].0.as_str(), out);
    push_char(out, ':');
    write_json(&entries[i].1, out);
    if i + 1 < entries.len() {
        push_char(out, ',');
        proof {
            lemma_entries_skip(entries@, i + 1);
        }
    } else {
        proof {
            lemma_json_entries_view(entries@.skip(i + 1));
        }
    }
    write_members(entries, i + 1, out);
    assert(out@ =~= old(out)@ + members_text(json_entries_view(entries@.skip(i as int))));
}

/// The compact JSON text of `v`, as `serde_json::to_string` writes it.
pub fn to_json_string(v: &JsonValue) -> (r: String)
    ensures
        r@ == json_text(v@),
{
    let mut out = String::new();
    write_json(v, &mut out);
    assert(out@ =~= json_text(v@));
    out
}

} // verus!

verus! {

// ---------------------------------------------------------------------------
// Sizes, for recursion over nested documents
// ---------------------------------------------------------------------------

/// The number of values in a document, nested ones included.
pub open spec fn json_size(v: JsonV) -> nat
    decreases v,
{
    match v {
        JsonV::Array(items) => 1 + items_size(items),
        JsonV::Object(m) => 1 + members_size(m),
        _ => 1,
    }
}

pub open spec fn items_size(s: Seq<JsonV>) -> nat
    decreases s,
{
    if s.len() == 0 {
        0
    } else {
        json_size(s[0]) + items_size(s.drop_first())
    }
}

pub open spec fn members_size(m: Seq<(Seq<char>, JsonV)>) -> nat
    decreases m,
{
    if m.len() == 0 {
        0
    } else {
        json_size(m[0].1) + members_size(m.drop_first())
    }
}

/// Each member's value is no larger than all members together.
pub proof fn lemma_member_size(m: Seq<(Seq<char>, JsonV)>, i: int)
    requires
        0 <= i < m.len(),
    ensures
        json_size(m[i].1) <= members_size(m),
    decreases m.len(),
{
    if i > 0 {
        lemma_member_size(m.drop_first(), i - 1);
        assert(m.drop_first()[i - 1] == m[i]);
    }
}

/// Each item is no larger than all items together.
pub proof fn lemma_item_size(s: Seq<JsonV>, i: int)
    requires
        0 <= i < s.len(),
    ensures
        json_size(s[i]) <= items_size(s),
    decreases s.len(),
{
    if i > 0 {
        lemma_item_size(s.drop_first(), i - 1);
        assert(s.drop_first()[i - 1] == s[i]);
    }
}

proof fn lemma_get_from_size(m: Seq<(Seq<char>, JsonV)>, k: Seq<char>, j: int)
    requires
        0 <= j,
        get_from(m, k, j) is Some,
    ensures
        json_size(get_from(m, k, j)->0) <= members_size(m),
    decreases m.len() - j,
{
    if j < m.len() {
        if m[j].0 == k {
            lemma_member_size(m, j);
        } else {
            lemma_get_from_size(m, k, j + 1);
        }
    }
}

/// A member found by key is no larger than all members together.
pub proof fn lemma_get_size(m: Seq<(Seq<char>, JsonV)>, k: Seq<char>)
    requires
        entries_get(m, k) is Some,
    ensures
        json_size(entries_get(m, k)->0) <= members_size(m),
{
    lemma_get_from_size(m, k, 0);
}

} // verus!
