//! The frontmatter of many files as typed columns: what goes into the
//! index's `data` struct column, as plain values.
//!
//! Each field type reads its own kind of value out of each file's JSON
//! (anything else is null); arrays become a flattened item column with
//! offsets and a validity mask; objects become one child column per
//! declared child, read from the member of that name.

use vstd::prelude::*;
use crate::field_type::{FieldType, FieldTypeV, field_pairs_view, lemma_field_pairs_view};
use crate::json::{JsonNumber, JsonNumV, JsonV, JsonValue, json_items_view, json_text, lemma_json_items_view, member, to_json_string};

verus! {

/// A typed column.
#[derive(Debug)]
pub enum Column {
    /// Booleans.
    Boolean(Vec<Option<bool>>),
    /// 64-bit integers.
    Integer(Vec<Option<i64>>),
    /// Numbers stored as floats (each taken as its nearest `f64`).
    Float(Vec<Option<JsonNumber>>),
    /// Strings.
    String(Vec<Option<String>>),
    /// Dates, as days since 1970-01-01.
    Date(Vec<Option<i32>>),
    /// Instants, as milliseconds since 1970-01-01T00:00:00Z.
    DateTime(Vec<Option<i64>>),
    /// Lists: `offsets[k]..offsets[k + 1]` are the items of row `k`.
    List {
        /// Start of each row's items, then the end of the last.
        offsets: Vec<i32>,
        /// Whether each row holds a list.
        valid: Vec<bool>,
        /// The items of all rows, in order.
        items: Box<Column>,
        /// The items' type.
        item_type: FieldType,
    },
    /// Structs: one child column per declared child.
    Struct {
        /// Whether each row holds an object.
        valid: Vec<bool>,
        /// Child name, type and column, in declared order.
        children: Vec<(String, FieldType, Column)>,
    },
}

/// Model of a [`Column`].
pub enum ColumnV {
    Boolean(Seq<Option<bool>>),
    Integer(Seq<Option<i64>>),
    Float(Seq<Option<JsonNumV>>),
    String(Seq<Option<Seq<char>>>),
    Date(Seq<Option<i32>>),
    DateTime(Seq<Option<i64>>),
    List(Seq<i32>, Seq<bool>, Box<ColumnV>, FieldTypeV),
    Struct(Seq<bool>, Seq<(Seq<char>, FieldTypeV, ColumnV)>),
}

pub open spec fn opt_string_views(s: Seq<Option<String>>) -> Seq<Option<Seq<char>>> {
    Seq::new(
        s.len(),
        |i: int|
            match s[i] {
                Some(x) => Some(x@),
                None => None,
            },
    )
}

pub open spec fn opt_num_views(s: Seq<Option<JsonNumber>>) -> Seq<Option<JsonNumV>> {
    Seq::new(
        s.len(),
        |i: int|
            match s[i] {
                Some(x) => Some(crate::json::json_num_view(x)),
                None => None,
            },
    )
}

pub open spec fn column_view(c: Column) -> ColumnV
    decreases c,
{
    match c {
        Column::Boolean(v) => ColumnV::Boolean(v@),
        Column::Integer(v) => ColumnV::Integer(v@),
        Column::Float(v) => ColumnV::Float(opt_num_views(v@)),
        Column::String(v) => ColumnV::String(opt_string_views(v@)),
        Column::Date(v) => ColumnV::Date(v@),
        Column::DateTime(v) => ColumnV::DateTime(v@),
        Column::List { offsets, valid, items, item_type } => ColumnV::List(
            offsets@,
            valid@,
            Box::new(column_view(*items)),
            item_type@,
        ),
        Column::Struct { valid, children } => ColumnV::Struct(valid@, children_view(children@)),
    }
}

pub open spec fn children_view(s: Seq<(String, FieldType, Column)>) -> Seq<(Seq<char>, FieldTypeV, ColumnV)>
    decreases s,
{
    if s.len() == 0 {
        Seq::empty()
    } else {
        seq![(s[0].0@, s[0].1@, column_view(s[0].2))] + children_view(s.drop_first())
    }
}

impl View for Column {
    type V = ColumnV;

    open spec fn view(&self) -> ColumnV {
        column_view(*self)
    }
}

/// The per-file values, as models.
pub open spec fn value_views(s: Seq<Option<&JsonValue>>) -> Seq<Option<JsonV>> {
    Seq::new(
        s.len(),
        |i: int|
            match s[i] {
                Some(v) => Some(v@),
                None => None,
            },
    )
}

/// The format dates are written in.
pub const DATE_FORMAT: &'static str = "%Y-%m-%d";

/// The day count from 1 CE of 1970-01-01.
pub const EPOCH_DAYS_FROM_CE: i32 = 719_163;

/// The day count from 1 CE (`Datelike::num_days_from_ce`) of the date that
/// `chrono::NaiveDate::parse_from_str` reads from `s` in format `fmt`, when
/// it reads one.
pub uninterp spec fn naive_date_days_from_ce(s: Seq<char>, fmt: Seq<char>) -> Option<i32>;

/// The milliseconds since the Unix epoch (`timestamp_millis`) of the instant
/// that `chrono::DateTime::parse_from_rfc3339` reads from `s`, when it reads
/// one.
pub uninterp spec fn rfc3339_millis(s: Seq<char>) -> Option<i64>;

/// `chrono::NaiveDate::parse_from_str(s, fmt)`, the date given as its day
/// count from 1 CE; `None` when it does not parse. Chrono's dates lie within
/// the years -262143 to 262142, so the count lies within ±100,000,000.
#[verifier::external_body]
fn date_days_from_ce(s: &str, fmt: &str) -> (r: Option<i32>)
    ensures
        r == naive_date_days_from_ce(s@, fmt@),
        r matches Some(d) ==> -100_000_000 <= d <= 100_000_000,
{
    match chrono::NaiveDate::parse_from_str(s, fmt) {
        Ok(d) => Some(chrono::Datelike::num_days_from_ce(&d)),
        Err(_) => None,
    }
}

/// `chrono::DateTime::parse_from_rfc3339(s)`, the instant given as
/// milliseconds since the Unix epoch (which no offset changes); `None` when
/// it does not parse.
#[verifier::external_body]
fn rfc3339_epoch_millis(s: &str) -> (r: Option<i64>)
    ensures
        r == rfc3339_millis(s@),
{
    match chrono::DateTime::parse_from_rfc3339(s) {
        Ok(dt) => Some(dt.timestamp_millis()),
        Err(_) => None,
    }
}

/// A `YYYY-MM-DD` date string as days since 1970-01-01.
pub open spec fn date_of(v: Option<JsonV>) -> Option<i32> {
    match v {
        Some(JsonV::String(s)) => match naive_date_days_from_ce(s, DATE_FORMAT@) {
            Some(d) => Some((d - EPOCH_DAYS_FROM_CE) as i32),
            None => None,
        },
        _ => None,
    }
}

/// An RFC 3339 date-time string as milliseconds since the Unix epoch.
pub open spec fn datetime_of(v: Option<JsonV>) -> Option<i64> {
    match v {
        Some(JsonV::String(s)) => rfc3339_millis(s),
        _ => None,
    }
}

/// A date string as days since 1970-01-01; `None` when it is no date.
fn date_days(s: &str) -> (r: Option<i32>)
    ensures
        r == date_of(Some(JsonV::String(s@))),
{
    match date_days_from_ce(s, DATE_FORMAT) {
        Some(d) => Some(d - EPOCH_DAYS_FROM_CE),
        None => None,
    }
}

/// A boolean, when the value is one.
pub open spec fn bool_of(v: Option<JsonV>) -> Option<bool> {
    match v {
        Some(JsonV::Bool(b)) => Some(b),
        _ => None,
    }
}

/// An integer within `i64`, when the value is one.
pub open spec fn int_of(v: Option<JsonV>) -> Option<i64> {
    match v {
        Some(JsonV::Number(JsonNumV::Int(i))) => Some(i as i64),
        _ => None,
    }
}

/// Any number, when the value is one.
pub open spec fn number_of(v: Option<JsonV>) -> Option<JsonNumV> {
    match v {
        Some(JsonV::Number(n)) => Some(n),
        _ => None,
    }
}

/// A string; other non-null values as their JSON text.
pub open spec fn text_of(v: Option<JsonV>) -> Option<Seq<char>> {
    match v {
        Some(JsonV::Null) => None,
        Some(JsonV::String(s)) => Some(s),
        Some(other) => Some(json_text(other)),
        None => None,
    }
}

/// A string, when the value is one.
pub open spec fn str_of(v: Option<JsonV>) -> Option<Seq<char>> {
    match v {
        Some(JsonV::String(s)) => Some(s),
        _ => None,
    }
}

/// The items of the arrays among the values, in order.
pub open spec fn flatten(values: Seq<Option<JsonV>>) -> Seq<Option<JsonV>>
    decreases values.len(),
{
    if values.len() == 0 {
        Seq::empty()
    } else {
        flatten(values.drop_last()) + match values.last() {
            Some(JsonV::Array(items)) => Seq::new(items.len(), |j: int| Some(items[j])),
            _ => Seq::empty(),
        }
    }
}

/// List offsets: 0, then after each row the number of items so far
/// (as an `i32`).
pub open spec fn list_offsets(values: Seq<Option<JsonV>>) -> Seq<i32>
    decreases values.len(),
{
    if values.len() == 0 {
        seq![0i32]
    } else {
        list_offsets(values.drop_last()).push(flatten(values).len() as i32)
    }
}

/// The member `name` of each value that is an object.
pub open spec fn member_values(values: Seq<Option<JsonV>>, name: Seq<char>) -> Seq<Option<JsonV>> {
    Seq::new(
        values.len(),
        |i: int|
            match values[i] {
                Some(v) => member(v, name),
                None => None,
            },
    )
}

/// The column of a field type over per-file values.
pub open spec fn column_spec(values: Seq<Option<JsonV>>, ft: FieldTypeV) -> ColumnV
    decreases ft,
{
    match ft {
        FieldTypeV::Boolean => ColumnV::Boolean(Seq::new(values.len(), |i: int| bool_of(values[i]))),
        FieldTypeV::Integer => ColumnV::Integer(Seq::new(values.len(), |i: int| int_of(values[i]))),
        FieldTypeV::Float => ColumnV::Float(Seq::new(values.len(), |i: int| number_of(values[i]))),
        FieldTypeV::String => ColumnV::String(Seq::new(values.len(), |i: int| text_of(values[i]))),
        FieldTypeV::Date => ColumnV::Date(Seq::new(values.len(), |i: int| date_of(values[i]))),
        FieldTypeV::DateTime => ColumnV::DateTime(Seq::new(values.len(), |i: int| datetime_of(values[i]))),
        FieldTypeV::Array(inner) => ColumnV::List(
            list_offsets(values),
            Seq::new(values.len(), |i: int| values[i] matches Some(JsonV::Array(_))),
            Box::new(column_spec(flatten(values), *inner)),
            *inner,
        ),
        FieldTypeV::Object(fields) => ColumnV::Struct(
            Seq::new(values.len(), |i: int| values[i] matches Some(JsonV::Object(_))),
            struct_children(values, fields),
        ),
    }
}

/// **Scalar columns keep their values.** A `Boolean` column has one cell
/// per file: the file's boolean, `true` or `false` alike, and null for a
/// missing or non-boolean value. An `Integer` column keeps each integer, a
/// `Float` column each number, and a `String` column each string (other
/// non-null values as their JSON text); null and missing values stay null.
pub proof fn lemma_scalar_columns(values: Seq<Option<JsonV>>)
    ensures
        column_spec(values, FieldTypeV::Boolean) is Boolean,
        column_spec(values, FieldTypeV::Boolean)->Boolean_0.len() == values.len(),
        forall|i: int| 0 <= i < values.len() ==> (values[i] matches Some(JsonV::Bool(b))
            ==> (#[trigger] column_spec(values, FieldTypeV::Boolean)->Boolean_0[i]) == Some(b)),
        forall|i: int| 0 <= i < values.len() && !(values[i] matches Some(JsonV::Bool(_)))
            ==> (#[trigger] column_spec(values, FieldTypeV::Boolean)->Boolean_0[i]) is None,
        column_spec(values, FieldTypeV::Integer) is Integer,
        column_spec(values, FieldTypeV::Integer)->Integer_0.len() == values.len(),
        forall|i: int| 0 <= i < values.len() ==> (values[i] matches Some(JsonV::Number(JsonNumV::Int(n)))
            ==> (#[trigger] column_spec(values, FieldTypeV::Integer)->Integer_0[i]) == Some(n as i64)),
        forall|i: int| 0 <= i < values.len() && !(values[i] matches Some(JsonV::Number(JsonNumV::Int(_))))
            ==> (#[trigger] column_spec(values, FieldTypeV::Integer)->Integer_0[i]) is None,
        column_spec(values, FieldTypeV::Float) is Float,
        column_spec(values, FieldTypeV::Float)->Float_0.len() == values.len(),
        forall|i: int| 0 <= i < values.len() ==> (values[i] matches Some(JsonV::Number(x))
            ==> (#[trigger] column_spec(values, FieldTypeV::Float)->Float_0[i]) == Some(x)),
        forall|i: int| 0 <= i < values.len() && !(values[i] matches Some(JsonV::Number(_)))
            ==> (#[trigger] column_spec(values, FieldTypeV::Float)->Float_0[i]) is None,
        column_spec(values, FieldTypeV::String) is String,
        column_spec(values, FieldTypeV::String)->String_0.len() == values.len(),
        forall|i: int| 0 <= i < values.len() ==> (values[i] matches Some(JsonV::String(t))
            ==> (#[trigger] column_spec(values, FieldTypeV::String)->String_0[i]) == Some(t)),
        forall|i: int| 0 <= i < values.len() && (values[i] is None || values[i] == Some(JsonV::Null))
            ==> (#[trigger] column_spec(values, FieldTypeV::String)->String_0[i]) is None,
        forall|i: int| 0 <= i < values.len() && (values[i] matches Some(v) && !(v is Null) && !(v is String))
            ==> (#[trigger] column_spec(values, FieldTypeV::String)->String_0[i]) == Some(json_text(values[i]->0)),
{
}

/// One child column per declared child.
pub open spec fn struct_children(values: Seq<Option<JsonV>>, fields: Seq<(Seq<char>, FieldTypeV)>) -> Seq<
    (Seq<char>, FieldTypeV, ColumnV),
>
    decreases fields,
{
    if fields.len() == 0 {
        Seq::empty()
    } else {
        struct_children(values, fields.drop_last()).push(
            (
                fields.last().0,
                fields.last().1,
                column_spec(member_values(values, fields.last().0), fields.last().1),
            ),
        )
    }
}

pub proof fn lemma_children_view(s: Seq<(String, FieldType, Column)>)
    ensures
        children_view(s).len() == s.len(),
        forall|j: int|
            0 <= j < s.len() ==> #[trigger] children_view(s)[j] == (s[j].0@, s[j].1@, column_view(s[j].2)),
    decreases s.len(),
{
    if s.len() > 0 {
        lemma_children_view(s.drop_first());
        assert forall|j: int| 0 <= j < s.len() implies #[trigger] children_view(s)[j] == (
            s[j].0@,
            s[j].1@,
            column_view(s[j].2),
        ) by {
            if j > 0 {
                assert(s.drop_first()[j - 1] == s[j]);
            }
        }
    }
}

proof fn lemma_strings_push(s: Seq<Option<String>>, x: Option<String>)
    ensures
        opt_string_views(s.push(x)) == opt_string_views(s).push(
            match x {
                Some(v) => Some(v@),
                None => None,
            },
        ),
{
    assert(opt_string_views(s.push(x)) =~= opt_string_views(s).push(
        match x {
            Some(v) => Some(v@),
            None => None,
        },
    ));
}

proof fn lemma_nums_push(s: Seq<Option<JsonNumber>>, x: Option<JsonNumber>)
    ensures
        opt_num_views(s.push(x)) == opt_num_views(s).push(
            match x {
                Some(v) => Some(crate::json::json_num_view(v)),
                None => None,
            },
        ),
{
    assert(opt_num_views(s.push(x)) =~= opt_num_views(s).push(
        match x {
            Some(v) => Some(crate::json::json_num_view(v)),
            None => None,
        },
    ));
}

proof fn lemma_values_push(s: Seq<Option<&JsonValue>>, x: Option<&JsonValue>)
    ensures
        value_views(s.push(x)) == value_views(s).push(
            match x {
                Some(v) => Some(v@),
                None => None,
            },
        ),
{
    assert(value_views(s.push(x)) =~= value_views(s).push(
        match x {
            Some(v) => Some(v@),
            None => None,
        },
    ));
}

/// The column of `ft` over the per-file values.
pub fn build_column(values: &Vec<Option<&JsonValue>>, ft: &FieldType) -> (r: Column)
    ensures
        r@ == column_spec(value_views(values@), ft@),
    decreases ft, 0int,
{
    let ghost vv = value_views(values@);
    match ft {
        FieldType::Boolean => {
            let mut out: Vec<Option<bool>> = Vec::new();
            let mut i: usize = 0;
            while i < values.len()
                invariant
                    i <= values@.len(),
                    vv == value_views(values@),
                    out@ == Seq::new(i as nat, |j: int| bool_of(vv[j])),
                decreases values@.len() - i,
            {
                let x = match values[i] {
                    Some(JsonValue::Bool(b)) => Some(*b),
                    _ => None,
                };
                out.push(x);
                i = i + 1;
                assert(out@ =~= Seq::new(i as nat, |j: int| bool_of(vv[j])));
            }
            Column::Boolean(out)
        },
        FieldType::Integer => {
            let mut out: Vec<Option<i64>> = Vec::new();
            let mut i: usize = 0;
            while i < values.len()
                invariant
                    i <= values@.len(),
                    vv == value_views(values@),
                    out@ == Seq::new(i as nat, |j: int| int_of(vv[j])),
                decreases values@.len() - i,
            {
                let x = match values[i] {
                    Some(JsonValue::Number(JsonNumber::Int(n))) => Some(*n),
                    _ => None,
                };
                out.push(x);
                i = i + 1;
                assert(out@ =~= Seq::new(i as nat, |j: int| int_of(vv[j])));
            }
            Column::Integer(out)
        },
        FieldType::Float => {
            let mut out: Vec<Option<JsonNumber>> = Vec::new();
            let mut i: usize = 0;
            while i < values.len()
                invariant
                    i <= values@.len(),
                    vv == value_views(values@),
                    opt_num_views(out@) == Seq::new(i as nat, |j: int| number_of(vv[j])),
                decreases values@.len() - i,
            {
                let x = match values[i] {
                    Some(JsonValue::Number(n)) => match JsonValue::Number(
                        match n {
                            JsonNumber::Int(k) => JsonNumber::Int(*k),
                            JsonNumber::BigUint(u, f) => JsonNumber::BigUint(
                                *u,
                                match f {
                                    Some(f) => Some(f.duplicate()),
                                    None => None,
                                },
                            ),
                            JsonNumber::Float(f) => JsonNumber::Float(f.duplicate()),
                        },
                    ) {
                        JsonValue::Number(m) => Some(m),
                        _ => None,
                    },
                    _ => None,
                };
                proof {
                    lemma_nums_push(out@, x);
                    assert(vv[i as int] == match values@[i as int] {
                        Some(v) => Some(v@),
                        None => None,
                    });
                }
                out.push(x);
                i = i + 1;
                assert(opt_num_views(out@) =~= Seq::new(i as nat, |j: int| number_of(vv[j])));
            }
            Column::Float(out)
        },
        FieldType::String => {
            let mut out: Vec<Option<String>> = Vec::new();
            let mut i: usize = 0;
            while i < values.len()
                invariant
                    i <= values@.len(),
                    vv == value_views(values@),
                    opt_string_views(out@) == Seq::new(i as nat, |j: int| text_of(vv[j])),
                decreases values@.len() - i,
            {
                let x = match values[i] {
                    None => None,
                    Some(JsonValue::Null) => None,
                    Some(JsonValue::String(s)) => Some(s.clone()),
                    Some(other) => Some(to_json_string(other)),
                };
                proof {
                    lemma_strings_push(out@, x);
                    assert(vv[i as int] == match values@[i as int] {
                        Some(v) => Some(v@),
                        None => None,
                    });
                }
                out.push(x);
                i = i + 1;
                assert(opt_string_views(out@) =~= Seq::new(i as nat, |j: int| text_of(vv[j])));
            }
            Column::String(out)
        },
        FieldType::Date => {
            let mut out: Vec<Option<i32>> = Vec::new();
            let mut i: usize = 0;
            while i < values.len()
                invariant
                    i <= values@.len(),
                    vv == value_views(values@),
                    out@ == Seq::new(i as nat, |j: int| date_of(vv[j])),
                decreases values@.len() - i,
            {
                let x = match values[i] {
                    Some(JsonValue::String(s)) => date_days(s.as_str()),
                    _ => None,
                };
                proof {
                    assert(vv[i as int] == match values@[i as int] {
                        Some(v) => Some(v@),
                        None => None,
                    });
                }
                out.push(x);
                i = i + 1;
                assert(out@ =~= Seq::new(i as nat, |j: int| date_of(vv[j])));
            }
            Column::Date(out)
        },
        FieldType::DateTime => {
            let mut out: Vec<Option<i64>> = Vec::new();
            let mut i: usize = 0;
            while i < values.len()
                invariant
                    i <= values@.len(),
                    vv == value_views(values@),
                    out@ == Seq::new(i as nat, |j: int| datetime_of(vv[j])),
                decreases values@.len() - i,
            {
                let x = match values[i] {
                    Some(JsonValue::String(s)) => rfc3339_epoch_millis(s.as_str()),
                    _ => None,
                };
                proof {
                    assert(vv[i as int] == match values@[i as int] {
                        Some(v) => Some(v@),
                        None => None,
                    });
                }
                out.push(x);
                i = i + 1;
                assert(out@ =~= Seq::new(i as nat, |j: int| datetime_of(vv[j])));
            }
            Column::DateTime(out)
        },
        FieldType::Array(inner) => {
            let mut offsets: Vec<i32> = Vec::new();
            offsets.push(0);
            let mut child: Vec<Option<&JsonValue>> = Vec::new();
            let mut valid: Vec<bool> = Vec::new();
            let mut i: usize = 0;
            assert(vv.take(0) =~= Seq::<Option<JsonV>>::empty());
            assert(value_views(child@) =~= Seq::<Option<JsonV>>::empty());
            while i < values.len()
                invariant
                    i <= values@.len(),
                    vv == value_views(values@),
                    value_views(child@) == flatten(vv.take(i as int)),
                    offsets@ == list_offsets(vv.take(i as int)),
                    valid@ == Seq::new(i as nat, |j: int| vv[j] matches Some(JsonV::Array(_))),
                decreases values@.len() - i,
            {
                let ghost before = value_views(child@);
                proof {
                    let t = vv.take(i + 1);
                    assert(t.drop_last() =~= vv.take(i as int));
                    assert(t.last() == vv[i as int]);
                }
                match values[i] {
                    Some(JsonValue::Array(arr)) => {
                        proof {
                            lemma_json_items_view(arr@);
                        }
                        let mut j: usize = 0;
                        while j < arr.len()
                            invariant
                                j <= arr@.len(),
                                json_items_view(arr@).len() == arr@.len(),
                                forall|t: int| 0 <= t < arr@.len() ==> #[trigger] json_items_view(arr@)[t] == arr@[t]@,
                                value_views(child@) == before + Seq::new(
                                    j as nat,
                                    |t: int| Some(json_items_view(arr@)[t]),
                                ),
                            decreases arr@.len() - j,
                        {
                            proof {
                                lemma_values_push(child@, Some(&arr[j as int]));
                            }
                            child.push(Some(&arr[j]));
                            j = j + 1;
                            assert(value_views(child@) =~= before + Seq::new(
                                j as nat,
                                |t: int| Some(json_items_view(arr@)[t]),
                            ));
                        }
                        valid.push(true);
                    },
                    _ => {
                        assert(value_views(child@) =~= before + Seq::empty());
                        valid.push(false);
                    },
                }
                let n = child.len();
                #[verifier::truncate]
                let off = n as i32;
                offsets.push(off);
                i = i + 1;
                assert(valid@ =~= Seq::new(i as nat, |j: int| vv[j] matches Some(JsonV::Array(_))));
            }
            assert(vv.take(values@.len() as int) =~= vv);
            let items = build_column(&child, inner);
            Column::List { offsets, valid, items: Box::new(items), item_type: inner.duplicate() }
        },
        FieldType::Object(fields) => {
            let mut valid: Vec<bool> = Vec::new();
            let mut i: usize = 0;
            while i < values.len()
                invariant
                    i <= values@.len(),
                    vv == value_views(values@),
                    valid@ == Seq::new(i as nat, |j: int| vv[j] matches Some(JsonV::Object(_))),
                decreases values@.len() - i,
            {
                let x = match values[i] {
                    Some(JsonValue::Object(_)) => true,
                    _ => false,
                };
                valid.push(x);
                i = i + 1;
                assert(valid@ =~= Seq::new(i as nat, |j: int| vv[j] matches Some(JsonV::Object(_))));
            }
            let mut children: Vec<(String, FieldType, Column)> = Vec::new();
            proof {
                lemma_field_pairs_view(fields@);
                lemma_children_view(children@);
            }
            assert(field_pairs_view(fields@).take(0) =~= Seq::<(Seq<char>, FieldTypeV)>::empty());
            assert(children_view(children@) =~= Seq::<(Seq<char>, FieldTypeV, ColumnV)>::empty());
            build_children(values, fields, 0, &mut children);
            assert(field_pairs_view(fields@).take(fields@.len() as int) =~= field_pairs_view(fields@));
            Column::Struct { valid, children }
        },
    }
}

fn member_refs<'a>(values: &Vec<Option<&'a JsonValue>>, name: &str) -> (r: Vec<Option<&'a JsonValue>>)
    ensures
        value_views(r@) == member_values(value_views(values@), name@),
{
    let ghost vv = value_views(values@);
    let mut out: Vec<Option<&'a JsonValue>> = Vec::new();
    let mut i: usize = 0;
    while i < values.len()
        invariant
            i <= values@.len(),
            vv == value_views(values@),
            value_views(out@) == Seq::new(
                i as nat,
                |j: int|
                    match vv[j] {
                        Some(v) => member(v, name@),
                        None => None,
                    },
            ),
        decreases values@.len() - i,
    {
        let x = match values[i] {
            Some(v) => v.get(name),
            None => None,
        };
        proof {
            lemma_values_push(out@, x);
            assert(vv[i as int] == match values@[i as int] {
                Some(v) => Some(v@),
                None => None,
            });
        }
        out.push(x);
        i = i + 1;
        assert(value_views(out@) =~= Seq::new(
            i as nat,
            |j: int|
                match vv[j] {
                    Some(v) => member(v, name@),
                    None => None,
                },
        ));
    }
    out
}

fn build_children(
    values: &Vec<Option<&JsonValue>>,
    fields: &Vec<(String, FieldType)>,
    k: usize,
    out: &mut Vec<(String, FieldType, Column)>,
)
    requires
        k <= fields@.len(),
        children_view(old(out)@) == struct_children(
            value_views(values@),
            field_pairs_view(fields@).take(k as int),
        ),
    ensures
        children_view(final(out)@) == struct_children(
            value_views(values@),
            field_pairs_view(fields@).take(fields@.len() as int),
        ),
    decreases fields, fields@.len() - k,
{
    if k >= fields.len() {
        return;
    }
    proof {
        lemma_field_pairs_view(fields@);
        let f = field_pairs_view(fields@).take(k + 1);
        assert(f.drop_last() =~= field_pairs_view(fields@).take(k as int));
        assert(f.last() == (fields@[k as int].0@, fields@[k as int].1@));
    }
    let sub = member_refs(values, fields[k].0.as_str());
    let col = build_column(&sub, &fields[k].1);
    let entry = (fields[k].0.clone(), fields[k].1.duplicate(), col);
    proof {
        lemma_children_view(out@);
        lemma_children_view(out@.push(entry));
        assert(children_view(out@.push(entry)) =~= children_view(out@).push(
            (entry.0@, entry.1@, column_view(entry.2)),
        ));
    }
    out.push(entry);
    build_children(values, fields, k + 1, out);
}

} // verus!
