//! The in-memory type of a frontmatter field.

use vstd::prelude::*;

verus! {

/// Type of a frontmatter field as inferred from, or checked against, YAML values.
#[derive(Debug)]
pub enum FieldType {
    /// `true` / `false`.
    Boolean,
    /// Whole numbers.
    Integer,
    /// Floating-point numbers.
    Float,
    /// Free text.
    String,
    /// RFC 3339 full date (`YYYY-MM-DD`), stored as a string on disk.
    Date,
    /// RFC 3339 date-time, stored as a string on disk.
    DateTime,
    /// Homogeneous list with the given element type.
    Array(Box<FieldType>),
    /// Nested mapping from child name to child type, in key order.
    Object(Vec<(String, FieldType)>),
}

/// Mathematical model of a [`FieldType`]: names are character sequences.
pub enum FieldTypeV {
    Boolean,
    Integer,
    Float,
    String,
    Date,
    DateTime,
    Array(Box<FieldTypeV>),
    Object(Seq<(Seq<char>, FieldTypeV)>),
}

pub open spec fn field_type_view(t: FieldType) -> FieldTypeV
    decreases t,
{
    match t {
        FieldType::Boolean => FieldTypeV::Boolean,
        FieldType::Integer => FieldTypeV::Integer,
        FieldType::Float => FieldTypeV::Float,
        FieldType::String => FieldTypeV::String,
        FieldType::Date => FieldTypeV::Date,
        FieldType::DateTime => FieldTypeV::DateTime,
        FieldType::Array(inner) => FieldTypeV::Array(Box::new(field_type_view(*inner))),
        FieldType::Object(fields) => FieldTypeV::Object(field_pairs_view(fields@)),
    }
}

pub open spec fn field_pairs_view(s: Seq<(String, FieldType)>) -> Seq<(Seq<char>, FieldTypeV)>
    decreases s,
{
    if s.len() == 0 {
        Seq::empty()
    } else {
        seq![(s[0].0@, field_type_view(s[0].1))] + field_pairs_view(s.drop_first())
    }
}

impl View for FieldType {
    type V = FieldTypeV;

    open spec fn view(&self) -> FieldTypeV {
        field_type_view(*self)
    }
}

} // verus!

verus! {

pub proof fn lemma_field_pairs_view(s: Seq<(String, FieldType)>)
    ensures
        field_pairs_view(s).len() == s.len(),
        forall|j: int|
            0 <= j < s.len() ==> #[trigger] field_pairs_view(s)[j] == (
                s[j].0@,
                field_type_view(s[j].1),
            ),
    decreases s.len(),
{
    if s.len() > 0 {
        lemma_field_pairs_view(s.drop_first());
        assert forall|j: int| 0 <= j < s.len() implies #[trigger] field_pairs_view(s)[j] == (
            s[j].0@,
            field_type_view(s[j].1),
        ) by {
            if j > 0 {
                assert(s.drop_first()[j - 1] == s[j]);
            }
        }
    }
}

impl FieldType {
    /// A structurally equal copy.
    pub fn duplicate(&self) -> (r: FieldType)
        ensures
            r@ == self@,
        decreases self, 0int,
    {
        match self {
            FieldType::Boolean => FieldType::Boolean,
            FieldType::Integer => FieldType::Integer,
            FieldType::Float => FieldType::Float,
            FieldType::String => FieldType::String,
            FieldType::Date => FieldType::Date,
            FieldType::DateTime => FieldType::DateTime,
            FieldType::Array(inner) => FieldType::Array(Box::new(inner.duplicate())),
            FieldType::Object(fields) => {
                let mut out: Vec<(String, FieldType)> = Vec::new();
                Self::duplicate_pairs(fields, 0, &mut out);
                proof {
                    lemma_field_pairs_view(out@);
                    lemma_field_pairs_view(fields@);
                    assert forall|j: int| 0 <= j < out@.len() implies field_pairs_view(out@)[j]
                        == field_pairs_view(fields@)[j] by {
                        assert(same_pair(out@[j], fields@[j]));
                    }
                    assert(field_pairs_view(out@) =~= field_pairs_view(fields@));
                }
                FieldType::Object(out)
            },
        }
    }

    fn duplicate_pairs(v: &Vec<(String, FieldType)>, i: usize, out: &mut Vec<(String, FieldType)>)
        requires
            i <= v@.len(),
            old(out)@.len() == i,
            forall|j: int| 0 <= j < i ==> same_pair(#[trigger] old(out)@[j], v@[j]),
        ensures
            final(out)@.len() == v@.len(),
            forall|j: int| 0 <= j < v@.len() ==> same_pair(#[trigger] final(out)@[j], v@[j]),
        decreases v, v@.len() - i,
    {
        if i >= v.len() {
            return;
        }
        let name = v[i].0.clone();
        let t = v[i].1.duplicate();
        let ghost prev = out@;
        out.push((name, t));
        assert forall|j: int| 0 <= j < i + 1 implies same_pair(#[trigger] out@[j], v@[j]) by {
            if j < i {
                assert(out@[j] == prev[j]);
            }
        }
        Self::duplicate_pairs(v, i + 1, out);
    }
}

/// Two entries with the same name and structurally equal types.
pub open spec fn same_pair(a: (String, FieldType), b: (String, FieldType)) -> bool {
    a.0@ == b.0@ && field_type_view(a.1) == field_type_view(b.1)
}

} // verus!

verus! {

/// Short human-readable name of a field type (for error messages).
pub open spec fn kind_name(t: FieldTypeV) -> Seq<char> {
    match t {
        FieldTypeV::Boolean => "Boolean"@,
        FieldTypeV::Integer => "Integer"@,
        FieldTypeV::Float => "Float"@,
        FieldTypeV::String => "String"@,
        FieldTypeV::Date => "Date"@,
        FieldTypeV::DateTime => "DateTime"@,
        FieldTypeV::Array(_) => "Array"@,
        FieldTypeV::Object(_) => "Object"@,
    }
}

/// Short human-readable name of a field type (for error messages).
pub fn field_type_name(ft: &FieldType) -> (r: &'static str)
    ensures
        r@ == kind_name(ft@),
{
    match ft {
        FieldType::Boolean => "Boolean",
        FieldType::Integer => "Integer",
        FieldType::Float => "Float",
        FieldType::String => "String",
        FieldType::Date => "Date",
        FieldType::DateTime => "DateTime",
        FieldType::Array(_) => "Array",
        FieldType::Object(_) => "Object",
    }
}

} // verus!

verus! {

pub proof fn lemma_field_pairs_keys(s: Seq<(String, FieldType)>)
    ensures
        crate::keyed::keys_of_view(field_pairs_view(s)) == crate::keyed::keys_of(s),
{
    lemma_field_pairs_view(s);
    assert(crate::keyed::keys_of_view(field_pairs_view(s)) =~= crate::keyed::keys_of(s));
}

/// Maps `k` to `t` among an object type's children (kept in key order).
pub fn object_field_insert(entries: &mut Vec<(String, FieldType)>, k: String, t: FieldType)
    ensures
        field_pairs_view(final(entries)@) == crate::keyed::entries_insert(
            field_pairs_view(old(entries)@),
            k@,
            t@,
        ),
{
    proof {
        lemma_field_pairs_view(entries@);
        lemma_field_pairs_keys(entries@);
    }
    let (pos, found) = crate::keyed::key_position(entries, k.as_str());
    let ghost old_e = entries@;
    let ghost kv = k@;
    let ghost tv = t@;
    if found {
        entries.set(pos, (k, t));
        proof {
            lemma_field_pairs_view(entries@);
            assert(field_pairs_view(entries@) =~= field_pairs_view(old_e).update(pos as int, (kv, tv)));
        }
    } else {
        entries.insert(pos, (k, t));
        proof {
            lemma_field_pairs_view(entries@);
            assert(field_pairs_view(entries@) =~= field_pairs_view(old_e).insert(pos as int, (kv, tv)));
        }
    }
}

} // verus!
