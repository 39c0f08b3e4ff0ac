//! What validation leaves for the round trip through JSON Schema: a
//! configuration that `MdvsToml::validate` accepts is read back from its
//! schema, unless a constraints table is empty or a float bound is not
//! finite (or names repeat, or an ignored name heads a dotted field name).

use vstd::prelude::*;
use crate::field_type::FieldTypeV;
use crate::schema::config::{
    TomlFieldV, config_error, constraints_error, field_error, fields_error_from, has_field_named, name_error,
    object_inside_array, prefix_error_from, shape_error_from, shape_type_error,
};
use crate::schema::json_schema::to_canonical::{split_dots, split_from};
use crate::schema::json_schema::tree_roundtrip::{lemma_canonical_roundtrip_tree, lemma_split_nonempty, prefix_related, segments, tree_config};
use crate::schema::constraints::{ConstraintsV, KindV, active_spec, config_errors, kind_error, opt_seq, self_errors_from};
use crate::schema::constraints::categories::{first_misfit, is_string_like, values_error};
use crate::schema::constraints::range::{bound_error, bounds_error};
use crate::schema::json_schema::roundtrip::{
    constrained_type, json_portable, portable_constraints, portable_field, portable_type, scalar_type,
};
use crate::schema::json_schema::to_canonical::finite_bits;
use crate::schema::shared::{FtsV, type_of, type_pairs_of};
use crate::schema::toml_value::TomlV;

verus! {

/// A field type with no `Date` or `DateTime` in it.
pub open spec fn dateless(t: FieldTypeV) -> bool
    decreases t,
{
    match t {
        FieldTypeV::Date => false,
        FieldTypeV::DateTime => false,
        FieldTypeV::Array(inner) => dateless(*inner),
        FieldTypeV::Object(fields) => forall|i: int| 0 <= i < fields.len() ==> dateless(#[trigger] fields[i].1),
        _ => true,
    }
}

/// The serde form names no date type.
proof fn lemma_type_of_dateless(t: FtsV)
    requires
        type_of(t) is Ok,
    ensures
        dateless(type_of(t)->Ok_0),
    decreases t,
{
    match t {
        FtsV::Scalar(n) => {},
        FtsV::Array(a) => {
            lemma_type_of_dateless(*a);
        },
        FtsV::Object(ps) => {
            lemma_pairs_dateless(ps);
        },
    }
}

proof fn lemma_pairs_dateless(ps: Seq<(Seq<char>, FtsV)>)
    requires
        type_pairs_of(ps) is Ok,
    ensures
        forall|i: int| 0 <= i < type_pairs_of(ps)->Ok_0.len() ==> dateless(#[trigger] type_pairs_of(ps)->Ok_0[i].1),
        type_pairs_of(ps)->Ok_0.len() == ps.len(),
    decreases ps,
{
    if ps.len() > 0 {
        lemma_type_of_dateless(ps[0].1);
        lemma_pairs_dateless(ps.drop_first());
        let r = type_pairs_of(ps)->Ok_0;
        let rest = type_pairs_of(ps.drop_first())->Ok_0;
        assert forall|i: int| 0 <= i < r.len() implies dateless(#[trigger] r[i].1) by {
            if i > 0 {
                assert(r[i] == rest[i - 1]);
            }
        }
    }
}

/// A type other than an object, with no date type and no object inside an
/// array, is a scalar or arrays of a scalar, which the schema carries.
proof fn lemma_flat_type_portable(t: FieldTypeV)
    requires
        dateless(t),
        !(t is Object),
        !object_inside_array(t),
    ensures
        portable_type(t),
    decreases t,
{
    if let FieldTypeV::Array(inner) = t {
        lemma_flat_type_portable(*inner);
    }
}

/// No error among the constraints' own checks means none of them fails.
proof fn lemma_no_self_errors(a: Seq<KindV>, name: Seq<char>, t: FieldTypeV, i: int)
    requires
        0 <= i,
        self_errors_from(a, name, t, i).len() == 0,
    ensures
        forall|j: int| i <= j < a.len() ==> #[trigger] kind_error(a[j], name, t) is None,
    decreases a.len() - i,
{
    if i < a.len() {
        assert(opt_seq(kind_error(a[i], name, t)).len() == 0);
        lemma_no_self_errors(a, name, t, i + 1);
    }
}

/// Categories that all fit their kind are strings or integers.
proof fn lemma_fitting_values(values: Seq<TomlV>, integer: bool, i: int)
    requires
        0 <= i,
        first_misfit(values, integer, i) is None,
    ensures
        forall|j: int| i <= j < values.len() ==> json_portable(#[trigger] values[j]),
    decreases values.len() - i,
{
    if i < values.len() {
        lemma_fitting_values(values, integer, i + 1);
    }
}

/// Float bounds, when present, are finite.
pub open spec fn finite_bounds(c: ConstraintsV) -> bool {
    &&& (c.min matches Some(TomlV::Float(f)) ==> finite_bits(f.bits))
    &&& (c.max matches Some(TomlV::Float(f)) ==> finite_bits(f.bits))
}

/// **Fields that validation accepts come back from their schema.** A
/// field that passes every check `MdvsToml::validate` makes of a single
/// field, whose type names a known field type, and whose constraints table,
/// when it has one, sets at least one constraint and has finite float
/// bounds, is a [`portable_field`]: its schema reads back as the field.
pub proof fn lemma_valid_field_portable(f: TomlFieldV)
    requires
        field_error(f) is None,
        type_of(f.field_type) is Ok,
        f.constraints matches Some(c) ==> (c.categories is Some || c.min is Some || c.max is Some
            || c.min_length is Some || c.max_length is Some || c.pattern is Some) && finite_bounds(c),
    ensures
        portable_field(f),
{
    let t = type_of(f.field_type)->Ok_0;
    assert(shape_type_error(f.name, f.field_type) is None);
    assert(constraints_error(f) is None);
    lemma_type_of_dateless(f.field_type);
    lemma_flat_type_portable(t);
    if let Some(c) = f.constraints {
        let a = active_spec(c);
        assert(config_errors(c, f.name, t).len() == 0);
        lemma_no_self_errors(a, f.name, t, 0);
        assert(a.len() > 0);
        // every set constraint applies to `t`; its literals carry over
        if let Some(v) = c.categories {
            assert(a[0] == KindV::Categories(v));
            assert(kind_error(a[0], f.name, t) is None);
            let integer = match t {
                FieldTypeV::Array(inner) => !is_string_like(*inner),
                _ => !is_string_like(t),
            };
            assert(values_error(f.name, v, integer) is None);
            lemma_fitting_values(v, integer, 0);
            if let FieldTypeV::Array(inner) = t {
                assert(dateless(*inner));
            }
            assert(scalar_type(constrained_type(t)) && !(constrained_type(t) is Boolean));
        }
        let k1: int = if c.categories is Some { 1 } else { 0 };
        if c.min is Some || c.max is Some {
            assert(a[k1] == KindV::Range(c.min, c.max));
            assert(kind_error(a[k1], f.name, t) is None);
            let integer = match t {
                FieldTypeV::Array(inner) => *inner == FieldTypeV::Integer,
                _ => t == FieldTypeV::Integer,
            };
            assert(bounds_error(f.name, c.min, c.max, integer) is None);
            if let Some(v) = c.min {
                assert(bound_error(f.name, "min"@, v, integer) is None);
            }
            if let Some(v) = c.max {
                assert(bound_error(f.name, "max"@, v, integer) is None);
            }
            assert(scalar_type(constrained_type(t)) && !(constrained_type(t) is Boolean));
        }
        let k2: int = k1 + if c.min is Some || c.max is Some { 1int } else { 0int };
        if c.min_length is Some || c.max_length is Some {
            assert(a[k2] == KindV::Length(c.min_length, c.max_length));
            assert(kind_error(a[k2], f.name, t) is None);
            assert(scalar_type(constrained_type(t)) && !(constrained_type(t) is Boolean));
        }
        let k3: int = k2 + if c.min_length is Some || c.max_length is Some { 1int } else { 0int };
        if let Some(p) = c.pattern {
            assert(a[k3] == KindV::Pattern(p));
            assert(kind_error(a[k3], f.name, t) is None);
            assert(scalar_type(constrained_type(t)) && !(constrained_type(t) is Boolean));
        }
        assert(scalar_type(constrained_type(t)));
        assert(!(constrained_type(t) is Boolean));
        assert(portable_constraints(c));
    }
}

/// The segments of a dotted name joined by dots.
pub open spec fn join_dots(segs: Seq<Seq<char>>) -> Seq<char>
    decreases segs.len(),
{
    if segs.len() <= 1 {
        if segs.len() == 1 {
            segs[0]
        } else {
            Seq::empty()
        }
    } else {
        segs[0] + seq!['.'] + join_dots(segs.drop_first())
    }
}

/// Joining lists one after the other puts a dot between them.
proof fn lemma_join_concat(a: Seq<Seq<char>>, b: Seq<Seq<char>>)
    requires
        a.len() >= 1,
        b.len() >= 1,
    ensures
        join_dots(a + b) == join_dots(a) + seq!['.'] + join_dots(b),
    decreases a.len(),
{
    if a.len() == 1 {
        assert((a + b).drop_first() =~= b);
    } else {
        lemma_join_concat(a.drop_first(), b);
        assert((a + b).drop_first() =~= a.drop_first() + b);
        assert(a[0] + seq!['.'] + (join_dots(a.drop_first()) + seq!['.'] + join_dots(b)) =~= (a[0] + seq!['.']
            + join_dots(a.drop_first())) + seq!['.'] + join_dots(b));
    }
}

/// The segments of a name join back to the name.
proof fn lemma_join_split(s: Seq<char>, cur: Seq<char>)
    ensures
        join_dots(split_from(s, cur)) == cur + s,
    decreases s.len(),
{
    if s.len() == 0 {
        assert(cur + s =~= cur);
    } else if s[0] == '.' {
        let rest = split_from(s.drop_first(), Seq::empty());
        lemma_split_nonempty(s.drop_first(), Seq::empty());
        lemma_join_split(s.drop_first(), Seq::empty());
        lemma_join_concat(seq![cur], rest);
        assert(Seq::<char>::empty() + s.drop_first() =~= s.drop_first());
        assert(cur + seq!['.'] + s.drop_first() =~= cur + s);
    } else {
        lemma_join_split(s.drop_first(), cur.push(s[0]));
        assert(cur.push(s[0]) + s.drop_first() =~= cur + s);
    }
}

/// Segment lists related by prefix: the shorter is the start of the
/// longer.
proof fn lemma_prefix_related_take(a: Seq<Seq<char>>, b: Seq<Seq<char>>)
    requires
        prefix_related(a, b),
        a.len() <= b.len(),
    ensures
        a == b.take(a.len() as int),
    decreases a.len(),
{
    if a.len() > 0 {
        lemma_prefix_related_take(a.drop_first(), b.drop_first());
        assert(a =~= b.take(a.len() as int)) by {
            assert forall|i: int| 0 <= i < a.len() implies a[i] == b[i] by {
                if i > 0 {
                    assert(a[i] == a.drop_first()[i - 1]);
                    assert(b.drop_first().take(a.len() - 1)[i - 1] == b[i]);
                }
            }
        }
    } else {
        assert(a =~= b.take(0));
    }
}

/// A name whose segments start another name's, but differ from them, is
/// that name's dotted prefix.
proof fn lemma_segment_prefix(a: Seq<char>, b: Seq<char>)
    requires
        prefix_related(split_dots(a), split_dots(b)),
        split_dots(a).len() <= split_dots(b).len(),
        a != b,
    ensures
        a.len() < b.len(),
        b[a.len() as int] == '.',
        b.subrange(0, a.len() as int) == a,
{
    let sa = split_dots(a);
    let sb = split_dots(b);
    lemma_split_nonempty(a, Seq::empty());
    lemma_split_nonempty(b, Seq::empty());
    lemma_prefix_related_take(sa, sb);
    lemma_join_split(a, Seq::empty());
    lemma_join_split(b, Seq::empty());
    assert(Seq::<char>::empty() + a =~= a);
    assert(Seq::<char>::empty() + b =~= b);
    if sa.len() == sb.len() {
        assert(sa =~= sb);
    } else {
        let rest = sb.skip(sa.len() as int);
        assert(sb =~= sa + rest);
        lemma_join_concat(sa, rest);
        assert(b == a + seq!['.'] + join_dots(rest));
        assert(b.subrange(0, a.len() as int) =~= a);
    }
}

/// No shape conflict for a name means no dotted prefix of it is a field.
proof fn lemma_no_prefix_error(fs: Seq<TomlFieldV>, name: Seq<char>, k: int, m: int)
    requires
        0 <= k <= m < name.len(),
        prefix_error_from(fs, name, k) is None,
        name[m] == '.',
    ensures
        !has_field_named(fs, name.subrange(0, m)),
    decreases m - k,
{
    if k < m {
        lemma_no_prefix_error(fs, name, k + 1, m);
    }
}

proof fn lemma_no_shape_error(fs: Seq<TomlFieldV>, i: int, j: int)
    requires
        0 <= i <= j < fs.len(),
        shape_error_from(fs, i) is None,
    ensures
        prefix_error_from(fs, fs[j].name, 0) is None,
    decreases j - i,
{
    if i < j {
        lemma_no_shape_error(fs, i + 1, j);
    }
}

proof fn lemma_no_field_error(fs: Seq<TomlFieldV>, i: int, j: int)
    requires
        0 <= i <= j < fs.len(),
        fields_error_from(fs, i) is None,
    ensures
        field_error(fs[j]) is None,
    decreases j - i,
{
    if i < j {
        lemma_no_field_error(fs, i + 1, j);
    }
}

/// A name that does not start with a dot has a non-empty first segment.
proof fn lemma_first_segment_nonempty(s: Seq<char>, cur: Seq<char>)
    requires
        cur.len() > 0 || (s.len() > 0 && s[0] != '.'),
    ensures
        split_from(s, cur)[0].len() > 0,
    decreases s.len(),
{
    if s.len() > 0 && s[0] != '.' {
        lemma_first_segment_nonempty(s.drop_first(), cur.push(s[0]));
    }
}

/// Two distinct field names of a configuration that validation accepts
/// are not one the other's dotted prefix.
proof fn lemma_names_apart(fs: Seq<TomlFieldV>, i: int, j: int)
    requires
        0 <= i < fs.len(),
        0 <= j < fs.len(),
        shape_error_from(fs, 0) is None,
        fs[i].name != fs[j].name,
    ensures
        !prefix_related(segments(fs[i]), segments(fs[j])),
{
    let a = fs[i].name;
    let b = fs[j].name;
    if prefix_related(split_dots(a), split_dots(b)) {
        if split_dots(a).len() <= split_dots(b).len() {
            lemma_segment_prefix(a, b);
            lemma_no_shape_error(fs, 0, j);
            lemma_no_prefix_error(fs, b, 0, a.len() as int);
            assert(has_field_named(fs, b.subrange(0, a.len() as int)));
        } else {
            lemma_prefix_related_symmetric(split_dots(a), split_dots(b));
            lemma_segment_prefix(b, a);
            lemma_no_shape_error(fs, 0, i);
            lemma_no_prefix_error(fs, a, 0, b.len() as int);
            assert(has_field_named(fs, a.subrange(0, b.len() as int)));
        }
    }
}

proof fn lemma_prefix_related_symmetric(a: Seq<Seq<char>>, b: Seq<Seq<char>>)
    requires
        prefix_related(a, b),
    ensures
        prefix_related(b, a),
    decreases a.len(),
{
    if a.len() > 0 && b.len() > 0 {
        lemma_prefix_related_symmetric(a.drop_first(), b.drop_first());
    }
}

/// **A configuration that validation accepts comes back from its schema.**
/// When `MdvsToml::validate` accepts the fields and ignored names, every
/// field's type names a known field type, every constraints table sets at
/// least one constraint and has finite float bounds, the field names are
/// distinct, the ignored names are distinct, and no ignored name is the
/// first segment of a field name, the configuration is read back from its
/// canonical schema as the same fields and ignored names, up to order.
pub proof fn lemma_valid_config_roundtrip(fields: Seq<TomlFieldV>, ignore: Seq<Seq<char>>)
    requires
        config_error(ignore, fields) is None,
        forall|i: int| 0 <= i < fields.len() ==> type_of(#[trigger] fields[i].field_type) is Ok,
        forall|i: int| 0 <= i < fields.len() ==> (#[trigger] fields[i].constraints matches Some(c) ==> (
            c.categories is Some || c.min is Some || c.max is Some || c.min_length is Some || c.max_length is Some
                || c.pattern is Some) && finite_bounds(c)),
        forall|i: int, j: int| 0 <= i < j < fields.len() ==> #[trigger] fields[i].name != #[trigger] fields[j].name,
        forall|i: int, j: int| 0 <= i < j < ignore.len() ==> #[trigger] ignore[i] != #[trigger] ignore[j],
        forall|i: int, j: int| 0 <= i < ignore.len() && 0 <= j < fields.len() ==> #[trigger] ignore[i]
            != split_dots(#[trigger] fields[j].name)[0],
    ensures
        crate::schema::json_schema::from_canonical::canonical_import(
            crate::schema::json_schema::to_canonical::canonical(fields, ignore),
        ) is Ok,
        crate::schema::json_schema::from_canonical::canonical_import(
            crate::schema::json_schema::to_canonical::canonical(fields, ignore),
        )->Ok_0.0.to_multiset() == fields.to_multiset(),
        crate::schema::json_schema::from_canonical::canonical_import(
            crate::schema::json_schema::to_canonical::canonical(fields, ignore),
        )->Ok_0.1.to_multiset() == ignore.to_multiset(),
{
    assert(fields_error_from(fields, 0) is None);
    assert(shape_error_from(fields, 0) is None);
    assert forall|i: int| 0 <= i < fields.len() implies crate::schema::json_schema::roundtrip::portable_field(
        #[trigger] fields[i],
    ) by {
        lemma_no_field_error(fields, 0, i);
        assert(type_of(fields[i].field_type) is Ok);
        assert(fields[i].constraints matches Some(c) ==> (c.categories is Some || c.min is Some || c.max is Some
            || c.min_length is Some || c.max_length is Some || c.pattern is Some) && finite_bounds(c));
        lemma_valid_field_portable(fields[i]);
    }
    assert forall|i: int| 0 <= i < fields.len() implies (segments(#[trigger] fields[i]).len() == 1
        || segments(fields[i])[0].len() > 0) by {
        lemma_no_field_error(fields, 0, i);
        assert(name_error(fields[i].name) is None);
        lemma_first_segment_nonempty(fields[i].name, Seq::empty());
    }
    assert forall|i: int, j: int| 0 <= i < j < fields.len() implies !prefix_related(
        segments(#[trigger] fields[i]),
        segments(#[trigger] fields[j]),
    ) by {
        lemma_names_apart(fields, i, j);
    }
    assert forall|i: int, j: int| 0 <= i < ignore.len() && 0 <= j < fields.len() implies #[trigger] ignore[i]
        != segments(#[trigger] fields[j])[0] by {
        assert(ignore[i] != split_dots(fields[j].name)[0]);
    }
    assert(tree_config(fields, ignore));
    lemma_canonical_roundtrip_tree(fields, ignore);
}

} // verus!
