//! Field-value constraints: the flat serde layer ([`Constraints`]) and the
//! behaviour layer ([`ConstraintKind`]) used for config-time validation.

pub mod categories;
pub mod length;
pub mod pattern;
pub mod range;

use vstd::prelude::*;
use crate::field_type::{FieldType, FieldTypeV};
use crate::schema::toml_value::{TomlV, TomlValue, toml_items_view};
use crate::schema::constraints::categories::categories_error;
use crate::schema::constraints::length::{field_prefix, field_prefix_string, length_error};
use crate::schema::constraints::pattern::pattern_error;
use crate::schema::constraints::range::{opt_toml_view, range_error};
use crate::text::{push_str, views};

verus! {

/// Flat serde layer for `[fields.field.constraints]`: each constraint kind
/// is optional, absent means unconstrained.
#[derive(Debug, PartialEq, Default)]
pub struct Constraints {
    /// Restrict values to an enumerated set (String, Integer, Date, DateTime
    /// and arrays of them).
    pub categories: Option<Vec<TomlValue>>,
    /// Minimum value, inclusive (Integer, Float and arrays of them).
    pub min: Option<TomlValue>,
    /// Maximum value, inclusive (Integer, Float and arrays of them).
    pub max: Option<TomlValue>,
    /// Minimum string length, inclusive (String, Array(String)).
    pub min_length: Option<u64>,
    /// Maximum string length, inclusive (String, Array(String)).
    pub max_length: Option<u64>,
    /// Regex pattern values must match (String, Array(String)).
    pub pattern: Option<String>,
}

/// Behaviour layer: one variant per constraint kind.
#[derive(Debug, PartialEq)]
pub enum ConstraintKind {
    /// Value must be one of the listed categories.
    Categories(Vec<TomlValue>),
    /// Value must fall within [min, max] (inclusive).
    Range {
        /// Lower bound.
        min: Option<TomlValue>,
        /// Upper bound.
        max: Option<TomlValue>,
    },
    /// String length must fall within [min, max] (inclusive).
    Length {
        /// Lower bound.
        min: Option<u64>,
        /// Upper bound.
        max: Option<u64>,
    },
    /// String must match the given regex pattern.
    Pattern(String),
}

/// Model of a [`ConstraintKind`].
pub enum KindV {
    Categories(Seq<TomlV>),
    Range(Option<TomlV>, Option<TomlV>),
    Length(Option<u64>, Option<u64>),
    Pattern(Seq<char>),
}

impl View for ConstraintKind {
    type V = KindV;

    open spec fn view(&self) -> KindV {
        match *self {
            ConstraintKind::Categories(v) => KindV::Categories(toml_items_view(v@)),
            ConstraintKind::Range { min, max } => KindV::Range(opt_toml_view(min), opt_toml_view(max)),
            ConstraintKind::Length { min, max } => KindV::Length(min, max),
            ConstraintKind::Pattern(p) => KindV::Pattern(p@),
        }
    }
}

/// Model of a [`Constraints`].
pub struct ConstraintsV {
    pub categories: Option<Seq<TomlV>>,
    pub min: Option<TomlV>,
    pub max: Option<TomlV>,
    pub min_length: Option<u64>,
    pub max_length: Option<u64>,
    pub pattern: Option<Seq<char>>,
}

impl View for Constraints {
    type V = ConstraintsV;

    open spec fn view(&self) -> ConstraintsV {
        ConstraintsV {
            categories: match self.categories {
                Some(v) => Some(toml_items_view(v@)),
                None => None,
            },
            min: opt_toml_view(self.min),
            max: opt_toml_view(self.max),
            min_length: self.min_length,
            max_length: self.max_length,
            pattern: match self.pattern {
                Some(p) => Some(p@),
                None => None,
            },
        }
    }
}

/// The constraints that are set, in the order categories, range, length, pattern.
pub open spec fn active_spec(c: ConstraintsV) -> Seq<KindV> {
    (match c.categories {
        Some(v) => seq![KindV::Categories(v)],
        None => Seq::empty(),
    }) + (if c.min is Some || c.max is Some {
        seq![KindV::Range(c.min, c.max)]
    } else {
        Seq::empty()
    }) + (if c.min_length is Some || c.max_length is Some {
        seq![KindV::Length(c.min_length, c.max_length)]
    } else {
        Seq::empty()
    }) + (match c.pattern {
        Some(p) => seq![KindV::Pattern(p)],
        None => Seq::empty(),
    })
}

/// A constraint's own error for a field of type `t`, if any.
pub open spec fn kind_error(k: KindV, name: Seq<char>, t: FieldTypeV) -> Option<Seq<char>> {
    match k {
        KindV::Categories(v) => categories_error(name, t, v),
        KindV::Range(lo, hi) => range_error(name, t, lo, hi),
        KindV::Length(lo, hi) => length_error(name, t, lo, hi),
        KindV::Pattern(p) => pattern_error(name, t, p),
    }
}

/// The error for two constraints on the same field, if they conflict.
///
/// Categories is a closed set and combines with nothing; a kind never
/// appears twice; range is numeric while length and pattern are for
/// strings; length and pattern complement each other.
pub open spec fn conflict_error(a: KindV, b: KindV, name: Seq<char>) -> Option<Seq<char>> {
    match (a, b) {
        (KindV::Categories(_), KindV::Categories(_)) => Some(
            field_prefix(name) + "duplicate categories constraint"@,
        ),
        (KindV::Range(_, _), KindV::Range(_, _)) => Some(
            field_prefix(name) + "duplicate range constraint"@,
        ),
        (KindV::Length(_, _), KindV::Length(_, _)) => Some(
            field_prefix(name) + "duplicate length constraint"@,
        ),
        (KindV::Pattern(_), KindV::Pattern(_)) => Some(
            field_prefix(name) + "duplicate pattern constraint"@,
        ),
        (KindV::Categories(_), _) => Some(
            field_prefix(name) + "categories cannot be combined with other constraints"@,
        ),
        (_, KindV::Categories(_)) => Some(
            field_prefix(name) + "categories cannot be combined with other constraints"@,
        ),
        (KindV::Range(_, _), KindV::Length(_, _)) => Some(
            field_prefix(name) + "range and length constraints apply to different field types"@,
        ),
        (KindV::Length(_, _), KindV::Range(_, _)) => Some(
            field_prefix(name) + "range and length constraints apply to different field types"@,
        ),
        (KindV::Range(_, _), KindV::Pattern(_)) => Some(
            field_prefix(name) + "range and pattern constraints apply to different field types"@,
        ),
        (KindV::Pattern(_), KindV::Range(_, _)) => Some(
            field_prefix(name) + "range and pattern constraints apply to different field types"@,
        ),
        _ => None,
    }
}

pub open spec fn opt_seq(o: Option<Seq<char>>) -> Seq<Seq<char>> {
    match o {
        Some(e) => seq![e],
        None => Seq::empty(),
    }
}

/// Phase 1: each active constraint's own error, in order, from index `i`.
pub open spec fn self_errors_from(a: Seq<KindV>, name: Seq<char>, t: FieldTypeV, i: int) -> Seq<
    Seq<char>,
>
    decreases a.len() - i,
{
    if i < 0 || i >= a.len() {
        Seq::empty()
    } else {
        opt_seq(kind_error(a[i], name, t)) + self_errors_from(a, name, t, i + 1)
    }
}

/// Conflicts of constraint `i` with constraints `j`, `j + 1`, ... .
pub open spec fn row_errors(a: Seq<KindV>, name: Seq<char>, i: int, j: int) -> Seq<Seq<char>>
    decreases a.len() - j,
{
    if j < 0 || j >= a.len() || i < 0 || i >= a.len() {
        Seq::empty()
    } else {
        opt_seq(conflict_error(a[i], a[j], name)) + row_errors(a, name, i, j + 1)
    }
}

/// Phase 2: conflicts of every pair `i < j`, ordered by `i` then `j`, from row `i`.
pub open spec fn pair_errors_from(a: Seq<KindV>, name: Seq<char>, i: int) -> Seq<Seq<char>>
    decreases a.len() - i,
{
    if i < 0 || i >= a.len() {
        Seq::empty()
    } else {
        row_errors(a, name, i, i + 1) + pair_errors_from(a, name, i + 1)
    }
}

/// All config errors of a field's constraints: each constraint's own
/// error, then every conflicting pair.
pub open spec fn config_errors(c: ConstraintsV, name: Seq<char>, t: FieldTypeV) -> Seq<Seq<char>> {
    let a = active_spec(c);
    self_errors_from(a, name, t, 0) + pair_errors_from(a, name, 0)
}

pub open spec fn kind_views(s: Seq<ConstraintKind>) -> Seq<KindV> {
    Seq::new(s.len(), |i: int| s[i]@)
}

fn copy_opt(o: &Option<TomlValue>) -> (r: Option<TomlValue>)
    ensures
        opt_toml_view(r) == opt_toml_view(*o),
{
    match o {
        Some(v) => Some(v.duplicate()),
        None => None,
    }
}

impl Constraints {
    /// The constraints that are set, as [`ConstraintKind`] variants.
    pub fn active(&self) -> (r: Vec<ConstraintKind>)
        ensures
            kind_views(r@) == active_spec(self@),
    {
        let mut result: Vec<ConstraintKind> = Vec::new();
        let ghost c = self@;
        if let Some(cats) = &self.categories {
            result.push(ConstraintKind::Categories(TomlValue::duplicate_vec(cats)));
        }
        let ghost after_cats = kind_views(result@);
        if self.min.is_some() || self.max.is_some() {
            result.push(ConstraintKind::Range { min: copy_opt(&self.min), max: copy_opt(&self.max) });
        }
        let ghost after_range = kind_views(result@);
        if self.min_length.is_some() || self.max_length.is_some() {
            result.push(ConstraintKind::Length { min: self.min_length, max: self.max_length });
        }
        let ghost after_len = kind_views(result@);
        if let Some(pat) = &self.pattern {
            result.push(ConstraintKind::Pattern(pat.clone()));
        }
        proof {
            assert(after_cats =~= (match c.categories {
                Some(v) => seq![KindV::Categories(v)],
                None => Seq::<KindV>::empty(),
            }));
            assert(kind_views(result@) =~= active_spec(c));
        }
        result
    }

    /// All config errors of these constraints on a field: each constraint's
    /// own applicability and well-formedness error, then every conflicting
    /// pair. Empty means valid.
    pub fn validate_config(&self, field_name: &str, field_type: &FieldType) -> (r: Vec<String>)
        ensures
            views(r@) == config_errors(self@, field_name@, field_type@),
    {
        let active = self.active();
        let ghost a = kind_views(active@);
        let ghost target = config_errors(self@, field_name@, field_type@);
        let mut errors: Vec<String> = Vec::new();
        let mut i: usize = 0;
        while i < active.len()
            invariant
                a == kind_views(active@),
                a == active_spec(self@),
                target == config_errors(self@, field_name@, field_type@),
                i <= active@.len(),
                views(errors@) + self_errors_from(a, field_name@, field_type@, i as int)
                    + pair_errors_from(a, field_name@, 0) == target,
            decreases active@.len() - i,
        {
            let ghost before = views(errors@);
            let e = active[i].validate_for_type(field_name, field_type);
            if let Some(err) = e {
                errors.push(err);
            }
            proof {
                assert(views(errors@) =~= before + opt_seq(
                    kind_error(a[i as int], field_name@, field_type@),
                ));
                assert(self_errors_from(a, field_name@, field_type@, i as int) == opt_seq(
                    kind_error(a[i as int], field_name@, field_type@),
                ) + self_errors_from(a, field_name@, field_type@, i + 1));
                assert(views(errors@) + self_errors_from(a, field_name@, field_type@, i + 1)
                    + pair_errors_from(a, field_name@, 0) =~= target);
            }
            i = i + 1;
        }
        let mut i: usize = 0;
        while i < active.len()
            invariant
                a == kind_views(active@),
                i <= active@.len(),
                views(errors@) + pair_errors_from(a, field_name@, i as int) == target,
            decreases active@.len() - i,
        {
            let mut j: usize = i + 1;
            while j < active.len()
                invariant
                    a == kind_views(active@),
                    i < active@.len(),
                    i + 1 <= j <= active@.len(),
                    views(errors@) + row_errors(a, field_name@, i as int, j as int)
                        + pair_errors_from(a, field_name@, i + 1) == target,
                decreases active@.len() - j,
            {
                let ghost before = views(errors@);
                if let Some(err) = active[i].conflicts_with(&active[j], field_name, field_type) {
                    errors.push(err);
                }
                proof {
                    assert(views(errors@) =~= before + opt_seq(
                        conflict_error(a[i as int], a[j as int], field_name@),
                    ));
                    assert(views(errors@) + row_errors(a, field_name@, i as int, j + 1)
                        + pair_errors_from(a, field_name@, i + 1) =~= target);
                }
                j = j + 1;
            }
            proof {
                assert(views(errors@) + pair_errors_from(a, field_name@, i + 1) =~= target);
            }
            i = i + 1;
        }
        assert(views(errors@) =~= target);
        errors
    }
}

impl ConstraintKind {
    /// This constraint's own applicability / well-formedness error for a
    /// field of the given type.
    pub fn validate_for_type(&self, field_name: &str, field_type: &FieldType) -> (r: Option<
        String,
    >)
        ensures
            match r {
                Some(e) => kind_error(self@, field_name@, field_type@) == Some(e@),
                None => kind_error(self@, field_name@, field_type@) is None,
            },
    {
        match self {
            ConstraintKind::Categories(values) => crate::schema::constraints::categories::validate_for_type(
                field_name,
                field_type,
                values,
            ),
            ConstraintKind::Range { min, max } => crate::schema::constraints::range::validate_for_type(
                field_name,
                field_type,
                min,
                max,
            ),
            ConstraintKind::Length { min, max } => crate::schema::constraints::length::validate_for_type(
                field_name,
                field_type,
                *min,
                *max,
            ),
            ConstraintKind::Pattern(pat) => crate::schema::constraints::pattern::validate_for_type(
                field_name,
                field_type,
                pat.as_str(),
            ),
        }
    }

    /// The error when this constraint and `other` cannot both be set on a field.
    pub fn conflicts_with(&self, other: &ConstraintKind, field_name: &str, _field_type: &FieldType) -> (r:
        Option<String>)
        ensures
            match r {
                Some(e) => conflict_error(self@, other@, field_name@) == Some(e@),
                None => conflict_error(self@, other@, field_name@) is None,
            },
    {
        let text: &str = match (self, other) {
            (ConstraintKind::Categories(_), ConstraintKind::Categories(_)) => "duplicate categories constraint",
            (ConstraintKind::Range { .. }, ConstraintKind::Range { .. }) => "duplicate range constraint",
            (ConstraintKind::Length { .. }, ConstraintKind::Length { .. }) => "duplicate length constraint",
            (ConstraintKind::Pattern(_), ConstraintKind::Pattern(_)) => "duplicate pattern constraint",
            (ConstraintKind::Categories(_), _) | (_, ConstraintKind::Categories(_)) => "categories cannot be combined with other constraints",
            (ConstraintKind::Range { .. }, ConstraintKind::Length { .. }) | (
                ConstraintKind::Length { .. },
                ConstraintKind::Range { .. },
            ) => "range and length constraints apply to different field types",
            (ConstraintKind::Range { .. }, ConstraintKind::Pattern(_)) | (
                ConstraintKind::Pattern(_),
                ConstraintKind::Range { .. },
            ) => "range and pattern constraints apply to different field types",
            _ => {
                return None;
            },
        };
        let mut m = field_prefix_string(field_name);
        push_str(&mut m, text);
        Some(m)
    }
}

} // verus!
