//! `mdvs.toml`: the configuration structure and its invariants.

use vstd::prelude::*;
use crate::field_type::{FieldType, FieldTypeV, field_pairs_view, lemma_field_pairs_view};
use crate::preprocess::{ValueStage, stage_applies, stage_name};
use crate::schema::constraints::{Constraints, ConstraintsV, config_errors};
use crate::schema::constraints::length::field_prefix;
use crate::schema::shared::{
    ChunkingConfig, EmbeddingModelConfig, FieldTypeSerde, FtsV, ScanConfig, fts_display, type_of,
};
use crate::text::{chars_of, owned, push_str, range_eq_str, str_eq, string_from_range, views};

verus! {

/// Placeholder for future update-specific settings (`[update]`).
#[derive(Debug, PartialEq, Default)]
pub struct UpdateConfig {}

/// Check command settings (`[check]` in `mdvs.toml`).
#[derive(Debug, PartialEq)]
pub struct CheckConfig {
    /// Whether to auto-run update before validating.
    pub auto_update: bool,
}

/// Build workflow settings (`[build]` in `mdvs.toml`).
#[derive(Debug, PartialEq)]
pub struct BuildConfig {
    /// Whether to auto-run update before building.
    pub auto_update: bool,
}

/// Search command settings (`[search]` in `mdvs.toml`).
#[derive(Debug, PartialEq)]
pub struct SearchConfig {
    /// Maximum number of results returned when `--limit` is not specified.
    pub default_limit: usize,
    /// Whether to auto-run update before building (when auto_build is true).
    pub auto_update: bool,
    /// Whether to auto-run build before searching.
    pub auto_build: bool,
    /// Prefix applied to internal column names in `--where` queries.
    pub internal_prefix: String,
    /// Per-column name overrides for internal columns in `--where` queries:
    /// `(column, alias)` pairs with distinct columns.
    pub aliases: Vec<(String, String)>,
}

/// A single `[[fields.field]]` definition: a field's type and the glob
/// patterns that constrain where it may or must appear.
#[derive(Debug, PartialEq)]
pub struct TomlField {
    /// Frontmatter key this definition applies to.
    pub name: String,
    /// Expected type (scalar, array, or object).
    pub field_type: FieldTypeSerde,
    /// Glob patterns for files where this field is allowed.
    pub allowed: Vec<String>,
    /// Glob patterns for files where this field is required.
    pub required: Vec<String>,
    /// Whether null values are accepted for this field.
    pub nullable: bool,
    /// Optional value constraints (categories, range, length, pattern).
    pub constraints: Option<Constraints>,
    /// Stage-2 preprocessors to apply before validation.
    pub preprocess: Vec<ValueStage>,
}

/// Type of a field when `mdvs.toml` names none.
pub fn default_field_type() -> (r: FieldTypeSerde)
    ensures
        r@ == FtsV::Scalar("String"@),
{
    FieldTypeSerde::Scalar(owned("String"))
}

/// `allowed` when `mdvs.toml` names none: everywhere.
pub fn default_allowed() -> (r: Vec<String>)
    ensures
        views(r@) == seq!["**"@],
{
    let mut v = Vec::new();
    v.push(owned("**"));
    assert(views(v@) =~= seq!["**"@]);
    v
}

/// `nullable` when `mdvs.toml` names none.
pub fn default_nullable() -> (r: bool)
    ensures
        r,
{
    true
}

/// The `[fields]` section: ignore list, field definitions and inference thresholds.
#[derive(Debug, PartialEq)]
pub struct FieldsConfig {
    /// Field names to ignore during validation (known but unconstrained).
    pub ignore: Vec<String>,
    /// Constrained field definitions (`[[fields.field]]` entries).
    pub field: Vec<TomlField>,
    /// Maximum distinct values for a field to be auto-inferred as categorical.
    pub max_categories: usize,
    /// Minimum average repetition (occurrences / distinct) for categorical inference.
    pub min_category_repetition: usize,
}

/// Default for [`FieldsConfig::max_categories`].
pub fn default_max_categories() -> (r: usize)
    ensures
        r == 10,
{
    10
}

/// Whether `v` is the default `max_categories` (then it is not written out).
pub fn is_default_max_categories(v: &usize) -> (b: bool)
    ensures
        b == (*v == 10),
{
    *v == default_max_categories()
}

/// Default for [`FieldsConfig::min_category_repetition`].
pub fn default_min_category_repetition() -> (r: usize)
    ensures
        r == 3,
{
    3
}

/// Whether `v` is the default `min_category_repetition`.
pub fn is_default_min_category_repetition(v: &usize) -> (b: bool)
    ensures
        b == (*v == 3),
{
    *v == default_min_category_repetition()
}

/// Top-level representation of `mdvs.toml`.
#[derive(Debug, PartialEq)]
pub struct MdvsToml {
    /// File discovery settings (glob pattern, bare-file handling).
    pub scan: ScanConfig,
    /// Placeholder for future update-specific settings.
    pub update: UpdateConfig,
    /// Check command settings (auto-update).
    pub check: Option<CheckConfig>,
    /// Embedding model identity. Present only when build is configured.
    pub embedding_model: Option<EmbeddingModelConfig>,
    /// Chunk-size settings. Present only when build is configured.
    pub chunking: Option<ChunkingConfig>,
    /// Build workflow settings. Present only when build is configured.
    pub build: Option<BuildConfig>,
    /// Search defaults and auto-build/update settings.
    pub search: Option<SearchConfig>,
    /// Field definitions and ignore list.
    pub fields: FieldsConfig,
}

/// Whether `c` is the default `[update]` section (then it is not written out).
pub fn is_default_update_config(c: &UpdateConfig) -> (b: bool)
    ensures
        b,
{
    true
}

// ---------------------------------------------------------------------------
// Models
// ---------------------------------------------------------------------------

/// Model of a [`TomlField`].
pub struct TomlFieldV {
    pub name: Seq<char>,
    pub field_type: FtsV,
    pub allowed: Seq<Seq<char>>,
    pub required: Seq<Seq<char>>,
    pub nullable: bool,
    pub constraints: Option<ConstraintsV>,
    pub preprocess: Seq<ValueStage>,
}

impl View for TomlField {
    type V = TomlFieldV;

    open spec fn view(&self) -> TomlFieldV {
        TomlFieldV {
            name: self.name@,
            field_type: self.field_type@,
            allowed: views(self.allowed@),
            required: views(self.required@),
            nullable: self.nullable,
            constraints: match self.constraints {
                Some(c) => Some(c@),
                None => None,
            },
            preprocess: self.preprocess@,
        }
    }
}

pub open spec fn field_views(s: Seq<TomlField>) -> Seq<TomlFieldV> {
    Seq::new(s.len(), |i: int| s[i]@)
}

// ---------------------------------------------------------------------------
// Name and glob rules
// ---------------------------------------------------------------------------

/// Two dots in a row at `i`.
pub open spec fn dots_at(name: Seq<char>, i: int) -> bool {
    name[i] == '.' && name[i + 1] == '.'
}

/// The error for a field name that is not dot-separated segments, if any.
pub open spec fn name_error(name: Seq<char>) -> Option<Seq<char>> {
    if name.len() == 0 {
        Some("field name cannot be empty"@)
    } else if name[0] == '.' {
        Some("field name '"@ + name + "' cannot start with '.'"@)
    } else if name.last() == '.' {
        Some("field name '"@ + name + "' cannot end with '.'"@)
    } else if exists|i: int| 0 <= i < name.len() - 1 && #[trigger] dots_at(name, i) {
        Some("field name '"@ + name + "' contains an empty segment between dots ('..')"@)
    } else {
        None
    }
}

/// Check a field name for dot-separator well-formedness: each segment
/// between dots must be non-empty, and the name must not start or end with
/// `.`. Segments may contain spaces or punctuation.
pub fn validate_field_name(name: &str) -> (r: Result<(), String>)
    ensures
        match r {
            Ok(()) => name_error(name@) is None,
            Err(e) => name_error(name@) == Some(e@),
        },
{
    let v = chars_of(name);
    let n = v.len();
    if n == 0 {
        return Err(owned("field name cannot be empty"));
    }
    if v[0] == '.' {
        let mut m = owned("field name '");
        push_str(&mut m, name);
        push_str(&mut m, "' cannot start with '.'");
        return Err(m);
    }
    if v[n - 1] == '.' {
        let mut m = owned("field name '");
        push_str(&mut m, name);
        push_str(&mut m, "' cannot end with '.'");
        return Err(m);
    }
    let mut i: usize = 0;
    while i + 1 < n
        invariant
            v@ == name@,
            n == v@.len(),
            n > 0,
            i + 1 <= n,
            v@[0] != '.',
            v@[n - 1] != '.',
            forall|j: int| 0 <= j < i ==> !#[trigger] dots_at(v@, j),
        decreases n - i,
    {
        if v[i] == '.' && v[i + 1] == '.' {
            assert(dots_at(name@, i as int));
            let mut m = owned("field name '");
            push_str(&mut m, name);
            push_str(&mut m, "' contains an empty segment between dots ('..')");
            return Err(m);
        }
        i = i + 1;
    }
    Ok(())
}

/// Whether a type contains an `Object` directly inside an `Array`, at any depth.
pub open spec fn object_inside_array(t: FieldTypeV) -> bool
    decreases t,
{
    match t {
        FieldTypeV::Array(inner) => (*inner is Object) || object_inside_array(*inner),
        FieldTypeV::Object(fields) => object_inside_array_any(fields),
        _ => false,
    }
}

pub open spec fn object_inside_array_any(fields: Seq<(Seq<char>, FieldTypeV)>) -> bool
    decreases fields,
{
    if fields.len() == 0 {
        false
    } else {
        object_inside_array(fields[0].1) || object_inside_array_any(fields.drop_first())
    }
}

/// True iff a `FieldType` tree contains an `Object` directly inside an `Array`.
pub fn type_contains_object_inside_array(ft: &FieldType) -> (b: bool)
    ensures
        b == object_inside_array(ft@),
    decreases ft, 0int,
{
    match ft {
        FieldType::Array(inner) => {
            let direct = is_object(inner);
            direct || type_contains_object_inside_array(inner)
        },
        FieldType::Object(fields) => {
            proof {
                assert(fields@.skip(0) =~= fields@);
            }
            any_object_inside_array(fields, 0)
        },
        _ => false,
    }
}

fn is_object(t: &FieldType) -> (b: bool)
    ensures
        b == (t@ is Object),
{
    match t {
        FieldType::Object(_) => true,
        _ => false,
    }
}

fn any_object_inside_array(v: &Vec<(String, FieldType)>, i: usize) -> (b: bool)
    requires
        i <= v@.len(),
    ensures
        b == object_inside_array_any(field_pairs_view(v@.skip(i as int))),
    decreases v, v@.len() - i,
{
    let ghost rest = v@.skip(i as int);
    proof {
        lemma_field_pairs_view(rest);
    }
    if i >= v.len() {
        return false;
    }
    proof {
        lemma_field_pairs_view(rest.drop_first());
        assert(rest.drop_first() =~= v@.skip(i + 1));
        assert(field_pairs_view(rest).drop_first() =~= field_pairs_view(rest.drop_first()));
        assert(field_pairs_view(rest)[0].1 == v@[i as int].1@);
    }
    type_contains_object_inside_array(&v[i].1) || any_object_inside_array(v, i + 1)
}

pub open spec fn ends_with(s: Seq<char>, suffix: Seq<char>) -> bool {
    suffix.len() <= s.len() && s.subrange(s.len() - suffix.len(), s.len() as int) == suffix
}

/// Valid formats for allowed / required globs: `*`, `**`, `path/*`, `path/**`.
pub open spec fn glob_format_ok(g: Seq<char>) -> bool {
    g == "*"@ || g == "**"@ || ends_with(g, "/*"@) || ends_with(g, "/**"@)
}

fn ends_with_str(v: &Vec<char>, suffix: &str) -> (b: bool)
    ensures
        b == ends_with(v@, suffix@),
{
    let n = suffix.unicode_len();
    if n > v.len() {
        return false;
    }
    range_eq_str(v, v.len() - n, v.len(), suffix)
}

/// Check if a glob pattern has a valid format for allowed/required lists.
pub fn is_valid_glob_format(glob: &str) -> (b: bool)
    ensures
        b == glob_format_ok(glob@),
{
    let v = chars_of(glob);
    str_eq(glob, "*") || str_eq(glob, "**") || ends_with_str(&v, "/*") || ends_with_str(&v, "/**")
}

/// The directory path of a glob: `""` for `*` and `**`, else the glob
/// without a `/**` or `/*` suffix.
pub open spec fn strip_suffix_spec(g: Seq<char>) -> Seq<char> {
    if g == "*"@ || g == "**"@ {
        Seq::empty()
    } else if ends_with(g, "/**"@) {
        g.subrange(0, g.len() - 3)
    } else if ends_with(g, "/*"@) {
        g.subrange(0, g.len() - 2)
    } else {
        g
    }
}

/// Strip the `/*` or `/**` suffix from a glob to get the directory path.
pub fn strip_glob_suffix(glob: &str) -> (r: String)
    ensures
        r@ == strip_suffix_spec(glob@),
{
    let v = chars_of(glob);
    proof {
        reveal_strlit("/**");
        reveal_strlit("/*");
    }
    if str_eq(glob, "*") || str_eq(glob, "**") {
        String::new()
    } else if ends_with_str(&v, "/**") {
        string_from_range(&v, 0, v.len() - 3)
    } else if ends_with_str(&v, "/*") {
        string_from_range(&v, 0, v.len() - 2)
    } else {
        owned(glob)
    }
}

/// What `globset::Glob::new(pattern)` followed by `compile_matcher().is_match(path)`
/// gives: `None` when the pattern does not compile, else whether `path` matches.
pub uninterp spec fn globset_match(pattern: Seq<char>, path: Seq<char>) -> Option<bool>;

/// Compiles `pattern` with `globset::Glob::new` and tests `path` against
/// the compiled matcher. The contract ties the outcome to its arguments
/// through [`globset_match`] only.
#[verifier::external_body]
fn glob_match(pattern: &str, path: &str) -> (r: Option<bool>)
    ensures
        r == globset_match(pattern@, path@),
{
    match globset::Glob::new(pattern) {
        Ok(g) => Some(g.compile_matcher().is_match(path)),
        Err(_) => None,
    }
}

/// Whether the allowed glob `a` covers the required glob `r`.
pub open spec fn glob_covers(r: Seq<char>, a: Seq<char>) -> bool {
    a == "**"@ || a == r || (a == "*"@ && r == "*"@) || (strip_suffix_spec(r).len() > 0
        && globset_match(a, strip_suffix_spec(r)) == Some(true))
}

/// A required glob is covered if some allowed glob covers it: `**` covers
/// everything, equal globs cover each other, and otherwise the required
/// glob's directory must match the allowed glob.
pub open spec fn covered_spec(r: Seq<char>, allowed: Seq<Seq<char>>) -> bool {
    exists|i: int| 0 <= i < allowed.len() && glob_covers(r, allowed[i])
}

/// `**` covers every required glob, and every glob covers itself: a
/// required glob is covered whenever `**` or the glob itself is allowed.
pub proof fn lemma_listed_is_covered(r: Seq<char>, allowed: Seq<Seq<char>>)
    requires
        allowed.contains("**"@) || allowed.contains(r),
    ensures
        covered_spec(r, allowed),
{
    let i = choose|i: int| 0 <= i < allowed.len() && (allowed[i] == "**"@ || allowed[i] == r);
    assert(glob_covers(r, allowed[i]));
}

/// The keys of a `[[fields.field]]` table in the order they are written.
pub open spec fn field_key_order() -> Seq<Seq<char>> {
    seq!["name"@, "type"@, "allowed"@, "required"@, "nullable"@, "constraints"@, "preprocess"@]
}

/// The first place from `j` on where `key` stands in [`field_key_order`];
/// 7 (after all of them) when it is not there.
pub open spec fn key_place(key: Seq<char>, j: nat) -> nat
    decreases 7 - j,
{
    if j >= 7 {
        7
    } else if field_key_order()[j as int] == key {
        j
    } else {
        key_place(key, j + 1)
    }
}

/// The rank a written `[[fields.field]]` key sorts by: its place in
/// [`field_key_order`], or 7 for any other key (ties between other keys go
/// alphabetically).
pub fn field_key_rank(key: &str) -> (r: usize)
    ensures
        r == key_place(key@, 0),
{
    let names = ["name", "type", "allowed", "required", "nullable", "constraints", "preprocess"];
    let ghost order = field_key_order();
    proof {
        reveal_strlit("name");
        reveal_strlit("type");
        reveal_strlit("allowed");
        reveal_strlit("required");
        reveal_strlit("nullable");
        reveal_strlit("constraints");
        reveal_strlit("preprocess");
    }
    let mut i: usize = 0;
    while i < 7
        invariant
            i <= 7,
            names@.len() == 7,
            order == field_key_order(),
            forall|j: int| 0 <= j < 7 ==> (#[trigger] names@[j])@ == order[j],
            key_place(key@, 0) == key_place(key@, i as nat),
        decreases 7 - i,
    {
        if str_eq(names[i], key) {
            return i;
        }
        i = i + 1;
    }
    7
}

/// Check if a required glob is covered by any allowed glob.
pub fn glob_is_covered(required: &str, allowed: &Vec<String>) -> (b: bool)
    ensures
        b == covered_spec(required@, views(allowed@)),
{
    let req_dir = strip_glob_suffix(required);
    let mut i: usize = 0;
    while i < allowed.len()
        invariant
            req_dir@ == strip_suffix_spec(required@),
            i <= allowed@.len(),
            forall|j: int| 0 <= j < i ==> !glob_covers(required@, #[trigger] views(allowed@)[j]),
        decreases allowed@.len() - i,
    {
        let a = allowed[i].as_str();
        assert(views(allowed@)[i as int] == a@);
        if str_eq(a, "**") {
            assert(glob_covers(required@, views(allowed@)[i as int]));
            return true;
        }
        if str_eq(a, required) {
            assert(glob_covers(required@, views(allowed@)[i as int]));
            return true;
        }
        if str_eq(a, "*") && str_eq(required, "*") {
            assert(glob_covers(required@, views(allowed@)[i as int]));
            return true;
        }
        if req_dir.as_str().unicode_len() > 0 {
            if glob_match(a, req_dir.as_str()) == Some(true) {
                assert(glob_covers(required@, views(allowed@)[i as int]));
                return true;
            }
        }
        i = i + 1;
    }
    false
}

} // verus!

verus! {

// ---------------------------------------------------------------------------
// Config invariants
// ---------------------------------------------------------------------------

/// `a` when it holds an error, else `b`.
pub open spec fn or_else(a: Option<Seq<char>>, b: Option<Seq<char>>) -> Option<Seq<char>> {
    if a is Some {
        a
    } else {
        b
    }
}

pub open spec fn has_field_named(fs: Seq<TomlFieldV>, name: Seq<char>) -> bool {
    exists|j: int| 0 <= j < fs.len() && #[trigger] fs[j].name == name
}

/// Invariant 1: the first ignored name (from `i` on) that is also defined as a field.
pub open spec fn ignore_error_from(ignore: Seq<Seq<char>>, fs: Seq<TomlFieldV>, i: int) -> Option<
    Seq<char>,
>
    decreases ignore.len() - i,
{
    if i < 0 || i >= ignore.len() {
        None
    } else if has_field_named(fs, ignore[i]) {
        Some(
            "field '"@ + ignore[i]
                + "' appears in both [fields].ignore and [[fields.field]] — remove it from one"@,
        )
    } else {
        ignore_error_from(ignore, fs, i + 1)
    }
}

/// Invariant 2: the first glob (from `i` on) with an invalid format.
pub open spec fn glob_format_error_from(name: Seq<char>, globs: Seq<Seq<char>>, i: int) -> Option<
    Seq<char>,
>
    decreases globs.len() - i,
{
    if i < 0 || i >= globs.len() {
        None
    } else if !glob_format_ok(globs[i]) {
        Some(
            field_prefix(name) + "invalid glob pattern '"@ + globs[i]
                + "' — must end with /* or /** (or be * or **)"@,
        )
    } else {
        glob_format_error_from(name, globs, i + 1)
    }
}

/// Invariant 3: the first required glob (from `i` on) no allowed glob covers.
pub open spec fn coverage_error_from(
    name: Seq<char>,
    required: Seq<Seq<char>>,
    allowed: Seq<Seq<char>>,
    i: int,
) -> Option<Seq<char>>
    decreases required.len() - i,
{
    if i < 0 || i >= required.len() {
        None
    } else if !covered_spec(required[i], allowed) {
        Some(
            field_prefix(name) + "required glob '"@ + required[i]
                + "' is not covered by any allowed pattern"@,
        )
    } else {
        coverage_error_from(name, required, allowed, i + 1)
    }
}

pub open spec fn applicable_types_spec(s: ValueStage) -> Seq<char> {
    match s {
        ValueStage::CoerceToString => "String, Array(String)"@,
        ValueStage::WidenIntToFloat => "Float, Array(Float)"@,
    }
}

pub open spec fn seen_before(stages: Seq<ValueStage>, k: int) -> bool {
    exists|j: int| 0 <= j < k && stages[j] == stages[k]
}

/// Invariant 5: the first preprocess entry (from `k` on) that repeats an
/// earlier one or does not apply to the field's type.
pub open spec fn preprocess_error_from(
    name: Seq<char>,
    display: Seq<char>,
    t: FieldTypeV,
    stages: Seq<ValueStage>,
    k: int,
) -> Option<Seq<char>>
    decreases stages.len() - k,
{
    if k < 0 || k >= stages.len() {
        None
    } else if seen_before(stages, k) {
        Some(field_prefix(name) + "duplicate preprocess '"@ + stage_name(stages[k]) + "'"@)
    } else if !stage_applies(stages[k], t) {
        Some(
            field_prefix(name) + "preprocess '"@ + stage_name(stages[k])
                + "' is not applicable to type "@ + display + " (applies only to "@
                + applicable_types_spec(stages[k]) + ")"@,
        )
    } else {
        preprocess_error_from(name, display, t, stages, k + 1)
    }
}

/// Invariants 6 and 9: a type that is `Object` at the top, or holds an
/// `Object` inside an `Array`.
pub open spec fn shape_type_error(name: Seq<char>, ft: FtsV) -> Option<Seq<char>> {
    match type_of(ft) {
        Ok(t) => if t is Object {
            Some(
                field_prefix(name)
                    + "top-level Object type is not supported — flatten into dotted-name leaf fields (e.g. '"@
                    + name + ".<child>')."@,
            )
        } else if object_inside_array(t) {
            Some(
                field_prefix(name)
                    + "Array(Object{...}) is not representable on disk. Consider parallel scalar arrays (see TODO-0156)."@,
            )
        } else {
            None
        },
        Err(_) => None,
    }
}

/// Invariant 4: the first error of the field's constraints.
pub open spec fn constraints_error(f: TomlFieldV) -> Option<Seq<char>> {
    match f.constraints {
        Some(c) => match type_of(f.field_type) {
            Ok(t) => {
                let errs = config_errors(c, f.name, t);
                if errs.len() > 0 {
                    Some(errs[0])
                } else {
                    None
                }
            },
            Err(e) => Some(field_prefix(f.name) + "invalid type — "@ + e),
        },
        None => None,
    }
}

/// Invariant 5 for a field.
pub open spec fn preprocess_error(f: TomlFieldV) -> Option<Seq<char>> {
    if f.preprocess.len() == 0 {
        None
    } else {
        match type_of(f.field_type) {
            Ok(t) => preprocess_error_from(f.name, fts_display(f.field_type), t, f.preprocess, 0),
            Err(e) => Some(field_prefix(f.name) + "invalid type — "@ + e),
        }
    }
}

/// The first invariant a single field breaks, checked in the order
/// name (7), top-level Object (6), Object inside Array (9), glob formats
/// (2), required coverage (3), constraints (4), preprocess (5).
pub open spec fn field_error(f: TomlFieldV) -> Option<Seq<char>> {
    or_else(
        name_error(f.name),
        or_else(
            shape_type_error(f.name, f.field_type),
            or_else(
                glob_format_error_from(f.name, f.allowed + f.required, 0),
                or_else(
                    coverage_error_from(f.name, f.required, f.allowed, 0),
                    or_else(constraints_error(f), preprocess_error(f)),
                ),
            ),
        ),
    )
}

pub open spec fn fields_error_from(fs: Seq<TomlFieldV>, i: int) -> Option<Seq<char>>
    decreases fs.len() - i,
{
    if i < 0 || i >= fs.len() {
        None
    } else {
        or_else(field_error(fs[i]), fields_error_from(fs, i + 1))
    }
}

/// Invariant 8 for one name, from character `k` on: the first strict dotted
/// prefix of `name` that is itself a field name.
pub open spec fn prefix_error_from(fs: Seq<TomlFieldV>, name: Seq<char>, k: int) -> Option<
    Seq<char>,
>
    decreases name.len() - k,
{
    if k < 0 || k >= name.len() {
        None
    } else if name[k] == '.' && has_field_named(fs, name.subrange(0, k)) {
        let p = name.subrange(0, k);
        Some(
            "shape conflict: '"@ + p
                + "' is declared both as a leaf and as a parent of nested leaves (e.g., '"@ + name
                + "'). Pick one — keep '"@ + p
                + "' as a leaf, or remove it and keep only the nested fields."@,
        )
    } else {
        prefix_error_from(fs, name, k + 1)
    }
}

pub open spec fn shape_error_from(fs: Seq<TomlFieldV>, i: int) -> Option<Seq<char>>
    decreases fs.len() - i,
{
    if i < 0 || i >= fs.len() {
        None
    } else {
        or_else(prefix_error_from(fs, fs[i].name, 0), shape_error_from(fs, i + 1))
    }
}

/// The first broken invariant of a config: ignored names (1), then each
/// field in order, then shape conflicts between leaves and parents (8).
pub open spec fn config_error(ignore: Seq<Seq<char>>, fs: Seq<TomlFieldV>) -> Option<Seq<char>> {
    or_else(
        ignore_error_from(ignore, fs, 0),
        or_else(fields_error_from(fs, 0), shape_error_from(fs, 0)),
    )
}

fn field_named(fields: &Vec<TomlField>, name: &str) -> (b: bool)
    ensures
        b == has_field_named(field_views(fields@), name@),
{
    let ghost fs = field_views(fields@);
    let mut j: usize = 0;
    while j < fields.len()
        invariant
            fs == field_views(fields@),
            j <= fields@.len(),
            forall|k: int| 0 <= k < j ==> #[trigger] fs[k].name != name@,
        decreases fields@.len() - j,
    {
        if str_eq(fields[j].name.as_str(), name) {
            assert(fs[j as int].name == name@);
            return true;
        }
        j = j + 1;
    }
    false
}

fn check_globs(name: &str, allowed: &Vec<String>, required: &Vec<String>) -> (r: Result<(), String>)
    ensures
        match r {
            Ok(()) => glob_format_error_from(name@, views(allowed@) + views(required@), 0) is None,
            Err(e) => glob_format_error_from(name@, views(allowed@) + views(required@), 0) == Some(
                e@,
            ),
        },
{
    let ghost all = views(allowed@) + views(required@);
    let mut i: usize = 0;
    while i < allowed.len()
        invariant
            all == views(allowed@) + views(required@),
            i <= allowed@.len(),
            glob_format_error_from(name@, all, 0) == glob_format_error_from(name@, all, i as int),
        decreases allowed@.len() - i,
    {
        assert(all[i as int] == allowed@[i as int]@);
        if !is_valid_glob_format(allowed[i].as_str()) {
            let mut m = crate::schema::constraints::length::field_prefix_string(name);
            push_str(&mut m, "invalid glob pattern '");
            push_str(&mut m, allowed[i].as_str());
            push_str(&mut m, "' — must end with /* or /** (or be * or **)");
            return Err(m);
        }
        i = i + 1;
    }
    let mut i: usize = 0;
    while i < required.len()
        invariant
            all == views(allowed@) + views(required@),
            i <= required@.len(),
            glob_format_error_from(name@, all, 0) == glob_format_error_from(
                name@,
                all,
                allowed@.len() + i,
            ),
        decreases required@.len() - i,
    {
        assert(all[allowed@.len() + i] == required@[i as int]@);
        if !is_valid_glob_format(required[i].as_str()) {
            let mut m = crate::schema::constraints::length::field_prefix_string(name);
            push_str(&mut m, "invalid glob pattern '");
            push_str(&mut m, required[i].as_str());
            push_str(&mut m, "' — must end with /* or /** (or be * or **)");
            return Err(m);
        }
        i = i + 1;
    }
    Ok(())
}

fn check_coverage(name: &str, allowed: &Vec<String>, required: &Vec<String>) -> (r: Result<
    (),
    String,
>)
    ensures
        match r {
            Ok(()) => coverage_error_from(name@, views(required@), views(allowed@), 0) is None,
            Err(e) => coverage_error_from(name@, views(required@), views(allowed@), 0) == Some(e@),
        },
{
    let mut i: usize = 0;
    while i < required.len()
        invariant
            i <= required@.len(),
            coverage_error_from(name@, views(required@), views(allowed@), 0)
                == coverage_error_from(name@, views(required@), views(allowed@), i as int),
        decreases required@.len() - i,
    {
        assert(views(required@)[i as int] == required@[i as int]@);
        if !glob_is_covered(required[i].as_str(), allowed) {
            let mut m = crate::schema::constraints::length::field_prefix_string(name);
            push_str(&mut m, "required glob '");
            push_str(&mut m, required[i].as_str());
            push_str(&mut m, "' is not covered by any allowed pattern");
            return Err(m);
        }
        i = i + 1;
    }
    Ok(())
}

fn check_preprocess(field: &TomlField, ft: &FieldType) -> (r: Result<(), String>)
    ensures
        match r {
            Ok(()) => preprocess_error_from(
                field.name@,
                fts_display(field.field_type@),
                ft@,
                field.preprocess@,
                0,
            ) is None,
            Err(e) => preprocess_error_from(
                field.name@,
                fts_display(field.field_type@),
                ft@,
                field.preprocess@,
                0,
            ) == Some(e@),
        },
{
    let ghost d = fts_display(field.field_type@);
    let stages = &field.preprocess;
    let mut k: usize = 0;
    while k < stages.len()
        invariant
            d == fts_display(field.field_type@),
            stages == &field.preprocess,
            k <= stages@.len(),
            preprocess_error_from(field.name@, d, ft@, stages@, 0) == preprocess_error_from(
                field.name@,
                d,
                ft@,
                stages@,
                k as int,
            ),
        decreases stages@.len() - k,
    {
        let stage = stages[k];
        let mut j: usize = 0;
        let mut dup = false;
        while j < k
            invariant
                j <= k < stages@.len(),
                stage == stages@[k as int],
                dup ==> seen_before(stages@, k as int),
                !dup ==> forall|m: int| 0 <= m < j ==> stages@[m] != stages@[k as int],
            decreases k - j,
        {
            if stages[j] == stage {
                dup = true;
            }
            j = j + 1;
        }
        if dup {
            let mut m = crate::schema::constraints::length::field_prefix_string(
                field.name.as_str(),
            );
            push_str(&mut m, "duplicate preprocess '");
            let s = stage.to_string();
            push_str(&mut m, s.as_str());
            push_str(&mut m, "'");
            return Err(m);
        }
        if !stage.applies_to(ft) {
            let mut m = crate::schema::constraints::length::field_prefix_string(
                field.name.as_str(),
            );
            push_str(&mut m, "preprocess '");
            let s = stage.to_string();
            push_str(&mut m, s.as_str());
            push_str(&mut m, "' is not applicable to type ");
            let t = field.field_type.to_string();
            push_str(&mut m, t.as_str());
            push_str(&mut m, " (applies only to ");
            push_str(&mut m, stage.applicable_types());
            push_str(&mut m, ")");
            return Err(m);
        }
        k = k + 1;
    }
    Ok(())
}

fn invalid_type_message(name: &str, e: &String) -> (r: String)
    ensures
        r@ == field_prefix(name@) + "invalid type — "@ + e@,
{
    let mut m = crate::schema::constraints::length::field_prefix_string(name);
    push_str(&mut m, "invalid type — ");
    push_str(&mut m, e.as_str());
    m
}

fn check_field(field: &TomlField) -> (r: Result<(), String>)
    ensures
        match r {
            Ok(()) => field_error(field@) is None,
            Err(e) => field_error(field@) == Some(e@),
        },
{
    let name = field.name.as_str();
    // Invariant 7: dotted field name well-formedness.
    if let Err(msg) = validate_field_name(name) {
        return Err(msg);
    }
    // Invariants 6 and 9: no top-level Object, no Object inside an Array.
    if let Ok(ft) = FieldType::try_from(&field.field_type) {
        if is_object(&ft) {
            let mut m = crate::schema::constraints::length::field_prefix_string(name);
            push_str(
                &mut m,
                "top-level Object type is not supported — flatten into dotted-name leaf fields (e.g. '",
            );
            push_str(&mut m, name);
            push_str(&mut m, ".<child>').");
            return Err(m);
        }
        if type_contains_object_inside_array(&ft) {
            let mut m = crate::schema::constraints::length::field_prefix_string(name);
            push_str(
                &mut m,
                "Array(Object{...}) is not representable on disk. Consider parallel scalar arrays (see TODO-0156).",
            );
            return Err(m);
        }
    }
    // Invariant 2: valid glob formats.
    if let Err(m) = check_globs(name, &field.allowed, &field.required) {
        return Err(m);
    }
    // Invariant 3: required globs are covered by allowed ones.
    if let Err(m) = check_coverage(name, &field.allowed, &field.required) {
        return Err(m);
    }
    // Invariant 4: constraints are valid for the field type.
    if let Some(constraints) = &field.constraints {
        match FieldType::try_from(&field.field_type) {
            Ok(ft) => {
                let errors = constraints.validate_config(name, &ft);
                if errors.len() > 0 {
                    assert(views(errors@)[0] == errors@[0]@);
                    let first = errors[0].clone();
                    return Err(first);
                }
            },
            Err(e) => {
                return Err(invalid_type_message(name, &e));
            },
        }
    }
    // Invariant 5: preprocess entries apply to the type and do not repeat.
    if field.preprocess.len() > 0 {
        match FieldType::try_from(&field.field_type) {
            Ok(ft) => {
                if let Err(m) = check_preprocess(field, &ft) {
                    return Err(m);
                }
            },
            Err(e) => {
                return Err(invalid_type_message(name, &e));
            },
        }
    }
    Ok(())
}

fn check_prefixes(fields: &Vec<TomlField>, name: &String) -> (r: Result<(), String>)
    ensures
        match r {
            Ok(()) => prefix_error_from(field_views(fields@), name@, 0) is None,
            Err(e) => prefix_error_from(field_views(fields@), name@, 0) == Some(e@),
        },
{
    let ghost fs = field_views(fields@);
    let v = chars_of(name.as_str());
    let mut k: usize = 0;
    while k < v.len()
        invariant
            fs == field_views(fields@),
            v@ == name@,
            k <= v@.len(),
            prefix_error_from(fs, name@, 0) == prefix_error_from(fs, name@, k as int),
        decreases v@.len() - k,
    {
        if v[k] == '.' {
            let prefix = string_from_range(&v, 0, k);
            if field_named(fields, prefix.as_str()) {
                let mut m = owned("shape conflict: '");
                push_str(&mut m, prefix.as_str());
                push_str(
                    &mut m,
                    "' is declared both as a leaf and as a parent of nested leaves (e.g., '",
                );
                push_str(&mut m, name.as_str());
                push_str(&mut m, "'). Pick one — keep '");
                push_str(&mut m, prefix.as_str());
                push_str(&mut m, "' as a leaf, or remove it and keep only the nested fields.");
                return Err(m);
            }
        }
        k = k + 1;
    }
    Ok(())
}

impl MdvsToml {
    /// A configuration with the given field definitions and ignored names
    /// and everything else at its default: scan `**` (no bare files,
    /// `.gitignore` honoured), no check, embedding, chunking, build or
    /// search sections, default categorical inference limits.
    pub fn default_with_fields(fields: Vec<TomlField>, ignore: Vec<String>) -> (r: MdvsToml)
        ensures
            r.scan.glob@ == "**"@,
            !r.scan.include_bare_files,
            !r.scan.skip_gitignore,
            r.check is None,
            r.embedding_model is None,
            r.chunking is None,
            r.build is None,
            r.search is None,
            r.fields.field@ == fields@,
            r.fields.ignore@ == ignore@,
            r.fields.max_categories == 10,
            r.fields.min_category_repetition == 3,
    {
        MdvsToml {
            scan: ScanConfig { glob: owned("**"), include_bare_files: false, skip_gitignore: false },
            update: UpdateConfig {},
            check: None,
            embedding_model: None,
            chunking: None,
            build: None,
            search: None,
            fields: FieldsConfig {
                ignore,
                field: fields,
                max_categories: default_max_categories(),
                min_category_repetition: default_min_category_repetition(),
            },
        }
    }

    /// Validate config invariants that manual edits can break:
    ///
    /// 1. A field cannot appear in both `[fields].ignore` and `[[fields.field]]`.
    /// 2. All globs in `allowed` and `required` must end with `/*` or `/**`,
    ///    or be exactly `*` or `**`.
    /// 3. Every required glob must be covered by some allowed glob.
    /// 4. Constraints are valid for the field's type.
    /// 5. Each preprocess entry applies to the field type, without duplicates.
    /// 6. A field cannot use top-level `Object` as its type.
    /// 7. Field names must not start or end with `.`, nor contain `..`.
    /// 8. A name cannot be both a leaf and a parent of nested leaves.
    /// 9. No `Object` inside an `Array`.
    ///
    /// The error is the message of the first broken invariant.
    pub fn validate(&self) -> (r: Result<(), String>)
        ensures
            match r {
                Ok(()) => config_error(views(self.fields.ignore@), field_views(self.fields.field@))
                    is None,
                Err(e) => config_error(views(self.fields.ignore@), field_views(self.fields.field@))
                    == Some(e@),
            },
    {
        let ghost ig = views(self.fields.ignore@);
        let ghost fs = field_views(self.fields.field@);
        let fields = &self.fields.field;
        // Invariant 1: ignore and [[fields.field]] are mutually exclusive.
        let mut i: usize = 0;
        while i < self.fields.ignore.len()
            invariant
                ig == views(self.fields.ignore@),
                fs == field_views(self.fields.field@),
                fields@ == self.fields.field@,
                i <= ig.len(),
                ignore_error_from(ig, fs, 0) == ignore_error_from(ig, fs, i as int),
            decreases ig.len() - i,
        {
            let ignored = self.fields.ignore[i].as_str();
            assert(ig[i as int] == ignored@);
            let hit = field_named(fields, ignored);
            assert(hit == has_field_named(fs, ig[i as int]));
            assert(ignore_error_from(ig, fs, i as int) == (if has_field_named(fs, ig[i as int]) {
                Some("field '"@ + ig[i as int]
                    + "' appears in both [fields].ignore and [[fields.field]] — remove it from one"@)
            } else {
                ignore_error_from(ig, fs, i + 1)
            }));
            if hit {
                let mut m = owned("field '");
                push_str(&mut m, ignored);
                push_str(
                    &mut m,
                    "' appears in both [fields].ignore and [[fields.field]] — remove it from one",
                );
                return Err(m);
            }
            i = i + 1;
        }
        // Per-field invariants.
        let mut i: usize = 0;
        while i < fields.len()
            invariant
                fs == field_views(fields@),
                fields@ == self.fields.field@,
                ig == views(self.fields.ignore@),
                ignore_error_from(ig, fs, 0) is None,
                i <= fs.len(),
                fields_error_from(fs, 0) == fields_error_from(fs, i as int),
            decreases fs.len() - i,
        {
            assert(fs[i as int] == fields@[i as int]@);
            if let Err(m) = check_field(&fields[i]) {
                return Err(m);
            }
            i = i + 1;
        }
        // Invariant 8: no shape conflicts.
        let mut i: usize = 0;
        while i < fields.len()
            invariant
                fs == field_views(fields@),
                fields@ == self.fields.field@,
                ig == views(self.fields.ignore@),
                ignore_error_from(ig, fs, 0) is None,
                fields_error_from(fs, 0) is None,
                i <= fs.len(),
                shape_error_from(fs, 0) == shape_error_from(fs, i as int),
            decreases fs.len() - i,
        {
            assert(fs[i as int].name == fields@[i as int].name@);
            if let Err(m) = check_prefixes(fields, &fields[i].name) {
                return Err(m);
            }
            i = i + 1;
        }
        Ok(())
    }
}

} // verus!
