//! What is stored with an index besides the rows themselves: the build
//! configuration as key-value metadata, and content hashes.

use vstd::prelude::*;
use crate::field_type::{FieldType, FieldTypeV, field_pairs_view, lemma_field_pairs_view, object_field_insert};
use crate::json::{json_text, to_json_string};
use crate::keyed::{entries_get, entries_insert, find_key, lemma_get_first, lemma_get_none};
use crate::schema::json_schema::to_canonical::{split_dots, split_name};
use crate::schema::config::{MdvsToml, TomlFieldV, field_views};
use crate::schema::json_schema::order::{lemma_canonical_order, tree_paths};
use crate::schema::json_schema::to_canonical::{canonical, dsl_to_canonical};
use crate::schema::shared::{ChunkingConfig, EmbeddingModelConfig};
use crate::text::{push_str, views};
use crate::text::{chars_of, decimal, digit_value, digits_value, is_digit, lemma_decimal_digits, owned, push_char, str_eq, usize_string};

verus! {

/// File ID column.
pub const COL_FILE_ID: &'static str = "file_id";
/// File path column (relative to project root).
pub const COL_FILEPATH: &'static str = "filepath";
/// Frontmatter struct column.
pub const COL_DATA: &'static str = "data";
/// Content hash column.
pub const COL_CONTENT_HASH: &'static str = "content_hash";
/// Build timestamp column.
pub const COL_BUILT_AT: &'static str = "built_at";
/// Chunk ID column.
pub const COL_CHUNK_ID: &'static str = "chunk_id";
/// Chunk index column.
pub const COL_CHUNK_INDEX: &'static str = "chunk_index";
/// Start line column.
pub const COL_START_LINE: &'static str = "start_line";
/// End line column.
pub const COL_END_LINE: &'static str = "end_line";
/// Plain-text column (full-text index and result snippet).
pub const COL_CHUNK_TEXT: &'static str = "chunk_text";
/// Embedding vector column.
pub const COL_EMBEDDING: &'static str = "embedding";

/// The xxh3 64-bit hash of the UTF-8 encoding of a text.
pub uninterp spec fn xxh3_64_of(text: Seq<char>) -> u64;

/// `xxhash_rust::xxh3::xxh3_64` of the UTF-8 bytes of `text`; the result is
/// named [`xxh3_64_of`], a function of the text alone.
#[verifier::external_body]
fn xxh3_of_text(text: &str) -> (r: u64)
    ensures
        r == xxh3_64_of(text@),
{
    xxhash_rust::xxh3::xxh3_64(text.as_bytes())
}

/// Lowercase hexadecimal digit for `d < 16`.
pub open spec fn hex_char(d: nat) -> char {
    if d < 10 {
        crate::text::digit_char(d)
    } else if d == 10 {
        'a'
    } else if d == 11 {
        'b'
    } else if d == 12 {
        'c'
    } else if d == 13 {
        'd'
    } else if d == 14 {
        'e'
    } else {
        'f'
    }
}

/// The last `width` hexadecimal digits of `n`, zero-padded on the left.
pub open spec fn hex_fixed(n: nat, width: nat) -> Seq<char>
    decreases width,
{
    if width == 0 {
        Seq::empty()
    } else {
        hex_fixed(n / 16, (width - 1) as nat).push(hex_char(n % 16))
    }
}

pub(crate) fn hex_digit(d: u64) -> (c: char)
    requires
        d < 16,
    ensures
        c == hex_char(d as nat),
{
    if d == 0 { '0' }
    else if d == 1 { '1' }
    else if d == 2 { '2' }
    else if d == 3 { '3' }
    else if d == 4 { '4' }
    else if d == 5 { '5' }
    else if d == 6 { '6' }
    else if d == 7 { '7' }
    else if d == 8 { '8' }
    else if d == 9 { '9' }
    else if d == 10 { 'a' }
    else if d == 11 { 'b' }
    else if d == 12 { 'c' }
    else if d == 13 { 'd' }
    else if d == 14 { 'e' }
    else { 'f' }
}

fn hex_string(n: u64, width: usize) -> (r: String)
    ensures
        r@ == hex_fixed(n as nat, width as nat),
    decreases width,
{
    if width == 0 {
        String::new()
    } else {
        let mut r = hex_string(n / 16, width - 1);
        push_char(&mut r, hex_digit(n % 16));
        r
    }
}

/// A deterministic hex-encoded hash of `content`: its xxh3 hash as 16
/// lowercase hexadecimal digits.
pub fn content_hash(content: &str) -> (r: String)
    ensures
        r@ == hex_fixed(xxh3_64_of(content@) as nat, 16),
{
    hex_string(xxh3_of_text(content), 16)
}

/// The schema hash of a configuration with these fields and ignored
/// names: the content hash of the compact JSON text of its canonical schema.
pub open spec fn schema_hash_of(fields: Seq<TomlFieldV>, ignore: Seq<Seq<char>>) -> Seq<char> {
    hex_fixed(xxh3_64_of(json_text(canonical(fields, ignore))) as nat, 16)
}

/// A deterministic hash of the canonical JSON Schema of a configuration:
/// the content hash of its compact JSON text. Whitespace, comments and
/// field order in `mdvs.toml` do not change it; the schema's content does.
pub fn compute_schema_hash(config: &MdvsToml) -> (r: String)
    ensures
        r@ == schema_hash_of(field_views(config.fields.field@), views(config.fields.ignore@)),
{
    let schema = dsl_to_canonical(config);
    let text = to_json_string(&schema);
    content_hash(text.as_str())
}

/// The schema hash ignores order: configurations that define the same
/// fields (with apart name paths) in any order, and ignore the same names
/// in any order, hash alike.
pub proof fn lemma_schema_hash_order(f1: Seq<TomlFieldV>, i1: Seq<Seq<char>>, f2: Seq<TomlFieldV>, i2: Seq<Seq<char>>)
    requires
        tree_paths(f1),
        tree_paths(f2),
        f1.to_multiset() == f2.to_multiset(),
        forall|k: Seq<char>| i1.contains(k) <==> i2.contains(k),
    ensures
        schema_hash_of(f1, i1) == schema_hash_of(f2, i2),
{
    lemma_canonical_order(f1, i1, f2, i2);
}

/// Configuration snapshot stored as key-value metadata with an index, so
/// that later builds and searches can detect config changes.
#[derive(Debug, Clone, PartialEq, Eq)]
pub struct BuildMetadata {
    /// Embedding model configuration (provider, name, revision, dimension).
    pub embedding_model: EmbeddingModelConfig,
    /// Chunking configuration (max chunk size).
    pub chunking: ChunkingConfig,
    /// Glob pattern used to select files for the build.
    pub glob: String,
    /// ISO 8601 timestamp of when the build was produced.
    pub built_at: String,
    /// Hash of the canonical JSON Schema derived from `mdvs.toml`; empty for
    /// indexes built before it was recorded.
    pub schema_hash: String,
}

/// Model of a [`BuildMetadata`].
pub struct MetadataV {
    pub provider: Seq<char>,
    pub model: Seq<char>,
    pub revision: Option<Seq<char>>,
    pub dim: Option<nat>,
    pub chunk_size: nat,
    pub glob: Seq<char>,
    pub built_at: Seq<char>,
    pub schema_hash: Seq<char>,
}

impl View for BuildMetadata {
    type V = MetadataV;

    open spec fn view(&self) -> MetadataV {
        MetadataV {
            provider: self.embedding_model.provider@,
            model: self.embedding_model.name@,
            revision: match self.embedding_model.revision {
                Some(r) => Some(r@),
                None => None,
            },
            dim: match self.embedding_model.dim {
                Some(d) => Some(d as nat),
                None => None,
            },
            chunk_size: self.chunking.max_chunk_size as nat,
            glob: self.glob@,
            built_at: self.built_at@,
            schema_hash: self.schema_hash@,
        }
    }
}

/// Key-value entries as models.
pub open spec fn entries_view(kv: Seq<(String, String)>) -> Seq<(Seq<char>, Seq<char>)> {
    Seq::new(kv.len(), |i: int| (kv[i].0@, kv[i].1@))
}

/// The metadata entries of a build, in this order: provider, model,
/// revision (when pinned), dimension (when set), chunk size, glob, build
/// time, schema hash.
pub open spec fn metadata_entries(m: MetadataV) -> Seq<(Seq<char>, Seq<char>)> {
    seq![("mdvs.provider"@, m.provider), ("mdvs.model"@, m.model)] + (match m.revision {
        Some(r) => seq![("mdvs.revision"@, r)],
        None => Seq::empty(),
    }) + (match m.dim {
        Some(d) => seq![("mdvs.dim"@, decimal(d))],
        None => Seq::empty(),
    }) + seq![
        ("mdvs.chunk_size"@, decimal(m.chunk_size)),
        ("mdvs.glob"@, m.glob),
        ("mdvs.built_at"@, m.built_at),
        ("mdvs.schema_hash"@, m.schema_hash),
    ]
}

/// The value of the first entry with key `key`, from index `i` on.
pub open spec fn lookup_from(kv: Seq<(Seq<char>, Seq<char>)>, key: Seq<char>, i: int) -> Option<
    Seq<char>,
>
    decreases kv.len() - i,
{
    if i < 0 || i >= kv.len() {
        None
    } else if kv[i].0 == key {
        Some(kv[i].1)
    } else {
        lookup_from(kv, key, i + 1)
    }
}

/// The value of the first entry with key `key`.
pub open spec fn lookup(kv: Seq<(Seq<char>, Seq<char>)>, key: Seq<char>) -> Option<Seq<char>> {
    lookup_from(kv, key, 0)
}

/// `s` without one leading `+`.
pub open spec fn unsigned_body(s: Seq<char>) -> Seq<char> {
    if s.len() > 0 && s[0] == '+' {
        s.drop_first()
    } else {
        s
    }
}

/// Whether every character of `s` is a decimal digit.
pub open spec fn all_digits(s: Seq<char>) -> bool {
    forall|i: int| 0 <= i < s.len() ==> #[trigger] is_digit(s[i])
}

/// What `str::parse::<usize>` makes of `s`: an optional `+`, then one or
/// more decimal digits whose value fits in a `usize`.
pub open spec fn parse_usize(s: Seq<char>) -> Option<nat> {
    let body = unsigned_body(s);
    if body.len() > 0 && all_digits(body) && digits_value(body) <= usize::MAX {
        Some(digits_value(body))
    } else {
        None
    }
}

/// The metadata read back from entries, or `None` when the model name,
/// the chunk size (or a number in it), the glob or the build time is
/// missing. A missing provider reads as `model2vec`, a missing or
/// unparsable dimension as none, a missing schema hash as empty.
pub open spec fn metadata_from(kv: Seq<(Seq<char>, Seq<char>)>) -> Option<MetadataV> {
    let model = lookup(kv, "mdvs.model"@);
    let chunk = lookup(kv, "mdvs.chunk_size"@);
    let glob = lookup(kv, "mdvs.glob"@);
    let built = lookup(kv, "mdvs.built_at"@);
    if model is Some && chunk is Some && parse_usize(chunk->0) is Some && glob is Some && built is Some {
        Some(
            MetadataV {
                provider: match lookup(kv, "mdvs.provider"@) {
                    Some(p) => p,
                    None => "model2vec"@,
                },
                model: model->0,
                revision: lookup(kv, "mdvs.revision"@),
                dim: match lookup(kv, "mdvs.dim"@) {
                    Some(d) => parse_usize(d),
                    None => None,
                },
                chunk_size: parse_usize(chunk->0)->0,
                glob: glob->0,
                built_at: built->0,
                schema_hash: match lookup(kv, "mdvs.schema_hash"@) {
                    Some(h) => h,
                    None => Seq::empty(),
                },
            },
        )
    } else {
        None
    }
}

fn entry(key: &str, value: String) -> (r: (String, String))
    ensures
        r.0@ == key@,
        r.1@ == value@,
{
    (owned(key), value)
}

proof fn lemma_entries_push(kv: Seq<(String, String)>, e: (String, String))
    ensures
        entries_view(kv.push(e)) == entries_view(kv).push((e.0@, e.1@)),
{
    assert(entries_view(kv.push(e)) =~= entries_view(kv).push((e.0@, e.1@)));
}

fn push_entry(kv: &mut Vec<(String, String)>, key: &str, value: String)
    ensures
        entries_view(final(kv)@) == entries_view(old(kv)@).push((key@, value@)),
{
    let e = entry(key, value);
    proof {
        lemma_entries_push(kv@, e);
    }
    kv.push(e);
}

/// Whether `s` is an optional `+` then decimal digits.
fn parse_usize_text(s: &str) -> (r: Option<usize>)
    ensures
        match r {
            Some(n) => parse_usize(s@) == Some(n as nat),
            None => parse_usize(s@) is None,
        },
{
    let v = chars_of(s);
    let start: usize = if v.len() > 0 && v[0] == '+' {
        1
    } else {
        0
    };
    let ghost body = v@.skip(start as int);
    assert(body == unsigned_body(s@));
    if start >= v.len() {
        return None;
    }
    let mut value: usize = 0;
    let mut i: usize = start;
    while i < v.len()
        invariant
            v@ == s@,
            start <= i <= v@.len(),
            start <= 1,
            body == v@.skip(start as int),
            body == unsigned_body(s@),
            forall|j: int| start <= j < i ==> is_digit(#[trigger] v@[j]),
            value as nat == digits_value(v@.subrange(start as int, i as int)),
        decreases v@.len() - i,
    {
        let c = v[i];
        assert(v@.subrange(start as int, i + 1).drop_last() =~= v@.subrange(start as int, i as int));
        if !('0' <= c && c <= '9') {
            assert(body[i - start] == c);
            assert(!is_digit(body[i - start]));
            assert(!all_digits(body));
            assert(parse_usize(s@) is None);
            return None;
        }
        let d: usize = (c as u32 - '0' as u32) as usize;
        assert(d == digit_value(c)) by {
            assert('0' <= c <= '9');
        }
        if value > (usize::MAX - d) / 10 {
            proof {
                assert(value * 10 + d > usize::MAX) by (nonlinear_arith)
                    requires
                        value > (usize::MAX - d) / 10,
                        d < 10,
                ;
                lemma_digits_value_prefix(body, (i + 1 - start) as int);
                assert(body.take((i + 1 - start) as int) =~= v@.subrange(start as int, i + 1));
                assert(digits_value(v@.subrange(start as int, i + 1)) == value * 10 + d);
                assert(digits_value(body) > usize::MAX);
                assert(parse_usize(s@) is None);
            }
            return None;
        }
        value = value * 10 + d;
        i = i + 1;
    }
    assert(v@.subrange(start as int, v@.len() as int) =~= body);
    Some(value)
}

/// A longer digit string never has a smaller value.
proof fn lemma_digits_value_prefix(s: Seq<char>, k: int)
    requires
        0 <= k <= s.len(),
    ensures
        digits_value(s.take(k)) <= digits_value(s),
    decreases s.len() - k,
{
    if k < s.len() {
        lemma_digits_value_prefix(s, k + 1);
        assert(s.take(k + 1).drop_last() =~= s.take(k));
    } else {
        assert(s.take(k) =~= s);
    }
}

/// The value of the first entry with key `key`.
fn lookup_entry<'a>(kv: &'a Vec<(String, String)>, key: &str) -> (r: Option<&'a String>)
    ensures
        match r {
            Some(v) => lookup(entries_view(kv@), key@) == Some(v@),
            None => lookup(entries_view(kv@), key@) is None,
        },
{
    let ghost e = entries_view(kv@);
    let mut i: usize = 0;
    while i < kv.len()
        invariant
            i <= kv@.len(),
            e == entries_view(kv@),
            lookup(e, key@) == lookup_from(e, key@, i as int),
        decreases kv@.len() - i,
    {
        assert(e[i as int] == (kv@[i as int].0@, kv@[i as int].1@));
        if str_eq(kv[i].0.as_str(), key) {
            assert(lookup_from(e, key@, i as int) == Some(e[i as int].1));
            return Some(&kv[i].1);
        }
        assert(lookup_from(e, key@, i as int) == lookup_from(e, key@, i + 1));
        i = i + 1;
    }
    assert(lookup_from(e, key@, i as int) is None);
    None
}

impl BuildMetadata {
    /// The metadata as key-value entries, in [`metadata_entries`] order.
    pub fn to_hash_map(&self) -> (r: Vec<(String, String)>)
        ensures
            entries_view(r@) == metadata_entries(self@),
    {
        let mut m: Vec<(String, String)> = Vec::new();
        push_entry(&mut m, "mdvs.provider", self.embedding_model.provider.clone());
        push_entry(&mut m, "mdvs.model", self.embedding_model.name.clone());
        if let Some(r) = &self.embedding_model.revision {
            push_entry(&mut m, "mdvs.revision", r.clone());
        }
        if let Some(dim) = self.embedding_model.dim {
            push_entry(&mut m, "mdvs.dim", usize_string(dim));
        }
        push_entry(&mut m, "mdvs.chunk_size", usize_string(self.chunking.max_chunk_size));
        push_entry(&mut m, "mdvs.glob", self.glob.clone());
        push_entry(&mut m, "mdvs.built_at", self.built_at.clone());
        push_entry(&mut m, "mdvs.schema_hash", self.schema_hash.clone());
        assert(entries_view(m@) =~= metadata_entries(self@));
        m
    }

    /// The metadata read back from key-value entries (the first entry of a
    /// key counts); `None` when a required key is missing or the chunk size
    /// is not a number.
    pub fn from_hash_map(meta: &Vec<(String, String)>) -> (r: Option<BuildMetadata>)
        ensures
            match r {
                Some(m) => metadata_from(entries_view(meta@)) == Some(m@),
                None => metadata_from(entries_view(meta@)) is None,
            },
    {
        let ghost kv = entries_view(meta@);
        let name = match lookup_entry(meta, "mdvs.model") {
            Some(n) => n.clone(),
            None => return None,
        };
        let chunk_text = match lookup_entry(meta, "mdvs.chunk_size") {
            Some(c) => c,
            None => return None,
        };
        let max_chunk_size = match parse_usize_text(chunk_text.as_str()) {
            Some(n) => n,
            None => return None,
        };
        let glob = match lookup_entry(meta, "mdvs.glob") {
            Some(g) => g.clone(),
            None => return None,
        };
        let built_at = match lookup_entry(meta, "mdvs.built_at") {
            Some(b) => b.clone(),
            None => return None,
        };
        let provider = match lookup_entry(meta, "mdvs.provider") {
            Some(p) => p.clone(),
            None => owned("model2vec"),
        };
        let revision = match lookup_entry(meta, "mdvs.revision") {
            Some(r) => Some(r.clone()),
            None => None,
        };
        let dim = match lookup_entry(meta, "mdvs.dim") {
            Some(d) => parse_usize_text(d.as_str()),
            None => None,
        };
        let schema_hash = match lookup_entry(meta, "mdvs.schema_hash") {
            Some(h) => h.clone(),
            None => String::new(),
        };
        let m = BuildMetadata {
            embedding_model: EmbeddingModelConfig { provider, name, revision, dim },
            chunking: ChunkingConfig { max_chunk_size },
            glob,
            built_at,
            schema_hash,
        };
        assert(metadata_from(kv) == Some(m@));
        Some(m)
    }
}

proof fn lemma_parse_decimal(n: nat)
    requires
        n <= usize::MAX,
    ensures
        parse_usize(decimal(n)) == Some(n),
{
    lemma_decimal_digits(n);
    let d = decimal(n);
    assert(is_digit(d[0]));
    assert(unsigned_body(d) == d);
}

/// The key-value entries of build metadata have distinct keys (as the map
/// they stand for does).
pub proof fn lemma_metadata_keys_distinct(m: MetadataV)
    ensures
        forall|i: int, j: int|
            0 <= i < j < metadata_entries(m).len() ==> (#[trigger] metadata_entries(m)[i]).0 != (
            #[trigger] metadata_entries(m)[j]).0,
{
    let kv = metadata_entries(m);
    reveal_strlit("mdvs.provider");
    reveal_strlit("mdvs.model");
    reveal_strlit("mdvs.revision");
    reveal_strlit("mdvs.dim");
    reveal_strlit("mdvs.chunk_size");
    reveal_strlit("mdvs.glob");
    reveal_strlit("mdvs.built_at");
    reveal_strlit("mdvs.schema_hash");
    // The keys differ in their sixth character.
    let letters: Seq<char> = match (m.revision, m.dim) {
        (Some(_), Some(_)) => seq!['p', 'm', 'r', 'd', 'c', 'g', 'b', 's'],
        (Some(_), None) => seq!['p', 'm', 'r', 'c', 'g', 'b', 's'],
        (None, Some(_)) => seq!['p', 'm', 'd', 'c', 'g', 'b', 's'],
        (None, None) => seq!['p', 'm', 'c', 'g', 'b', 's'],
    };
    assert(kv.len() == letters.len());
    assert forall|i: int| 0 <= i < kv.len() implies kv[i].0.len() > 5 && #[trigger] kv[i].0[5] == letters[i] by {
        match (m.revision, m.dim) {
            (Some(_), Some(_)) => {},
            (Some(_), None) => {},
            (None, Some(_)) => {},
            (None, None) => {},
        }
    }
    assert forall|i: int, j: int| 0 <= i < j < kv.len() implies (#[trigger] kv[i]).0 != (#[trigger] kv[j]).0 by {
        assert(kv[i].0[5] == letters[i]);
        assert(kv[j].0[5] == letters[j]);
        assert(letters[i] != letters[j]);
    }
}

/// Writing build metadata as key-value entries and reading them back gives
/// the same metadata.
pub proof fn lemma_metadata_roundtrip(m: BuildMetadata)
    ensures
        metadata_from(metadata_entries(m@)) == Some(m@),
{
    let v = m@;
    let kv = metadata_entries(v);
    reveal_strlit("mdvs.provider");
    reveal_strlit("mdvs.model");
    reveal_strlit("mdvs.revision");
    reveal_strlit("mdvs.dim");
    reveal_strlit("mdvs.chunk_size");
    reveal_strlit("mdvs.glob");
    reveal_strlit("mdvs.built_at");
    reveal_strlit("mdvs.schema_hash");
    lemma_parse_decimal(v.chunk_size);
    if let Some(d) = v.dim {
        lemma_parse_decimal(d);
    }
    // The keys differ in their sixth character.
    assert("mdvs.provider"@[5] == 'p');
    assert("mdvs.model"@[5] == 'm');
    assert("mdvs.revision"@[5] == 'r');
    assert("mdvs.dim"@[5] == 'd');
    assert("mdvs.chunk_size"@[5] == 'c');
    assert("mdvs.glob"@[5] == 'g');
    assert("mdvs.built_at"@[5] == 'b');
    assert("mdvs.schema_hash"@[5] == 's');
    let tail = seq![
        ("mdvs.chunk_size"@, decimal(v.chunk_size)),
        ("mdvs.glob"@, v.glob),
        ("mdvs.built_at"@, v.built_at),
        ("mdvs.schema_hash"@, v.schema_hash),
    ];
    let head = seq![("mdvs.provider"@, v.provider), ("mdvs.model"@, v.model)];
    reveal_with_fuel(lookup_from, 9);
    match (v.revision, v.dim) {
        (Some(r), Some(d)) => {
            assert(kv =~= head + seq![("mdvs.revision"@, r)] + seq![("mdvs.dim"@, decimal(d))] + tail);
        },
        (Some(r), None) => {
            assert(kv =~= head + seq![("mdvs.revision"@, r)] + Seq::empty() + tail);
        },
        (None, Some(d)) => {
            assert(kv =~= head + Seq::empty() + seq![("mdvs.dim"@, decimal(d))] + tail);
        },
        (None, None) => {
            assert(kv =~= head + Seq::empty() + Seq::empty() + tail);
        },
    }
    assert(metadata_from(kv) == Some(v));
}

/// `ft` placed at the dotted path `segs` of a nested object type, creating
/// (or replacing non-object entries by) objects on the way.
pub open spec fn storage_insert(map: Seq<(Seq<char>, FieldTypeV)>, segs: Seq<Seq<char>>, ft: FieldTypeV) -> Seq<
    (Seq<char>, FieldTypeV),
>
    decreases segs.len(),
{
    if segs.len() == 0 {
        map
    } else if segs.len() == 1 {
        entries_insert(map, segs[0], ft)
    } else {
        let inner = match entries_get(map, segs[0]) {
            Some(FieldTypeV::Object(c)) => c,
            _ => Seq::empty(),
        };
        entries_insert(map, segs[0], FieldTypeV::Object(storage_insert(inner, segs.drop_first(), ft)))
    }
}

/// The flat `(dotted name, type)` list as one nested object type, the
/// entries placed in order.
pub open spec fn storage_fields(fields: Seq<(Seq<char>, FieldTypeV)>) -> Seq<(Seq<char>, FieldTypeV)>
    decreases fields.len(),
{
    if fields.len() == 0 {
        Seq::empty()
    } else {
        storage_insert(storage_fields(fields.drop_last()), split_dots(fields.last().0), fields.last().1)
    }
}

fn insert_at_segments(map: &mut Vec<(String, FieldType)>, segs: &Vec<String>, i: usize, ft: FieldType)
    requires
        i < segs@.len(),
    ensures
        field_pairs_view(final(map)@) == storage_insert(
            field_pairs_view(old(map)@),
            views(segs@).skip(i as int),
            ft@,
        ),
    decreases segs@.len() - i,
{
    let ghost s = views(segs@).skip(i as int);
    assert(s[0] == segs@[i as int]@);
    if i == segs.len() - 1 {
        object_field_insert(map, segs[i].clone(), ft);
        return;
    }
    assert(s.drop_first() =~= views(segs@).skip(i + 1));
    proof {
        lemma_field_pairs_view(map@);
    }
    let ghost mv = field_pairs_view(map@);
    let mut inner: Vec<(String, FieldType)> = Vec::new();
    assert(field_pairs_view(inner@) =~= Seq::<(Seq<char>, FieldTypeV)>::empty());
    match find_key(map, segs[i].as_str()) {
        Some(p) => {
            proof {
                assert forall|j: int| 0 <= j < p implies #[trigger] mv[j].0 != segs@[i as int]@ by {
                    assert(mv[j].0 == map@[j].0@);
                }
                lemma_get_first(mv, segs@[i as int]@, p as int);
            }
            if let FieldType::Object(_) = &map[p].1 {
                if let FieldType::Object(c) = map[p].1.duplicate() {
                    inner = c;
                }
            }
        },
        None => {
            proof {
                assert forall|j: int| 0 <= j < mv.len() implies #[trigger] mv[j].0 != segs@[i as int]@ by {
                    assert(mv[j].0 == map@[j].0@);
                }
                lemma_get_none(mv, segs@[i as int]@);
            }
        },
    }
    insert_at_segments(&mut inner, segs, i + 1, ft);
    object_field_insert(map, segs[i].clone(), FieldType::Object(inner));
}

/// The flat `(dotted name, type)` schema as one nested object type whose
/// shape mirrors the frontmatter: `cal.x` lands inside a `cal` object.
pub fn transpose_to_storage_type(schema_fields: &Vec<(String, FieldType)>) -> (r: FieldType)
    ensures
        r@ == FieldTypeV::Object(storage_fields(field_pairs_view(schema_fields@))),
{
    proof {
        lemma_field_pairs_view(schema_fields@);
    }
    let ghost fv = field_pairs_view(schema_fields@);
    let mut root: Vec<(String, FieldType)> = Vec::new();
    assert(field_pairs_view(root@) =~= Seq::<(Seq<char>, FieldTypeV)>::empty());
    assert(fv.take(0) =~= Seq::<(Seq<char>, FieldTypeV)>::empty());
    let mut k: usize = 0;
    while k < schema_fields.len()
        invariant
            k <= schema_fields@.len(),
            fv == field_pairs_view(schema_fields@),
            fv.len() == schema_fields@.len(),
            forall|j: int| 0 <= j < schema_fields@.len() ==> #[trigger] fv[j] == (
                schema_fields@[j].0@,
                schema_fields@[j].1@,
            ),
            field_pairs_view(root@) == storage_fields(fv.take(k as int)),
        decreases schema_fields@.len() - k,
    {
        let segs = split_name(schema_fields[k].0.as_str());
        let t = schema_fields[k].1.duplicate();
        proof {
            let f = fv.take(k + 1);
            assert(f.drop_last() =~= fv.take(k as int));
            assert(f.last() == fv[k as int]);
        }
        if segs.len() > 0 {
            assert(views(segs@).skip(0) =~= views(segs@));
            insert_at_segments(&mut root, &segs, 0, t);
        }
        k = k + 1;
    }
    assert(fv.take(schema_fields@.len() as int) =~= fv);
    FieldType::Object(root)
}

/// The index's own view of one file row, for incremental build diffing
/// (no frontmatter: that comes from the fresh scan).
#[derive(Debug)]
pub struct FileIndexEntry {
    /// Unique identifier for this file.
    pub file_id: String,
    /// Path relative to the project root.
    pub filename: String,
    /// xxh3 hash of the markdown body, used to detect content changes.
    pub content_hash: String,
}

} // verus!

verus! {

/// The position of the last id equal to `x` among the first `n` ids (the
/// entry a map filled in order keeps for a repeated key).
pub open spec fn last_index(ids: Seq<Seq<char>>, x: Seq<char>, n: nat) -> Option<nat>
    decreases n,
{
    if n == 0 {
        None
    } else if ids[n - 1] == x {
        Some((n - 1) as nat)
    } else {
        last_index(ids, x, (n - 1) as nat)
    }
}

/// The parent file of each chunk, resolved by file id (the last file with
/// that id), or the error for the first chunk whose file id no file has.
pub open spec fn chunk_parents_spec(
    file_ids: Seq<Seq<char>>,
    chunk_ids: Seq<Seq<char>>,
    chunk_file_ids: Seq<Seq<char>>,
    k: nat,
) -> Result<Seq<nat>, Seq<char>>
    decreases k,
{
    if k == 0 {
        Ok(Seq::empty())
    } else {
        match chunk_parents_spec(file_ids, chunk_ids, chunk_file_ids, (k - 1) as nat) {
            Err(e) => Err(e),
            Ok(prev) => match last_index(file_ids, chunk_file_ids[k - 1], file_ids.len()) {
                Some(i) => Ok(prev.push(i)),
                None => Err("chunk "@ + chunk_ids[k - 1] + " references unknown file_id "@ + chunk_file_ids[k - 1]),
            },
        }
    }
}

/// Once a chunk's parent is missing, the error stays.
proof fn lemma_parents_err(
    file_ids: Seq<Seq<char>>,
    chunk_ids: Seq<Seq<char>>,
    chunk_file_ids: Seq<Seq<char>>,
    k: nat,
    n: nat,
)
    requires
        k <= n,
        chunk_parents_spec(file_ids, chunk_ids, chunk_file_ids, k) is Err,
    ensures
        chunk_parents_spec(file_ids, chunk_ids, chunk_file_ids, n) == chunk_parents_spec(
            file_ids,
            chunk_ids,
            chunk_file_ids,
            k,
        ),
    decreases n - k,
{
    if k < n {
        lemma_parents_err(file_ids, chunk_ids, chunk_file_ids, k, (n - 1) as nat);
    }
}

fn last_index_exec(ids: &Vec<String>, x: &str) -> (r: Option<usize>)
    ensures
        match r {
            Some(i) => last_index(views(ids@), x@, ids@.len()) == Some(i as nat),
            None => last_index(views(ids@), x@, ids@.len()) is None,
        },
{
    let mut n: usize = ids.len();
    while n > 0
        invariant
            n <= ids@.len(),
            last_index(views(ids@), x@, ids@.len()) == last_index(views(ids@), x@, n as nat),
        decreases n,
    {
        assert(views(ids@)[n - 1] == ids@[n - 1]@);
        if str_eq(ids[n - 1].as_str(), x) {
            return Some(n - 1);
        }
        n = n - 1;
    }
    None
}

/// The parent file of each chunk: for chunk `k`, the position in `file_ids`
/// of the (last) file whose id is `chunk_file_ids[k]`; an error naming the
/// first chunk whose file id no file has. `chunk_ids` and `chunk_file_ids`
/// describe the same chunks, in order.
pub fn chunk_parents(
    file_ids: &Vec<String>,
    chunk_ids: &Vec<String>,
    chunk_file_ids: &Vec<String>,
) -> (r: Result<Vec<usize>, String>)
    requires
        chunk_ids@.len() == chunk_file_ids@.len(),
    ensures
        match r {
            Ok(p) => chunk_parents_spec(views(file_ids@), views(chunk_ids@), views(chunk_file_ids@), chunk_ids@.len())
                == Ok::<Seq<nat>, Seq<char>>(Seq::new(p@.len(), |i: int| p@[i] as nat)),
            Err(e) => chunk_parents_spec(views(file_ids@), views(chunk_ids@), views(chunk_file_ids@), chunk_ids@.len())
                == Err::<Seq<nat>, Seq<char>>(e@),
        },
{
    let ghost fv = views(file_ids@);
    let ghost cv = views(chunk_ids@);
    let ghost cf = views(chunk_file_ids@);
    let mut out: Vec<usize> = Vec::new();
    let mut k: usize = 0;
    assert(Seq::new(out@.len(), |i: int| out@[i] as nat) =~= Seq::<nat>::empty());
    while k < chunk_ids.len()
        invariant
            chunk_ids@.len() == chunk_file_ids@.len(),
            fv == views(file_ids@),
            cv == views(chunk_ids@),
            cf == views(chunk_file_ids@),
            k <= chunk_ids@.len(),
            chunk_parents_spec(fv, cv, cf, k as nat) == Ok::<Seq<nat>, Seq<char>>(
                Seq::new(out@.len(), |i: int| out@[i] as nat),
            ),
        decreases chunk_ids@.len() - k,
    {
        assert(cf[k as int] == chunk_file_ids@[k as int]@);
        assert(cv[k as int] == chunk_ids@[k as int]@);
        match last_index_exec(file_ids, chunk_file_ids[k].as_str()) {
            Some(i) => {
                let ghost before = out@;
                out.push(i);
                assert(Seq::new(out@.len(), |j: int| out@[j] as nat) =~= Seq::new(
                    before.len(),
                    |j: int| before[j] as nat,
                ).push(i as nat));
            },
            None => {
                let mut m = owned("chunk ");
                push_str(&mut m, chunk_ids[k].as_str());
                push_str(&mut m, " references unknown file_id ");
                push_str(&mut m, chunk_file_ids[k].as_str());
                proof {
                    assert(chunk_parents_spec(fv, cv, cf, (k + 1) as nat) == Err::<Seq<nat>, Seq<char>>(m@));
                    lemma_parents_err(fv, cv, cf, (k + 1) as nat, chunk_ids@.len());
                }
                return Err(m);
            },
        }
        k = k + 1;
    }
    Ok(out)
}

} // verus!
