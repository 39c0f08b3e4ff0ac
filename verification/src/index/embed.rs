//! Embedding model selection, and the deterministic mock embedder's hash
//! stream.

use vstd::prelude::*;
use crate::schema::shared::EmbeddingModelConfig;
use crate::text::{chars_of, owned, push_char, push_str, str_eq};

verus! {

/// Resolved embedding model configuration, ready for loading.
#[derive(Debug, Clone)]
pub enum ModelConfig {
    /// Model2Vec static model with optional pinned revision.
    Model2Vec {
        /// HuggingFace model identifier.
        model_id: String,
        /// Pinned commit SHA from the HuggingFace cache.
        revision: Option<String>,
    },
    /// Deterministic mock embedder for hermetic tests.
    Mock {
        /// Embedding dimension. Defaults to 256 (matches potion-base-8M).
        dim: usize,
    },
}

/// Model of a [`ModelConfig`].
pub enum ModelConfigV {
    Model2Vec(Seq<char>, Option<Seq<char>>),
    Mock(nat),
}

impl View for ModelConfig {
    type V = ModelConfigV;

    open spec fn view(&self) -> ModelConfigV {
        match self {
            ModelConfig::Model2Vec { model_id, revision } => ModelConfigV::Model2Vec(
                model_id@,
                match revision {
                    Some(r) => Some(r@),
                    None => None,
                },
            ),
            ModelConfig::Mock { dim } => ModelConfigV::Mock(*dim as nat),
        }
    }
}

/// Dimension of the mock embedder when none is configured.
pub const DEFAULT_MOCK_DIM: usize = 256;

/// The model an `[embedding_model]` section selects: `model2vec` loads the
/// named model at its revision, `mock` the mock embedder with the
/// configured dimension (256 by default); any other provider is refused.
pub open spec fn model_config_of(c: EmbeddingModelConfig) -> Result<ModelConfigV, Seq<char>> {
    if c.provider@ == "model2vec"@ {
        Ok(
            ModelConfigV::Model2Vec(
                c.name@,
                match c.revision {
                    Some(r) => Some(r@),
                    None => None,
                },
            ),
        )
    } else if c.provider@ == "mock"@ {
        Ok(
            ModelConfigV::Mock(
                match c.dim {
                    Some(d) => d as nat,
                    None => DEFAULT_MOCK_DIM as nat,
                },
            ),
        )
    } else {
        Err("unsupported embedding provider: '"@ + c.provider@ + "'"@)
    }
}

impl ModelConfig {
    /// Resolve an `[embedding_model]` section into a loadable model.
    pub fn try_from(config: &EmbeddingModelConfig) -> (r: Result<ModelConfig, String>)
        ensures
            match r {
                Ok(m) => model_config_of(*config) == Ok::<ModelConfigV, Seq<char>>(m@),
                Err(e) => model_config_of(*config) == Err::<ModelConfigV, Seq<char>>(e@),
            },
    {
        if str_eq(config.provider.as_str(), "model2vec") {
            Ok(ModelConfig::Model2Vec { model_id: config.name.clone(), revision: config.revision.clone() })
        } else if str_eq(config.provider.as_str(), "mock") {
            let dim = match config.dim {
                Some(d) => d,
                None => DEFAULT_MOCK_DIM,
            };
            Ok(ModelConfig::Mock { dim })
        } else {
            let mut e = owned("unsupported embedding provider: '");
            push_str(&mut e, config.provider.as_str());
            push_str(&mut e, "'");
            Err(e)
        }
    }
}

/// The xxh3 64-bit hash, with a seed, of the UTF-8 encoding of a text.
pub uninterp spec fn xxh3_64_seeded_of(text: Seq<char>, seed: u64) -> u64;

/// `xxhash_rust::xxh3::xxh3_64_with_seed` of the UTF-8 bytes of `text`; the
/// result is named [`xxh3_64_seeded_of`], a function of text and seed alone.
#[verifier::external_body]
fn xxh3_seeded(text: &str, seed: u64) -> (r: u64)
    ensures
        r == xxh3_64_seeded_of(text@, seed),
{
    xxhash_rust::xxh3::xxh3_64_with_seed(text.as_bytes(), seed)
}

/// Word `i` of the mock embedder's stream for `text`: the low, then the
/// high 32 bits of the text's hash seeded with `i / 2`.
pub open spec fn mock_word(text: Seq<char>, i: nat) -> u32 {
    let h = xxh3_64_seeded_of(text, (i / 2) as u64);
    if i % 2 == 0 {
        (h % 0x1_0000_0000) as u32
    } else {
        (h / 0x1_0000_0000) as u32
    }
}

/// Deterministic mock embedder: vector component `i` is derived from word
/// `i` of a hash stream of the input text. Same input, same vector.
#[derive(Debug)]
pub struct MockEmbedder {
    /// Embedding dimension.
    pub dim: usize,
}

impl MockEmbedder {
    /// A mock embedder producing `dim` components.
    pub fn new(dim: usize) -> (r: MockEmbedder)
        ensures
            r.dim == dim,
    {
        MockEmbedder { dim }
    }

    /// The `dim` words behind the vector of `text` (each word `w` becomes
    /// the component `w / u32::MAX - 0.5`).
    pub fn encode_words(&self, text: &str) -> (r: Vec<u32>)
        ensures
            r@.len() == self.dim,
            forall|i: int| 0 <= i < self.dim ==> r@[i] == #[trigger] mock_word(text@, i as nat),
    {
        let mut out: Vec<u32> = Vec::new();
        let mut counter: u64 = 0;
        while out.len() < self.dim
            invariant
                out@.len() <= self.dim,
                counter as nat == (out@.len() as nat + 1) / 2,
                out@.len() % 2 == 0 || out@.len() == self.dim,
                forall|i: int| 0 <= i < out@.len() ==> out@[i] == #[trigger] mock_word(text@, i as nat),
            decreases self.dim - out@.len(),
        {
            let seed = xxh3_seeded(text, counter);
            let low = (seed & 0xffff_ffff) as u32;
            let high = (seed >> 32) as u32;
            assert((seed & 0xffff_ffff) as u32 == (seed % 0x1_0000_0000) as u32) by (bit_vector);
            assert((seed >> 32) as u32 == (seed / 0x1_0000_0000) as u32) by (bit_vector);
            let ghost n = out@.len();
            assert(n / 2 == counter);
            out.push(low);
            if out.len() < self.dim {
                assert((n + 1) / 2 == counter);
                out.push(high);
            }
            assert(counter < u64::MAX) by {
                assert(counter <= n);
            }
            counter = counter + 1;
        }
        out
    }
}

/// A model id as the HuggingFace cache names its directory: each `/`
/// written as `--`.
pub open spec fn cache_dir_name(id: Seq<char>) -> Seq<char>
    decreases id.len(),
{
    if id.len() == 0 {
        Seq::empty()
    } else {
        cache_dir_name(id.drop_last()) + (if id.last() == '/' {
            "--"@
        } else {
            seq![id.last()]
        })
    }
}

/// Where, under the home directory, the HuggingFace cache keeps the
/// snapshots of a model (one directory per revision).
pub open spec fn snapshots_path(id: Seq<char>) -> Seq<char> {
    ".cache/huggingface/hub/models--"@ + cache_dir_name(id) + "/snapshots"@
}

/// The path, relative to the home directory, of a model's snapshot
/// directories in the HuggingFace cache.
pub fn model_snapshots_dir(model_id: &str) -> (r: String)
    ensures
        r@ == snapshots_path(model_id@),
{
    let chars = chars_of(model_id);
    let mut r = owned(".cache/huggingface/hub/models--");
    let ghost start = r@;
    let mut i: usize = 0;
    while i < chars.len()
        invariant
            chars@ == model_id@,
            i <= chars@.len(),
            r@ == start + cache_dir_name(chars@.take(i as int)),
        decreases chars@.len() - i,
    {
        let c = chars[i];
        assert(chars@.take(i + 1).drop_last() =~= chars@.take(i as int));
        assert(chars@.take(i + 1).last() == c);
        if c == '/' {
            push_str(&mut r, "--");
        } else {
            push_char(&mut r, c);
        }
        assert(r@ =~= start + cache_dir_name(chars@.take(i + 1)));
        i = i + 1;
    }
    assert(chars@.take(i as int) =~= model_id@);
    push_str(&mut r, "/snapshots");
    r
}

} // verus!
