use mdvs::index::embed::{MockEmbedder, ModelConfig};
use mdvs::schema::shared::EmbeddingModelConfig;

fn config(provider: &str, dim: Option<usize>) -> EmbeddingModelConfig {
    EmbeddingModelConfig {
        provider: provider.into(),
        name: "mock".into(),
        revision: None,
        dim,
    }
}

#[test]
fn mock_provider_via_try_from() {
    let cfg = config("mock", Some(128));
    let model_config = ModelConfig::try_from(&cfg).unwrap();
    match model_config {
        ModelConfig::Mock { dim } => assert_eq!(dim, 128),
        other => panic!("expected Mock, got {other:?}"),
    }
}

#[test]
fn mock_provider_dim_defaults_to_256() {
    let cfg = config("mock", None);
    let model_config = ModelConfig::try_from(&cfg).unwrap();
    match model_config {
        ModelConfig::Mock { dim } => assert_eq!(dim, 256),
        other => panic!("expected Mock, got {other:?}"),
    }
}

#[test]
fn model2vec_provider_keeps_name_and_revision() {
    let cfg = EmbeddingModelConfig {
        provider: "model2vec".into(),
        name: "minishlab/potion-base-8M".into(),
        revision: Some("abc123".into()),
        dim: None,
    };
    match ModelConfig::try_from(&cfg).unwrap() {
        ModelConfig::Model2Vec { model_id, revision } => {
            assert_eq!(model_id, "minishlab/potion-base-8M");
            assert_eq!(revision.as_deref(), Some("abc123"));
        }
        other => panic!("expected Model2Vec, got {other:?}"),
    }
}

#[test]
fn unknown_provider_is_refused() {
    let err = ModelConfig::try_from(&config("openai", None)).unwrap_err();
    assert_eq!(err, "unsupported embedding provider: 'openai'");
}

#[test]
fn mock_words_are_deterministic_and_sized() {
    let m = MockEmbedder::new(5);
    let a = m.encode_words("same text");
    let b = m.encode_words("same text");
    assert_eq!(a.len(), 5);
    assert_eq!(a, b);
    let c = m.encode_words("other text");
    assert_ne!(a, c);
}

#[test]
fn mock_words_follow_the_seeded_hash() {
    let m = MockEmbedder::new(3);
    let w = m.encode_words("hello");
    let h0 = xxhash_rust::xxh3::xxh3_64_with_seed(b"hello", 0);
    let h1 = xxhash_rust::xxh3::xxh3_64_with_seed(b"hello", 1);
    assert_eq!(w[0], h0 as u32);
    assert_eq!(w[1], (h0 >> 32) as u32);
    assert_eq!(w[2], h1 as u32);
}

#[test]
fn snapshots_dir_replaces_slashes() {
    assert_eq!(
        mdvs::index::embed::model_snapshots_dir("minishlab/potion-base-8M"),
        ".cache/huggingface/hub/models--minishlab--potion-base-8M/snapshots"
    );
    assert_eq!(
        mdvs::index::embed::model_snapshots_dir("plain"),
        ".cache/huggingface/hub/models--plain/snapshots"
    );
}
