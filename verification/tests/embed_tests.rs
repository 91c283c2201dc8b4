use edisondb::embedding::{EmbeddingClient, DEFAULT_MODEL, DEFAULT_URL};
use edisondb::sovereign_embed::{
    projection_codes, projection_hash, tokenize, EmbeddingBackend, SovereignEmbedder, EMBED_DIM, SOVEREIGN_SEED,
};

#[test]
fn t15_backend_dim() {
    let b = EmbeddingBackend::sovereign();
    assert_eq!(b.dim(), EMBED_DIM);
}

#[test]
fn sovereign_backend_is_named_and_available() {
    let b = EmbeddingBackend::sovereign();
    assert_eq!(b.backend_name(), "sovereign");
    assert!(SovereignEmbedder::new().is_available());
}

#[test]
fn auto_picks_ollama_only_when_it_answered() {
    match EmbeddingBackend::auto(true) {
        EmbeddingBackend::Ollama(c) => {
            assert_eq!(c.base_url(), DEFAULT_URL);
            assert_eq!(c.model(), DEFAULT_MODEL);
        }
        _ => panic!("expected the Ollama backend"),
    }
    let fallback = EmbeddingBackend::auto(false);
    assert_eq!(fallback.backend_name(), "sovereign");
    assert_eq!(fallback.dim(), EMBED_DIM);
}

#[test]
fn ollama_backend_reports_model_dimension() {
    let b = EmbeddingBackend::ollama("http://localhost:19999", "nomic-embed-text");
    assert_eq!(b.dim(), 768);
    assert_eq!(b.backend_name(), "ollama");
}

#[test]
fn embedder_settings() {
    let e = SovereignEmbedder::new();
    assert_eq!(e.dim, 128);
    assert_eq!(e.seed, SOVEREIGN_SEED);
    let e64 = SovereignEmbedder::with_dim(64);
    assert_eq!(e64.dim, 64);
    assert_eq!(SovereignEmbedder::default().dim, EMBED_DIM);
}

#[test]
fn client_settings() {
    let c = EmbeddingClient::new("http://h:1", "m");
    assert_eq!(c.base_url(), "http://h:1");
    assert_eq!(c.model(), "m");
    let d = EmbeddingClient::default();
    assert_eq!(d.base_url(), "http://localhost:11434");
    assert_eq!(d.model(), "nomic-embed-text");
}

#[test]
fn tokenizer_lowercases_splits_and_drops_short_pieces() {
    assert_eq!(tokenize("Hello, World! a bc"), vec!["hello", "world", "bc"]);
    assert!(tokenize("a b c").is_empty());
    assert!(tokenize("").is_empty());
    assert_eq!(tokenize("version 0.65.0 release"), vec!["version", "65", "release"]);
}

#[test]
fn tokenizer_counts_bytes_not_characters() {
    // "é" is one character but two bytes in UTF-8, so it is kept.
    assert_eq!(tokenize("é x"), vec!["é"]);
}

#[test]
fn projection_hash_is_fnv_1a_over_seed_dimension_and_token() {
    let prime: u64 = 0x00000100000001b3;
    let mut h: u64 = 0xcbf29ce484222325u64 ^ 5 ^ 3u64.wrapping_mul(0x9e3779b97f4a7c15);
    for &b in b"ab" {
        h ^= b as u64;
        h = h.wrapping_mul(prime);
    }
    h ^= 3;
    h = h.wrapping_mul(prime);
    assert_eq!(projection_hash(b"ab", 3, 5), h);
}

#[test]
fn projection_codes_cover_every_dimension() {
    let codes = projection_codes(b"token", 16, SOVEREIGN_SEED);
    assert_eq!(codes.len(), 16);
    for (d, (neg, mag)) in codes.iter().enumerate() {
        let h = projection_hash(b"token", d as u64, SOVEREIGN_SEED);
        assert_eq!(*neg, h & 1 == 1);
        assert_eq!(*mag, (h >> 1) & 0xFFFF);
        assert!(*mag <= 0xFFFF);
    }
}

#[test]
fn seed_changes_the_projection() {
    assert_ne!(projection_hash(b"sovereign", 0, SOVEREIGN_SEED), projection_hash(b"sovereign", 0, 0xDEADBEEFCAFEBABE));
}

#[test]
fn bigram_joins_with_one_space() {
    assert_eq!(edisondb::sovereign_embed::bigram("sovereign", "database"), "sovereign database");
    assert_eq!(edisondb::sovereign_embed::bigram("", "x"), " x");
}
