//! The offline embedder: its settings, its tokenizer and the integer hash
//! behind its token projection, and the choice between it and an Ollama
//! service. The floating-point accumulation and normalisation of vectors run
//! outside the library.

use vstd::prelude::*;
use vstd::utf8::encode_utf8;

use crate::embedding::EmbeddingClient;
use crate::text::owned;

verus! {

broadcast use vstd::string::group_string_axioms;

/// The default embedding dimension.
pub const EMBED_DIM: usize = 128;

/// The default projection seed ("AIEONYX\0" read as a number).
pub const SOVEREIGN_SEED: u64 = 0x4149454f4e595800;

/// The dimension of the default Ollama model.
pub const OLLAMA_DIM: usize = 768;

/// The FNV-1a offset basis.
pub const FNV_OFFSET: u64 = 0xcbf29ce484222325;

/// The FNV-1a prime.
pub const FNV_PRIME: u64 = 0x00000100000001b3;

/// The multiplier that spreads dimension indices over the hash space.
pub const DIM_SPREAD: u64 = 0x9e3779b97f4a7c15;

/// The offline embedder's settings.
#[derive(Debug, Clone)]
pub struct SovereignEmbedder {
    pub dim: usize,
    /// Seed of the hash projection; another seed gives another embedding space.
    pub seed: u64,
}

impl SovereignEmbedder {
    /// The default embedder: the default dimension and seed.
    pub fn new() -> (e: SovereignEmbedder)
        ensures
            e.dim == EMBED_DIM,
            e.seed == SOVEREIGN_SEED,
    {
        SovereignEmbedder { dim: EMBED_DIM, seed: SOVEREIGN_SEED }
    }

    /// An embedder of dimension `dim` with the default seed.
    pub fn with_dim(dim: usize) -> (e: SovereignEmbedder)
        ensures
            e.dim == dim,
            e.seed == SOVEREIGN_SEED,
    {
        SovereignEmbedder { dim, seed: SOVEREIGN_SEED }
    }

    /// The offline embedder is always available.
    pub fn is_available(&self) -> (b: bool)
        ensures
            b,
    {
        true
    }
}

impl Default for SovereignEmbedder {
    fn default() -> (e: SovereignEmbedder)
        ensures
            e.dim == EMBED_DIM,
            e.seed == SOVEREIGN_SEED,
    {
        SovereignEmbedder::new()
    }
}

/// What `char::is_alphanumeric` says of a character.
pub uninterp spec fn char_is_alphanumeric(c: char) -> bool;

/// Calls `char::is_alphanumeric` (Unicode's alphabetic or numeric classes).
/// Claimed: the answer depends on the character alone; which characters
/// qualify is left unsaid.
#[verifier::external_body]
fn is_alphanumeric(c: char) -> (b: bool)
    ensures
        b == char_is_alphanumeric(c),
{
    c.is_alphanumeric()
}

/// What `str::to_lowercase` makes of a text.
pub uninterp spec fn lowercase_of(s: Seq<char>) -> Seq<char>;

/// Calls `str::to_lowercase` (Unicode lower-case mapping). Claimed: the
/// result depends on the text alone; the mapping itself is left unsaid.
#[verifier::external_body]
fn to_lowercase(s: &str) -> (r: String)
    ensures
        r@ == lowercase_of(s@),
{
    s.to_lowercase()
}

/// The pieces of `s` from `start`, splitting at every character that is not
/// alphanumeric, once the scan has reached `i` (as `str::split` yields them,
/// empty pieces included).
pub open spec fn pieces_from(s: Seq<char>, start: int, i: int) -> Seq<Seq<char>>
    decreases s.len() - i,
{
    if i >= s.len() {
        seq![s.subrange(start, s.len() as int)]
    } else if !char_is_alphanumeric(s[i]) {
        seq![s.subrange(start, i)] + pieces_from(s, i + 1, i + 1)
    } else {
        pieces_from(s, start, i + 1)
    }
}

/// A piece is kept as a token when its UTF-8 form has at least two bytes.
pub open spec fn long_enough(t: Seq<char>) -> bool {
    encode_utf8(t).len() >= 2
}

/// The tokens of a text: the pieces of its lowercase form that are long
/// enough, in order.
pub open spec fn tokens_of(text: Seq<char>) -> Seq<Seq<char>> {
    pieces_from(lowercase_of(text), 0, 0).filter(|t: Seq<char>| long_enough(t))
}

/// Splits text into tokens: lowercase, split at every non-alphanumeric
/// character, keep the pieces of at least two bytes.
pub fn tokenize(text: &str) -> (tokens: Vec<String>)
    ensures
        tokens@.map_values(|t: String| t@) == tokens_of(text@),
{
    let lower = to_lowercase(text);
    let s = lower.as_str();
    let ghost cs = s@;
    let ghost keep = |t: Seq<char>| long_enough(t);
    let n = s.unicode_len();
    let mut out: Vec<String> = Vec::new();
    let mut start: usize = 0;
    let mut i: usize = 0;
    assert(out@.map_values(|t: String| t@) =~= Seq::<Seq<char>>::empty());
    while i < n
        invariant
            cs == s@,
            cs == lowercase_of(text@),
            n == cs.len(),
            start <= i <= n,
            keep == (|t: Seq<char>| long_enough(t)),
            tokens_of(text@) == out@.map_values(|t: String| t@) + pieces_from(cs, start as int, i as int).filter(keep),
        decreases n - i,
    {
        let c = s.get_char(i);
        let ghost before = out@.map_values(|t: String| t@);
        if !is_alphanumeric(c) {
            let piece = s.substring_char(start, i);
            let ghost rest = pieces_from(cs, i as int + 1, i as int + 1);
            proof {
                assert(pieces_from(cs, start as int, i as int) == seq![piece@] + rest);
                rest.lemma_filter_prepend(piece@, keep);
                assert(piece@.len() >= 0);
            }
            if piece.as_bytes().len() >= 2 {
                out.push(owned(piece));
                proof {
                    assert(keep(piece@));
                    assert(out@.map_values(|t: String| t@) =~= before + seq![piece@]);
                    assert(before + (seq![piece@] + rest.filter(keep)) =~= (before + seq![piece@]) + rest.filter(keep));
                }
            } else {
                proof {
                    assert(!keep(piece@));
                    assert(out@.map_values(|t: String| t@) =~= before);
                    assert(Seq::<Seq<char>>::empty() + rest.filter(keep) =~= rest.filter(keep));
                }
            }
            start = i + 1;
        } else {
            assert(pieces_from(cs, start as int, i as int) == pieces_from(cs, start as int, i as int + 1));
        }
        i = i + 1;
    }
    let piece = s.substring_char(start, n);
    let ghost before = out@.map_values(|t: String| t@);
    proof {
        assert(pieces_from(cs, start as int, n as int) == seq![piece@]);
        Seq::<Seq<char>>::empty().lemma_filter_prepend(piece@, keep);
        assert(seq![piece@] + Seq::<Seq<char>>::empty() =~= seq![piece@]);
    }
    if piece.as_bytes().len() >= 2 {
        out.push(owned(piece));
        proof {
            assert(keep(piece@));
            assert(out@.map_values(|t: String| t@) =~= before + seq![piece@]);
            assert(seq![piece@] + Seq::<Seq<char>>::empty().filter(keep) =~= seq![piece@]);
        }
    } else {
        proof {
            assert(!keep(piece@));
            assert(Seq::<Seq<char>>::empty() + Seq::<Seq<char>>::empty().filter(keep) =~= Seq::<Seq<char>>::empty());
            assert(before + Seq::<Seq<char>>::empty() =~= before);
        }
    }
    out
}

/// The bigram of two neighbouring tokens: the first, a space, the second.
pub fn bigram(first: &str, second: &str) -> (s: String)
    ensures
        s@ == first@ + seq![' '] + second@,
{
    let mut s = owned(first);
    s.append(" ");
    s.append(second);
    proof {
        reveal_strlit(" ");
    }
    s
}

/// One FNV-1a step: mix in a byte, then multiply by the prime.
pub open spec fn fnv_step(h: u64, b: u8) -> u64 {
    (h ^ (b as u64)).wrapping_mul(FNV_PRIME)
}

/// FNV-1a over `bytes`, starting from `h`.
pub open spec fn fnv_fold(h: u64, bytes: Seq<u8>) -> u64
    decreases bytes.len(),
{
    if bytes.len() == 0 {
        h
    } else {
        fnv_step(fnv_fold(h, bytes.drop_last()), bytes.last())
    }
}

/// The hash of a token for dimension `d`: FNV-1a seeded with the seed and the
/// spread dimension index, over the token's bytes, then over the index.
pub open spec fn projection_hash_of(token: Seq<u8>, d: u64, seed: u64) -> u64 {
    let h0 = FNV_OFFSET ^ seed ^ d.wrapping_mul(DIM_SPREAD);
    (fnv_fold(h0, token) ^ d).wrapping_mul(FNV_PRIME)
}

/// What a projection hash says of its coordinate: whether it is negative
/// (the low bit), and its magnitude code in `0..=0xFFFF` (the next 16 bits).
pub open spec fn projection_code(h: u64) -> (bool, u64) {
    ((h & 1) == 1, (h >> 1) & 0xFFFF)
}

/// The projection hash of a token for dimension `d`.
pub fn projection_hash(token: &[u8], d: u64, seed: u64) -> (h: u64)
    ensures
        h == projection_hash_of(token@, d, seed),
{
    let mut h: u64 = FNV_OFFSET ^ seed ^ d.wrapping_mul(DIM_SPREAD);
    let ghost h0 = h;
    let mut i: usize = 0;
    while i < token.len()
        invariant
            i <= token@.len(),
            h0 == FNV_OFFSET ^ seed ^ d.wrapping_mul(DIM_SPREAD),
            h == fnv_fold(h0, token@.take(i as int)),
        decreases token@.len() - i,
    {
        assert(token@.take(i as int + 1).drop_last() =~= token@.take(i as int));
        h = h ^ (token[i] as u64);
        h = h.wrapping_mul(FNV_PRIME);
        i = i + 1;
    }
    assert(token@.take(token@.len() as int) =~= token@);
    h = h ^ d;
    h.wrapping_mul(FNV_PRIME)
}

/// The sign and magnitude codes of a token's projection, one per dimension.
pub fn projection_codes(token: &[u8], dim: usize, seed: u64) -> (codes: Vec<(bool, u64)>)
    ensures
        codes@.len() == dim,
        forall|d: int| 0 <= d < dim ==> #[trigger] codes@[d] == projection_code(projection_hash_of(token@, d as u64, seed)),
{
    let mut codes: Vec<(bool, u64)> = Vec::new();
    let mut d: usize = 0;
    while d < dim
        invariant
            d <= dim,
            codes@.len() == d,
            forall|j: int| 0 <= j < d ==> #[trigger] codes@[j] == projection_code(projection_hash_of(token@, j as u64, seed)),
        decreases dim - d,
    {
        let h = projection_hash(token, d as u64, seed);
        codes.push(((h & 1) == 1, (h >> 1) & 0xFFFF));
        d = d + 1;
    }
    codes
}

/// Where embeddings come from: a local Ollama service, or the offline
/// embedder.
#[derive(Debug, Clone)]
pub enum EmbeddingBackend {
    Ollama(EmbeddingClient),
    Sovereign(SovereignEmbedder),
}

impl EmbeddingBackend {
    /// Picks the default Ollama service when it answered a probe, the
    /// default offline embedder otherwise.
    pub fn auto(ollama_available: bool) -> (b: EmbeddingBackend)
        ensures
            ollama_available ==> (b matches EmbeddingBackend::Ollama(c) && c.url() == crate::embedding::DEFAULT_URL@
                && c.model_name() == crate::embedding::DEFAULT_MODEL@),
            !ollama_available ==> (b matches EmbeddingBackend::Sovereign(s) && s.dim == EMBED_DIM && s.seed
                == SOVEREIGN_SEED),
    {
        let client = EmbeddingClient::default_ollama();
        if ollama_available {
            EmbeddingBackend::Ollama(client)
        } else {
            EmbeddingBackend::Sovereign(SovereignEmbedder::new())
        }
    }

    /// The default offline embedder.
    pub fn sovereign() -> (b: EmbeddingBackend)
        ensures
            b matches EmbeddingBackend::Sovereign(s) && s.dim == EMBED_DIM && s.seed == SOVEREIGN_SEED,
    {
        EmbeddingBackend::Sovereign(SovereignEmbedder::new())
    }

    /// The Ollama service at `url` running `model`.
    pub fn ollama(url: &str, model: &str) -> (b: EmbeddingBackend)
        ensures
            b matches EmbeddingBackend::Ollama(c) && c.url() == url@ && c.model_name() == model@,
    {
        EmbeddingBackend::Ollama(EmbeddingClient::new(url, model))
    }

    /// The dimension of the vectors the backend produces.
    pub fn dim(&self) -> (n: usize)
        ensures
            n == match self {
                EmbeddingBackend::Ollama(_) => OLLAMA_DIM,
                EmbeddingBackend::Sovereign(s) => s.dim,
            },
    {
        match self {
            EmbeddingBackend::Ollama(_) => OLLAMA_DIM,
            EmbeddingBackend::Sovereign(s) => s.dim,
        }
    }

    /// The backend's name.
    pub fn backend_name(&self) -> (s: &'static str)
        ensures
            s@ == match self {
                EmbeddingBackend::Ollama(_) => "ollama"@,
                EmbeddingBackend::Sovereign(_) => "sovereign"@,
            },
    {
        match self {
            EmbeddingBackend::Ollama(_) => "ollama",
            EmbeddingBackend::Sovereign(_) => "sovereign",
        }
    }
}

} // verus!
