//! The client settings for a local Ollama embedding service. The HTTP
//! exchange itself runs outside the library; it reads the address and the
//! model from here.

use vstd::prelude::*;

use crate::text::owned;

verus! {

/// Where a local Ollama listens by default.
pub const DEFAULT_URL: &'static str = "http://localhost:11434";

/// The embedding model asked for by default (768 dimensions).
pub const DEFAULT_MODEL: &'static str = "nomic-embed-text";

/// The address and model of an Ollama embedding service.
#[derive(Debug, Clone)]
pub struct EmbeddingClient {
    base_url: String,
    model: String,
}

impl EmbeddingClient {
    /// The service's base address.
    pub closed spec fn url(&self) -> Seq<char> {
        self.base_url@
    }

    /// The model the service is asked to run.
    pub closed spec fn model_name(&self) -> Seq<char> {
        self.model@
    }

    /// A client for the service at `base_url` running `model`.
    pub fn new(base_url: &str, model: &str) -> (c: EmbeddingClient)
        ensures
            c.url() == base_url@,
            c.model_name() == model@,
    {
        EmbeddingClient { base_url: owned(base_url), model: owned(model) }
    }

    /// A client for a local Ollama with the default model.
    pub fn default_ollama() -> (c: EmbeddingClient)
        ensures
            c.url() == DEFAULT_URL@,
            c.model_name() == DEFAULT_MODEL@,
    {
        EmbeddingClient::new(DEFAULT_URL, DEFAULT_MODEL)
    }

    /// The service's base address.
    pub fn base_url(&self) -> (s: &str)
        ensures
            s@ == self.url(),
    {
        self.base_url.as_str()
    }

    /// The model the service is asked to run.
    pub fn model(&self) -> (s: &str)
        ensures
            s@ == self.model_name(),
    {
        self.model.as_str()
    }
}

impl Default for EmbeddingClient {
    fn default() -> (c: EmbeddingClient)
        ensures
            c.url() == DEFAULT_URL@,
            c.model_name() == DEFAULT_MODEL@,
    {
        EmbeddingClient::default_ollama()
    }
}

} // verus!
