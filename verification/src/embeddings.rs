//! Placeholder for an embedding backend. The search is purely lexical
//! in this design, so no backend is ever available.
use vstd::prelude::*;

verus! {

/// Would generate embeddings, were a backend implemented.
#[derive(Debug, Clone, Copy, PartialEq, Eq)]
pub struct EmbeddingGenerator;

impl EmbeddingGenerator {
    /// Creates the placeholder generator; this cannot fail.
    pub fn new() -> (r: EmbeddingGenerator) {
        EmbeddingGenerator
    }

    /// Whether a local embedding service is reachable: never, in this
    /// design.
    pub fn is_ollama_available(&self) -> (r: bool)
        ensures
            !r,
    {
        false
    }
}

} // verus!
