//! Core of a local retrieval-augmented-generation support layer: a text
//! chunker, an in-memory vector store with cosine-similarity retrieval over
//! fixed-point embeddings, an embedding-response unwrapper, and the state
//! machine of the inference-backend process supervisor.
//!
//! All network traffic, process spawning and floating-point conversion live
//! outside this library; it works on plain values handed in by its caller.

pub mod chunker;
pub mod embedding;
pub mod ranking;
pub mod similarity;
pub mod store;
pub mod supervisor;

use vstd::prelude::*;

verus! {

/// Chunk width, in code points, used when indexing a document.
pub const CHUNK_SIZE: usize = 512;

/// Overlap, in code points, between consecutive chunks of one document.
pub const CHUNK_OVERLAP: usize = 50;

} // verus!
