//! Chunked terrain streaming: which chunks should exist around an observer,
//! which of them still need a generation job, when the world is invalidated,
//! and the integer parts of building a chunk (triangle indices, colour bands,
//! texture bytes).

pub mod chunk_set;
pub mod chunk_pool;
pub mod streaming;
pub mod mesh;
pub mod texture;
