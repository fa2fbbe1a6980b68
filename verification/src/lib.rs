//! An embeddable vector search engine: collections of dense vectors with
//! JSON-like payloads, approximate nearest-neighbour retrieval over an HNSW
//! graph, BM25 full-text ranking, payload filtering, multivector scoring,
//! and snapshot-based persistence.
//!
//! Scalar scores and vector components are carried as IEEE-754 bit patterns
//! (`u32` for single precision, `u64` for double precision); ordering and
//! equality on them are implemented here as integer logic on the bits.

pub mod assoc;
pub mod background;
pub mod bm25;
pub mod collection;
pub mod error;
pub mod fbits;
pub mod fconv;
pub mod filter;
pub mod hnsw;
pub mod json;
pub mod manager;
pub mod persistence;
pub mod point;
pub mod ranking;
pub mod schema;
pub mod snapshot;
pub mod text;
pub mod tokenize;
pub mod visited;
