//! Code search over chunked source files: index construction, search routing and the binary
//! cache format.
pub mod agreement;
pub mod ann;
pub mod bm25;
pub mod codec;
pub mod embed;
pub mod engine;
pub mod error;
pub mod groups;
pub mod index;
pub mod keyed;
pub mod laws;
pub mod listing;
pub mod persist;
pub mod roundtrip;
pub mod scores;
pub mod staleness;
pub mod text;
pub mod types;
pub mod walk;
