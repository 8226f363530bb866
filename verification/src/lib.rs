//! Hierarchical content hashing for chunked archive uploads.
//!
//! A byte source is split into fixed-size chunks, each chunk is digested,
//! and the chunk digests are folded bottom-up into a single root digest
//! while the ordered list of leaf-chunk digests is retained for per-part
//! checksum verification.

pub mod digest;
pub mod endpoint;
pub mod tree;
