//! Chunked object-storage transfer engine with an expiry-encoded key scheme.
//!
//! The crate covers the decision logic of a one-shot upload tool: choosing a
//! single-shot or multipart strategy, splitting a payload into chunks,
//! collecting per-part results into an ordered completion manifest, encoding
//! an expiry instant into a sortable object key, and selecting expired keys
//! for a sweep.

pub mod chunks;
pub mod codec;
pub mod config;
pub mod errors;
pub mod keys;
pub mod plan;
pub mod session;
pub mod storage;
pub mod sweep;
pub mod text;
