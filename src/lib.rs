//! A brute-force vector index with an immutable, crash-consistent segment format.
//!
//! Vectors and scores are handled as the bit patterns of IEEE-754 single-precision
//! floats; floating-point arithmetic itself is done by the caller.

pub mod error;
pub mod flush;
pub mod knn;
pub mod metrics;
pub mod ranking;
pub mod score;
pub mod segment;
