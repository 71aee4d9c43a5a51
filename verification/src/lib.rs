//! Verified core of a log statistics pipeline: severity classification,
//! epoch-aligned time bucketing, record filtering, and a mergeable
//! per-bucket event counter.

pub mod errors;
pub mod parsers;
pub mod peaks;
pub mod round_floor;
pub mod severity;
