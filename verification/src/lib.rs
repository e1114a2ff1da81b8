//! Verified core of an LLM gateway: client identification with group
//! validation, token-bucket rate limiting over estimated-then-reconciled
//! token counts, and the wire error shapes the HTTP edge renders.

pub mod admission;
pub mod bucket;
pub mod counter;
pub mod duration;
pub mod errors;
pub mod identity;
pub mod key;
pub mod model;
pub mod policy;
pub mod store;
