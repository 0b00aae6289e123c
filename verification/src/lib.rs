//! Core logic of a two-way chat relay: routing, content filtering, message
//! normalization, and issue-reference enrichment. All protocol I/O lives
//! outside this crate; everything here is pure computation over plain values.

pub mod issue;
pub mod message;
pub mod relay;
pub mod routing;
pub mod text;
pub mod util;
