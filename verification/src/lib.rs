//! A grapheme-cluster-aware buffer for a single line of text.
//!
//! The buffer supports positional insertion and deletion, splitting and
//! concatenation, substring search, and render-time syntax-highlight
//! annotation. All positional operations address grapheme-cluster indices,
//! never raw byte offsets, and no operation ever splits a multi-codepoint
//! grapheme cluster.

pub mod highlighting;
pub mod laws;
pub mod row;
pub mod search;
pub mod segment;
pub mod styling;
