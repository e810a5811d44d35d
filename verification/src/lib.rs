//! Gitignore-style glob pattern matching with verified fast paths.
//!
//! A compiled [`Pattern`] decides whether it covers a candidate byte string or
//! repository-relative path. Matching uses shortcut comparisons for plain
//! literals and `*literal` suffix patterns that are proven to return exactly
//! what the general glob matcher would return on the same inputs.
#![allow(unused_imports)]
use vstd::prelude::*;

pub mod ascii;
pub mod parse;
pub mod pattern;
pub mod wildmatch;

verus! {

/// A compiled gitignore-style pattern, produced by [`Pattern::from_bytes`]
/// and immutable afterwards.
pub struct Pattern {
    /// The normalized pattern text: negation prefix and trailing slash removed.
    pub text: Vec<u8>,
    /// Flags describing the shape of the pattern.
    pub mode: pattern::Mode,
    /// Byte offset of the first wildcard character in `text`, if any.
    pub first_wildcard_pos: Option<usize>,
}

} // verus!
