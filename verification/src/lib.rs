//! Debounced, cancellable search-as-you-type orchestration.
//!
//! The crate holds the decision core of an interactive file search: a
//! manager that coalesces rapid queries behind a debounce timer, cancels
//! in-flight searches that have become obsolete, and keeps at most one
//! search active at a time; a small anchored glob engine used for one of
//! the two search modes; and the line-oriented text transforms used to
//! prepare markdown output for a terminal renderer.

use vstd::prelude::*;

pub mod citations;
pub mod glob;
pub mod manager;
pub mod markdown;
pub mod protocol;
pub mod spans;
pub mod text;
pub mod walk;

verus! {

/// One file-search hit: a path relative to the search root, a score, and
/// optional highlight indices into the path.
pub struct FileMatch {
    pub score: u32,
    pub path: String,
    pub indices: Option<Vec<u32>>,
}

} // verus!
