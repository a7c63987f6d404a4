//! Source locations.
use vstd::prelude::*;

verus! {

/// A half-open source range inside one file. Lines and columns are
/// zero-based; columns count UTF-16 code units; the end is exclusive, so
/// a one-character span at line 3, column 5 has `start_col = 5` and
/// `end_col = 6`.
#[derive(Debug, Clone, PartialEq)]
pub struct Location {
    /// Path of the source file.
    pub file: String,
    pub start_line: u32,
    pub start_col: u32,
    pub end_line: u32,
    pub end_col: u32,
}

} // verus!
