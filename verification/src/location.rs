//! The source location of the symbol-table model.
use vstd::prelude::*;

verus! {

/// A source range: file path, start and end line and column.
#[derive(Debug, Clone, PartialEq)]
pub struct Location {
    pub file: String,
    pub start_line: u32,
    pub start_col: u32,
    pub end_line: u32,
    pub end_col: u32,
}

} // verus!
