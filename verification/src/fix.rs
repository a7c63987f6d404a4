//! Neutral fix value types: text edits grouped under a label.
use vstd::prelude::*;

use crate::primitives::Location;

verus! {

/// A single text replacement in one file; an empty span is a pure
/// insertion at that point.
#[derive(Debug, Clone, PartialEq)]
pub struct SourceEdit {
    pub location: Location,
    pub new_text: String,
}

/// One actionable change, presented under `label`; applying it applies
/// all of its (disjoint) edits.
#[derive(Debug, Clone, PartialEq)]
pub struct Fix {
    pub label: String,
    pub edits: Vec<SourceEdit>,
}

} // verus!
