//! Handles into the symbol table's flat storage.
use vstd::prelude::*;

verus! {

/// A runtime index into a symbol table; not stable across rebuilds.
#[derive(Debug, Clone, Copy, PartialEq, Eq, Hash, Structural)]
pub struct SymbolId(pub usize);

} // verus!
