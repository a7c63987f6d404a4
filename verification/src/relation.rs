//! Typed relations between symbols.
use vstd::prelude::*;

use crate::symbol_id::SymbolId;
use crate::type_ref::TypeRef;

verus! {

#[derive(Debug, Clone, Copy, PartialEq, Eq, Hash, Structural)]
pub enum RelationKind {
    Extends,
    Implements,
    Overrides,
    Permits,
    ProtocolExtends,
}

/// A relation to `target`, with the type arguments of a parameterized
/// supertype (`extends Producer<String>` stores `[String]`).
#[derive(Debug, PartialEq)]
pub struct Relation {
    pub kind: RelationKind,
    pub target: SymbolId,
    pub type_args: Vec<TypeRef>,
}

} // verus!
