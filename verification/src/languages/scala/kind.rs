//! Scala-specific symbol kinds.
use vstd::prelude::*;

verus! {

/// A Scala-specific kind, with no JVM-projection counterpart that keeps
/// enough information for Scala-aware dispatch.
#[derive(Debug, Clone, Copy, PartialEq, Eq, Hash, Structural)]
pub enum SymbolKind {
    /// `trait`.
    Trait,
    /// `case class`.
    CaseClass,
    /// `case object`.
    CaseObject,
}

} // verus!
