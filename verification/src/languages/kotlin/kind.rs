//! Kotlin-specific symbol kinds.
use vstd::prelude::*;

verus! {

/// A Kotlin-specific kind, with no JVM-projection counterpart that keeps
/// enough information for Kotlin-aware dispatch.
#[derive(Debug, Clone, Copy, PartialEq, Eq, Hash, Structural)]
pub enum SymbolKind {
    /// `object` declaration — a singleton class.
    Object,
    /// `companion object` — the static-side namespace of a class.
    CompanionObject,
    /// `data class`.
    DataClass,
    /// `sealed class`.
    SealedClass,
}

} // verus!
