//! Scala language module.

pub mod kind;

pub use kind::SymbolKind;
