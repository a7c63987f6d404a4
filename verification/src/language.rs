//! The per-language operations a front end offers to the harness and the
//! language server, one implementation per JVM language.
use vstd::prelude::*;

use crate::resolve::Import;
use crate::symbol::Symbol;

verus! {

/// Language-specific operations on one source file. Each JVM language
/// (Java, Kotlin, Scala, ...) implements it; the caller dispatches on the
/// file's extension.
pub trait SourceLanguage {
    /// File extensions this language handles (such as `["java"]` or
    /// `["kt", "kts"]`).
    fn extensions(&self) -> Vec<String>;

    /// The symbols declared in `source`, read from the file at `path`.
    fn parse(&self, path: &str, source: &str) -> Vec<Symbol>;

    /// The import declarations of `source`.
    fn extract_imports(&self, source: &str) -> Vec<Import>;

    /// The package (namespace) declared by `source`, or the empty string.
    fn extract_package(&self, source: &str) -> String;

    /// The identifier at (`line`, `col`), by this language's identifier
    /// rules.
    fn word_at_position(&self, source: &str, line: u32, col: u32) -> Option<String>;
}

} // verus!
