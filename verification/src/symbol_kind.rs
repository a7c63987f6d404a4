//! The kinds of symbol every language's model can produce.
use vstd::prelude::*;

verus! {

/// What a symbol is: JVM-level kinds first, then Kotlin, Scala and
/// Clojure ones.
#[derive(Debug, Clone, Copy, PartialEq, Eq, Hash, Structural)]
pub enum SymbolKind {
    Class,
    Interface,
    Enum,
    Record,
    Annotation,
    Method,
    Constructor,
    Field,
    EnumConstant,
    Parameter,
    Package,
    Object,
    CompanionObject,
    DataClass,
    SealedClass,
    Trait,
    CaseClass,
    CaseObject,
    Namespace,
    Function,
    Protocol,
    Multimethod,
    Defrecord,
    Deftype,
}

} // verus!
