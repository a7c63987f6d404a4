//! Declaration modifiers.
use vstd::prelude::*;

verus! {

/// A declaration modifier (JLS §8.1.1, §8.3.1, §8.4.3).
#[derive(Debug, Clone, Copy, PartialEq, Eq, Hash, Structural)]
pub enum Modifier {
    Public,
    Private,
    Protected,
    Static,
    Abstract,
    Final,
    Sealed,
    NonSealed,
    Default,
    Synchronized,
    Volatile,
    Transient,
    Native,
    Strictfp,
}

/// The Java keyword that writes a modifier: the variant's name in lower
/// case (`non-sealed` for `NonSealed`).
pub open spec fn modifier_keyword(m: Modifier) -> Seq<char> {
    match m {
        Modifier::Public => "public"@,
        Modifier::Private => "private"@,
        Modifier::Protected => "protected"@,
        Modifier::Static => "static"@,
        Modifier::Abstract => "abstract"@,
        Modifier::Final => "final"@,
        Modifier::Sealed => "sealed"@,
        Modifier::NonSealed => "non-sealed"@,
        Modifier::Default => "default"@,
        Modifier::Synchronized => "synchronized"@,
        Modifier::Volatile => "volatile"@,
        Modifier::Transient => "transient"@,
        Modifier::Native => "native"@,
        Modifier::Strictfp => "strictfp"@,
    }
}

} // verus!
