//! Java-side registry keys: one key addresses any Java-side declaration
//! by its fully-qualified name.
use vstd::prelude::*;

use crate::jvm::fqn::Fqn;
use crate::registry::key::{RegistryKey, SimpleNamed};
use crate::text::{last_segment_spec, IntoText};

verus! {

/// Key identifying a Java-side declaration by its fully-qualified name.
#[derive(Debug, Clone, PartialEq, Eq, Hash)]
pub struct JavaSymbolKey {
    pub fqn: Fqn,
}

impl View for JavaSymbolKey {
    type V = Seq<char>;

    open spec fn view(&self) -> Seq<char> {
        self.fqn@
    }
}

impl JavaSymbolKey {
    pub fn new<T: IntoText>(fqn: T) -> (r: Self)
        ensures
            r@ == fqn@,
    {
        JavaSymbolKey { fqn: Fqn::new(fqn) }
    }
}

impl SimpleNamed for JavaSymbolKey {
    open spec fn simple_name_of(v: Seq<char>) -> Seq<char> {
        last_segment_spec(v)
    }

    fn simple_name(&self) -> (r: &str) {
        self.fqn.simple_name()
    }
}

impl RegistryKey for JavaSymbolKey {
    fn same_key(&self, other: &Self) -> (b: bool) {
        self.fqn.same(&other.fqn)
    }

    fn clone_key(&self) -> (r: Self) {
        JavaSymbolKey { fqn: self.fqn.duplicate() }
    }
}

} // verus!
