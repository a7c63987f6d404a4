//! The Java-side registry bag.
use vstd::prelude::*;

use crate::graph::arena::NodeId;
use crate::languages::java::keys::JavaSymbolKey;
use crate::registry::Registry;

verus! {

/// All Java-side registries.
pub struct JavaRegistries {
    pub symbols: Registry<JavaSymbolKey>,
}

impl JavaRegistries {
    /// An empty Java symbol registry.
    pub fn new() -> (r: Self)
        ensures
            r.symbols.wf(),
            forall|k: Seq<char>| r.symbols.providers_of(k) == Seq::<NodeId>::empty(),
    {
        JavaRegistries { symbols: Registry::new() }
    }
}

impl Default for JavaRegistries {
    fn default() -> (r: Self)
        ensures
            r.symbols.wf(),
    {
        Self::new()
    }
}

} // verus!
