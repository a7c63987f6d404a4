//! The flat bag of every registry a workspace sees: the JVM-projection
//! registries and the per-language ones, each its own typed slot.
use vstd::prelude::*;

use crate::graph::arena::NodeId;
use crate::jvm::keys::{JvmConstructorKey, JvmFieldKey, JvmMethodKey, JvmTypeKey, PackageKey};
use crate::languages::java::keys::JavaSymbolKey;
use crate::registry::Registry;

verus! {

/// Cross-layer aggregator; resolution code names the registry it queries.
pub struct Registries {
    pub jvm_types: Registry<JvmTypeKey>,
    pub jvm_methods: Registry<JvmMethodKey>,
    pub jvm_fields: Registry<JvmFieldKey>,
    pub jvm_constructors: Registry<JvmConstructorKey>,
    pub jvm_packages: Registry<PackageKey>,
    pub java_symbols: Registry<JavaSymbolKey>,
}

impl Registries {
    pub open spec fn wf(&self) -> bool {
        &&& self.jvm_types.wf()
        &&& self.jvm_methods.wf()
        &&& self.jvm_fields.wf()
        &&& self.jvm_constructors.wf()
        &&& self.jvm_packages.wf()
        &&& self.java_symbols.wf()
    }

    /// Every registry empty.
    pub fn new() -> (r: Self)
        ensures
            r.wf(),
            forall|k: Seq<char>| r.jvm_types.providers_of(k) == Seq::<NodeId>::empty(),
            forall|k| r.jvm_methods.providers_of(k) == Seq::<NodeId>::empty(),
            forall|k| r.jvm_fields.providers_of(k) == Seq::<NodeId>::empty(),
            forall|k| r.jvm_constructors.providers_of(k) == Seq::<NodeId>::empty(),
            forall|k: Seq<char>| r.jvm_packages.providers_of(k) == Seq::<NodeId>::empty(),
            forall|k: Seq<char>| r.java_symbols.providers_of(k) == Seq::<NodeId>::empty(),
    {
        Registries {
            jvm_types: Registry::new(),
            jvm_methods: Registry::new(),
            jvm_fields: Registry::new(),
            jvm_constructors: Registry::new(),
            jvm_packages: Registry::new(),
            java_symbols: Registry::new(),
        }
    }
}

impl Default for Registries {
    fn default() -> (r: Self)
        ensures
            r.wf(),
    {
        Self::new()
    }
}

} // verus!
