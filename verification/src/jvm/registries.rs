//! The JVM registry bag: one typed registry per JVM-shaped lookup.
use vstd::prelude::*;

use crate::jvm::keys::{JvmConstructorKey, JvmFieldKey, JvmMethodKey, JvmTypeKey, PackageKey};
use crate::registry::Registry;

verus! {

/// All JVM-projection registries, named by field.
pub struct JvmRegistries {
    pub types: Registry<JvmTypeKey>,
    pub fields: Registry<JvmFieldKey>,
    pub methods: Registry<JvmMethodKey>,
    pub constructors: Registry<JvmConstructorKey>,
    pub packages: Registry<PackageKey>,
}

impl JvmRegistries {
    pub open spec fn wf(&self) -> bool {
        &&& self.types.wf()
        &&& self.fields.wf()
        &&& self.methods.wf()
        &&& self.constructors.wf()
        &&& self.packages.wf()
    }

    /// Five empty registries.
    pub fn new() -> (r: Self)
        ensures
            r.wf(),
            forall|k: Seq<char>| r.types.providers_of(k) == Seq::<crate::graph::arena::NodeId>::empty(),
            forall|k| r.fields.providers_of(k) == Seq::<crate::graph::arena::NodeId>::empty(),
            forall|k| r.methods.providers_of(k) == Seq::<crate::graph::arena::NodeId>::empty(),
            forall|k| r.constructors.providers_of(k) == Seq::<crate::graph::arena::NodeId>::empty(),
            forall|k: Seq<char>| r.packages.providers_of(k) == Seq::<crate::graph::arena::NodeId>::empty(),
    {
        JvmRegistries {
            types: Registry::new(),
            fields: Registry::new(),
            methods: Registry::new(),
            constructors: Registry::new(),
            packages: Registry::new(),
        }
    }
}

impl Default for JvmRegistries {
    fn default() -> (r: Self)
        ensures
            r.wf(),
    {
        Self::new()
    }
}

} // verus!
