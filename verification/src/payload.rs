//! The union payload of the graph: a JVM-projection node or a Java-side
//! node, and how each one is filed in (and later removed from) the
//! registries.
use vstd::prelude::*;

use crate::graph::arena::NodeId;
use crate::graph::behavior::NodeBehavior;
use crate::jvm::keys::{JvmConstructorKey, JvmFieldKey, JvmMethodKey, JvmTypeKey, PackageKey};
use crate::jvm::payload::{param_types, JvmNodePayload};
use crate::languages::java::keys::JavaSymbolKey;
use crate::languages::java::payload::{java_header_of, JavaNodePayload};
use crate::registries::Registries;
use crate::registry::buckets::remove_first_of;
use crate::registry::{lemma_unregister_undoes_register, ProviderHandle, Registry, RegistryKey};
use crate::type_ref::TypeModel;

verus! {

/// One graph node's payload.
#[derive(Debug, PartialEq)]
pub enum NodePayload {
    Jvm(JvmNodePayload),
    Java(JavaNodePayload),
}

/// A registry and a key in it, by value.
pub enum KeySlot {
    JvmType(Seq<char>),
    JvmMethod((Seq<char>, Seq<char>, Seq<TypeModel>)),
    JvmField((Seq<char>, Seq<char>)),
    JvmConstructor((Seq<char>, Seq<TypeModel>)),
    JvmPackage(Seq<char>),
    JavaSymbol(Seq<char>),
}

/// One registration made for a node, to be released when it goes.
pub enum Registration {
    JvmType(ProviderHandle<JvmTypeKey>),
    JvmMethod(ProviderHandle<JvmMethodKey>),
    JvmField(ProviderHandle<JvmFieldKey>),
    JvmConstructor(ProviderHandle<JvmConstructorKey>),
    JvmPackage(ProviderHandle<PackageKey>),
    JavaSymbol(ProviderHandle<JavaSymbolKey>),
}

/// Where a JVM node is filed: types by FQN, methods (and annotation
/// elements, as methods without parameters) by owner, name and parameter
/// types, fields (and enum constants) by owner and name, constructors by
/// owner and parameter types, packages by name; parameters nowhere.
pub open spec fn jvm_slot(p: JvmNodePayload) -> Option<KeySlot> {
    match p {
        JvmNodePayload::Type(n) => Some(KeySlot::JvmType(n.header.fqn@)),
        JvmNodePayload::Method(n) => Some(
            KeySlot::JvmMethod((n.owner@, n.header.name@, param_types(n.parameters@))),
        ),
        JvmNodePayload::Constructor(n) => Some(
            KeySlot::JvmConstructor((n.owner@, param_types(n.parameters@))),
        ),
        JvmNodePayload::Field(n) => Some(KeySlot::JvmField((n.owner@, n.header.name@))),
        JvmNodePayload::EnumConstant(n) => Some(
            KeySlot::JvmField((n.enum_owner@, n.header.name@)),
        ),
        JvmNodePayload::AnnotationElement(n) => Some(
            KeySlot::JvmMethod((n.owner@, n.header.name@, Seq::empty())),
        ),
        JvmNodePayload::Package(n) => Some(KeySlot::JvmPackage(n.header.fqn@)),
        JvmNodePayload::Parameter(_) => None,
    }
}

/// Where a Java node is filed: in the Java symbol registry under its FQN;
/// parameters nowhere.
pub open spec fn java_slot(p: JavaNodePayload) -> Option<KeySlot> {
    match java_header_of(p) {
        Some(h) => Some(KeySlot::JavaSymbol(h.fqn@)),
        None => None,
    }
}

/// Where a node is filed.
pub open spec fn slot_of(p: NodePayload) -> Option<KeySlot> {
    match p {
        NodePayload::Jvm(j) => jvm_slot(j),
        NodePayload::Java(j) => java_slot(j),
    }
}

/// `after` is `before` with `id` appended to `key`'s list.
pub open spec fn appended<K: RegistryKey>(before: Registry<K>, after: Registry<K>, key: Option<K::V>, id: NodeId) -> bool {
    forall|k: K::V|
        #![trigger after.providers_of(k)]
        after.providers_of(k) == if key == Some(k) {
            before.providers_of(k).push(id)
        } else {
            before.providers_of(k)
        }
}

/// `after` is `before` with the first `id` of `key`'s list removed (the
/// rest keeping their order).
pub open spec fn removed<K: RegistryKey>(before: Registry<K>, after: Registry<K>, key: Option<K::V>, id: NodeId) -> bool {
    forall|k: K::V|
        #![trigger after.providers_of(k)]
        after.providers_of(k) == if key == Some(k) {
            remove_first_of(before.providers_of(k), id)
        } else {
            before.providers_of(k)
        }
}

/// `after` is `before` with `id` filed under `slot` (nothing changes for
/// no slot).
pub open spec fn filed(before: Registries, after: Registries, slot: Option<KeySlot>, id: NodeId) -> bool {
    &&& appended(before.jvm_types, after.jvm_types, match slot { Some(KeySlot::JvmType(k)) => Some(k), _ => None }, id)
    &&& appended(before.jvm_methods, after.jvm_methods, match slot { Some(KeySlot::JvmMethod(k)) => Some(k), _ => None }, id)
    &&& appended(before.jvm_fields, after.jvm_fields, match slot { Some(KeySlot::JvmField(k)) => Some(k), _ => None }, id)
    &&& appended(before.jvm_constructors, after.jvm_constructors, match slot { Some(KeySlot::JvmConstructor(k)) => Some(k), _ => None }, id)
    &&& appended(before.jvm_packages, after.jvm_packages, match slot { Some(KeySlot::JvmPackage(k)) => Some(k), _ => None }, id)
    &&& appended(before.java_symbols, after.java_symbols, match slot { Some(KeySlot::JavaSymbol(k)) => Some(k), _ => None }, id)
}

/// `after` is `before` with one filing of `id` under `slot` removed.
pub open spec fn unfiled(before: Registries, after: Registries, slot: KeySlot, id: NodeId) -> bool {
    &&& removed(before.jvm_types, after.jvm_types, match slot { KeySlot::JvmType(k) => Some(k), _ => None }, id)
    &&& removed(before.jvm_methods, after.jvm_methods, match slot { KeySlot::JvmMethod(k) => Some(k), _ => None }, id)
    &&& removed(before.jvm_fields, after.jvm_fields, match slot { KeySlot::JvmField(k) => Some(k), _ => None }, id)
    &&& removed(before.jvm_constructors, after.jvm_constructors, match slot { KeySlot::JvmConstructor(k) => Some(k), _ => None }, id)
    &&& removed(before.jvm_packages, after.jvm_packages, match slot { KeySlot::JvmPackage(k) => Some(k), _ => None }, id)
    &&& removed(before.java_symbols, after.java_symbols, match slot { KeySlot::JavaSymbol(k) => Some(k), _ => None }, id)
}

/// The first `n` of `ids` whose slot (in `slots`, index for index) is
/// `slot`, in order.
pub open spec fn filed_ids(slots: Seq<Option<KeySlot>>, ids: Seq<NodeId>, n: nat, slot: KeySlot) -> Seq<NodeId>
    decreases n,
{
    if n == 0 {
        Seq::empty()
    } else {
        let before = filed_ids(slots, ids, (n - 1) as nat, slot);
        if slots[n - 1] == Some(slot) {
            before.push(ids[n - 1])
        } else {
            before
        }
    }
}

/// `after` is `before` with the first `n` of `ids` appended, each to the
/// list of the key its slot names.
pub open spec fn filed_all(before: Registries, after: Registries, slots: Seq<Option<KeySlot>>, ids: Seq<NodeId>, n: nat) -> bool {
    &&& forall|k: Seq<char>|
        #![trigger after.jvm_types.providers_of(k)]
        after.jvm_types.providers_of(k) == before.jvm_types.providers_of(k) + filed_ids(slots, ids, n, KeySlot::JvmType(k))
    &&& forall|k: (Seq<char>, Seq<char>, Seq<TypeModel>)|
        #![trigger after.jvm_methods.providers_of(k)]
        after.jvm_methods.providers_of(k) == before.jvm_methods.providers_of(k) + filed_ids(slots, ids, n, KeySlot::JvmMethod(k))
    &&& forall|k: (Seq<char>, Seq<char>)|
        #![trigger after.jvm_fields.providers_of(k)]
        after.jvm_fields.providers_of(k) == before.jvm_fields.providers_of(k) + filed_ids(slots, ids, n, KeySlot::JvmField(k))
    &&& forall|k: (Seq<char>, Seq<TypeModel>)|
        #![trigger after.jvm_constructors.providers_of(k)]
        after.jvm_constructors.providers_of(k) == before.jvm_constructors.providers_of(k) + filed_ids(slots, ids, n, KeySlot::JvmConstructor(k))
    &&& forall|k: Seq<char>|
        #![trigger after.jvm_packages.providers_of(k)]
        after.jvm_packages.providers_of(k) == before.jvm_packages.providers_of(k) + filed_ids(slots, ids, n, KeySlot::JvmPackage(k))
    &&& forall|k: Seq<char>|
        #![trigger after.java_symbols.providers_of(k)]
        after.java_symbols.providers_of(k) == before.java_symbols.providers_of(k) + filed_ids(slots, ids, n, KeySlot::JavaSymbol(k))
}

/// Filing the next node extends a run of filings by one.
pub proof fn lemma_filed_all_step(
    start: Registries,
    mid: Registries,
    after: Registries,
    slots: Seq<Option<KeySlot>>,
    ids: Seq<NodeId>,
    n: nat,
)
    requires
        n < slots.len(),
        n < ids.len(),
        filed_all(start, mid, slots, ids, n),
        filed(mid, after, slots[n as int], ids[n as int]),
    ensures
        filed_all(start, after, slots, ids, n + 1),
{
    assert forall|k: Seq<char>| #[trigger] after.jvm_types.providers_of(k) == start.jvm_types.providers_of(k) + filed_ids(slots, ids, n + 1, KeySlot::JvmType(k)) by {
        assert(mid.jvm_types.providers_of(k) == start.jvm_types.providers_of(k) + filed_ids(slots, ids, n, KeySlot::JvmType(k)));
        assert((start.jvm_types.providers_of(k) + filed_ids(slots, ids, n, KeySlot::JvmType(k))).push(ids[n as int]) =~= start.jvm_types.providers_of(k) + filed_ids(slots, ids, n, KeySlot::JvmType(k)).push(ids[n as int]));
    }
    assert forall|k: (Seq<char>, Seq<char>, Seq<TypeModel>)| #[trigger] after.jvm_methods.providers_of(k) == start.jvm_methods.providers_of(k) + filed_ids(slots, ids, n + 1, KeySlot::JvmMethod(k)) by {
        assert(mid.jvm_methods.providers_of(k) == start.jvm_methods.providers_of(k) + filed_ids(slots, ids, n, KeySlot::JvmMethod(k)));
        assert((start.jvm_methods.providers_of(k) + filed_ids(slots, ids, n, KeySlot::JvmMethod(k))).push(ids[n as int]) =~= start.jvm_methods.providers_of(k) + filed_ids(slots, ids, n, KeySlot::JvmMethod(k)).push(ids[n as int]));
    }
    assert forall|k: (Seq<char>, Seq<char>)| #[trigger] after.jvm_fields.providers_of(k) == start.jvm_fields.providers_of(k) + filed_ids(slots, ids, n + 1, KeySlot::JvmField(k)) by {
        assert(mid.jvm_fields.providers_of(k) == start.jvm_fields.providers_of(k) + filed_ids(slots, ids, n, KeySlot::JvmField(k)));
        assert((start.jvm_fields.providers_of(k) + filed_ids(slots, ids, n, KeySlot::JvmField(k))).push(ids[n as int]) =~= start.jvm_fields.providers_of(k) + filed_ids(slots, ids, n, KeySlot::JvmField(k)).push(ids[n as int]));
    }
    assert forall|k: (Seq<char>, Seq<TypeModel>)| #[trigger] after.jvm_constructors.providers_of(k) == start.jvm_constructors.providers_of(k) + filed_ids(slots, ids, n + 1, KeySlot::JvmConstructor(k)) by {
        assert(mid.jvm_constructors.providers_of(k) == start.jvm_constructors.providers_of(k) + filed_ids(slots, ids, n, KeySlot::JvmConstructor(k)));
        assert((start.jvm_constructors.providers_of(k) + filed_ids(slots, ids, n, KeySlot::JvmConstructor(k))).push(ids[n as int]) =~= start.jvm_constructors.providers_of(k) + filed_ids(slots, ids, n, KeySlot::JvmConstructor(k)).push(ids[n as int]));
    }
    assert forall|k: Seq<char>| #[trigger] after.jvm_packages.providers_of(k) == start.jvm_packages.providers_of(k) + filed_ids(slots, ids, n + 1, KeySlot::JvmPackage(k)) by {
        assert(mid.jvm_packages.providers_of(k) == start.jvm_packages.providers_of(k) + filed_ids(slots, ids, n, KeySlot::JvmPackage(k)));
        assert((start.jvm_packages.providers_of(k) + filed_ids(slots, ids, n, KeySlot::JvmPackage(k))).push(ids[n as int]) =~= start.jvm_packages.providers_of(k) + filed_ids(slots, ids, n, KeySlot::JvmPackage(k)).push(ids[n as int]));
    }
    assert forall|k: Seq<char>| #[trigger] after.java_symbols.providers_of(k) == start.java_symbols.providers_of(k) + filed_ids(slots, ids, n + 1, KeySlot::JavaSymbol(k)) by {
        assert(mid.java_symbols.providers_of(k) == start.java_symbols.providers_of(k) + filed_ids(slots, ids, n, KeySlot::JavaSymbol(k)));
        assert((start.java_symbols.providers_of(k) + filed_ids(slots, ids, n, KeySlot::JavaSymbol(k))).push(ids[n as int]) =~= start.java_symbols.providers_of(k) + filed_ids(slots, ids, n, KeySlot::JavaSymbol(k)).push(ids[n as int]));
    }
}

/// Nothing filed yet: a run of no filings leaves every list as it was.
pub proof fn lemma_filed_all_none(r: Registries, slots: Seq<Option<KeySlot>>, ids: Seq<NodeId>)
    ensures
        filed_all(r, r, slots, ids, 0),
{
    assert forall|k: Seq<char>| #[trigger] r.jvm_types.providers_of(k) == r.jvm_types.providers_of(k) + filed_ids(slots, ids, 0, KeySlot::JvmType(k)) by {
        assert(r.jvm_types.providers_of(k) + Seq::<NodeId>::empty() =~= r.jvm_types.providers_of(k));
    }
    assert forall|k: (Seq<char>, Seq<char>, Seq<TypeModel>)| #[trigger] r.jvm_methods.providers_of(k) == r.jvm_methods.providers_of(k) + filed_ids(slots, ids, 0, KeySlot::JvmMethod(k)) by {
        assert(r.jvm_methods.providers_of(k) + Seq::<NodeId>::empty() =~= r.jvm_methods.providers_of(k));
    }
    assert forall|k: (Seq<char>, Seq<char>)| #[trigger] r.jvm_fields.providers_of(k) == r.jvm_fields.providers_of(k) + filed_ids(slots, ids, 0, KeySlot::JvmField(k)) by {
        assert(r.jvm_fields.providers_of(k) + Seq::<NodeId>::empty() =~= r.jvm_fields.providers_of(k));
    }
    assert forall|k: (Seq<char>, Seq<TypeModel>)| #[trigger] r.jvm_constructors.providers_of(k) == r.jvm_constructors.providers_of(k) + filed_ids(slots, ids, 0, KeySlot::JvmConstructor(k)) by {
        assert(r.jvm_constructors.providers_of(k) + Seq::<NodeId>::empty() =~= r.jvm_constructors.providers_of(k));
    }
    assert forall|k: Seq<char>| #[trigger] r.jvm_packages.providers_of(k) == r.jvm_packages.providers_of(k) + filed_ids(slots, ids, 0, KeySlot::JvmPackage(k)) by {
        assert(r.jvm_packages.providers_of(k) + Seq::<NodeId>::empty() =~= r.jvm_packages.providers_of(k));
    }
    assert forall|k: Seq<char>| #[trigger] r.java_symbols.providers_of(k) == r.java_symbols.providers_of(k) + filed_ids(slots, ids, 0, KeySlot::JavaSymbol(k)) by {
        assert(r.java_symbols.providers_of(k) + Seq::<NodeId>::empty() =~= r.java_symbols.providers_of(k));
    }
}

/// Releasing a filing right after making it gives every provider list
/// back as it was, when the node was not already filed under that key:
/// `release` undoes `on_created`'s registration.
pub proof fn lemma_release_undoes_filing(before: Registries, mid: Registries, after: Registries, slot: KeySlot, id: NodeId)
    requires
        !crate::multi_query::slot_providers(before, slot).contains(id),
        filed(before, mid, Some(slot), id),
        unfiled(mid, after, slot, id),
    ensures
        forall|k: Seq<char>| #[trigger] after.jvm_types.providers_of(k) == before.jvm_types.providers_of(k),
        forall|k: (Seq<char>, Seq<char>, Seq<TypeModel>)| #[trigger] after.jvm_methods.providers_of(k) == before.jvm_methods.providers_of(k),
        forall|k: (Seq<char>, Seq<char>)| #[trigger] after.jvm_fields.providers_of(k) == before.jvm_fields.providers_of(k),
        forall|k: (Seq<char>, Seq<TypeModel>)| #[trigger] after.jvm_constructors.providers_of(k) == before.jvm_constructors.providers_of(k),
        forall|k: Seq<char>| #[trigger] after.jvm_packages.providers_of(k) == before.jvm_packages.providers_of(k),
        forall|k: Seq<char>| #[trigger] after.java_symbols.providers_of(k) == before.java_symbols.providers_of(k),
{
    assert forall|k: Seq<char>| #[trigger] after.jvm_types.providers_of(k) == before.jvm_types.providers_of(k) by {
        if slot == KeySlot::JvmType(k) {
            lemma_unregister_undoes_register(before.jvm_types.providers_of(k), id);
        }
    }
    assert forall|k: (Seq<char>, Seq<char>, Seq<TypeModel>)| #[trigger] after.jvm_methods.providers_of(k) == before.jvm_methods.providers_of(k) by {
        if slot == KeySlot::JvmMethod(k) {
            lemma_unregister_undoes_register(before.jvm_methods.providers_of(k), id);
        }
    }
    assert forall|k: (Seq<char>, Seq<char>)| #[trigger] after.jvm_fields.providers_of(k) == before.jvm_fields.providers_of(k) by {
        if slot == KeySlot::JvmField(k) {
            lemma_unregister_undoes_register(before.jvm_fields.providers_of(k), id);
        }
    }
    assert forall|k: (Seq<char>, Seq<TypeModel>)| #[trigger] after.jvm_constructors.providers_of(k) == before.jvm_constructors.providers_of(k) by {
        if slot == KeySlot::JvmConstructor(k) {
            lemma_unregister_undoes_register(before.jvm_constructors.providers_of(k), id);
        }
    }
    assert forall|k: Seq<char>| #[trigger] after.jvm_packages.providers_of(k) == before.jvm_packages.providers_of(k) by {
        if slot == KeySlot::JvmPackage(k) {
            lemma_unregister_undoes_register(before.jvm_packages.providers_of(k), id);
        }
    }
    assert forall|k: Seq<char>| #[trigger] after.java_symbols.providers_of(k) == before.java_symbols.providers_of(k) by {
        if slot == KeySlot::JavaSymbol(k) {
            lemma_unregister_undoes_register(before.java_symbols.providers_of(k), id);
        }
    }
}

/// A slot's provider list after releasing `regs` in order: each
/// registration on the slot takes out the first occurrence of its node.
pub open spec fn providers_after(p: Seq<NodeId>, regs: Seq<Registration>, s: KeySlot) -> Seq<NodeId>
    decreases regs.len(),
{
    if regs.len() == 0 {
        p
    } else {
        let q = providers_after(p, regs.drop_last(), s);
        if regs.last().slot() == s {
            remove_first_of(q, regs.last().node())
        } else {
            q
        }
    }
}

impl Registration {
    /// The node this registration files.
    pub fn node_id(&self) -> (r: NodeId)
        ensures
            r == self.node(),
    {
        match self {
            Registration::JvmType(h) => h.node(),
            Registration::JvmMethod(h) => h.node(),
            Registration::JvmField(h) => h.node(),
            Registration::JvmConstructor(h) => h.node(),
            Registration::JvmPackage(h) => h.node(),
            Registration::JavaSymbol(h) => h.node(),
        }
    }

    /// The registry and key this registration is filed under.
    pub open spec fn slot(&self) -> KeySlot {
        match self {
            Registration::JvmType(h) => KeySlot::JvmType(h.key_view()),
            Registration::JvmMethod(h) => KeySlot::JvmMethod(h.key_view()),
            Registration::JvmField(h) => KeySlot::JvmField(h.key_view()),
            Registration::JvmConstructor(h) => KeySlot::JvmConstructor(h.key_view()),
            Registration::JvmPackage(h) => KeySlot::JvmPackage(h.key_view()),
            Registration::JavaSymbol(h) => KeySlot::JavaSymbol(h.key_view()),
        }
    }

    /// The node this registration files.
    pub open spec fn node(&self) -> NodeId {
        match self {
            Registration::JvmType(h) => h.node_spec(),
            Registration::JvmMethod(h) => h.node_spec(),
            Registration::JvmField(h) => h.node_spec(),
            Registration::JvmConstructor(h) => h.node_spec(),
            Registration::JvmPackage(h) => h.node_spec(),
            Registration::JavaSymbol(h) => h.node_spec(),
        }
    }
}

impl Registries {
    /// Remove the filing `r` stands for.
    pub fn release(&mut self, r: Registration)
        requires
            old(self).wf(),
        ensures
            final(self).wf(),
            unfiled(*old(self), *final(self), r.slot(), r.node()),
            crate::multi_query::changed_at(*old(self), *final(self), r.slot()),
            forall|s: KeySlot|
                #![trigger crate::multi_query::slot_providers(*final(self), s)]
                crate::multi_query::slot_providers(*final(self), s) == if s == r.slot() {
                    remove_first_of(crate::multi_query::slot_providers(*old(self), s), r.node())
                } else {
                    crate::multi_query::slot_providers(*old(self), s)
                },
    {
        match r {
            Registration::JvmType(h) => self.jvm_types.unregister(h),
            Registration::JvmMethod(h) => self.jvm_methods.unregister(h),
            Registration::JvmField(h) => self.jvm_fields.unregister(h),
            Registration::JvmConstructor(h) => self.jvm_constructors.unregister(h),
            Registration::JvmPackage(h) => self.jvm_packages.unregister(h),
            Registration::JavaSymbol(h) => self.java_symbols.unregister(h),
        }
    }
}

impl NodeBehavior for NodePayload {
    type Ctx = Registries;

    type Handle = Registration;

    open spec fn ctx_ready(ctx: &Registries) -> bool {
        ctx.wf()
    }

    /// File node `id` where its payload belongs (see [`slot_of`]); the one
    /// registration made comes back in the list.
    fn on_created(&self, id: NodeId, ctx: &mut Registries) -> (handles: Vec<Registration>)
        ensures
            filed(*old(ctx), *final(ctx), slot_of(*self), id),
            handles@.len() == (if slot_of(*self) is Some {
                1int
            } else {
                0int
            }),
            forall|i: int|
                0 <= i < handles@.len() ==> Some((#[trigger] handles@[i]).slot()) == slot_of(*self)
                    && handles@[i].node() == id,
    {
        let mut out: Vec<Registration> = Vec::new();
        match self {
            NodePayload::Jvm(j) => match j {
                JvmNodePayload::Type(n) => {
                    let h = ctx.jvm_types.register(JvmTypeKey::new(n.header.fqn.duplicate()), id);
                    out.push(Registration::JvmType(h));
                },
                JvmNodePayload::Method(n) => {
                    let h = ctx.jvm_methods.register(n.key(), id);
                    out.push(Registration::JvmMethod(h));
                },
                JvmNodePayload::Constructor(n) => {
                    let h = ctx.jvm_constructors.register(n.key(), id);
                    out.push(Registration::JvmConstructor(h));
                },
                JvmNodePayload::Field(n) => {
                    let h = ctx.jvm_fields.register(n.key(), id);
                    out.push(Registration::JvmField(h));
                },
                JvmNodePayload::EnumConstant(n) => {
                    let h = ctx.jvm_fields.register(n.key(), id);
                    out.push(Registration::JvmField(h));
                },
                JvmNodePayload::AnnotationElement(n) => {
                    let h = ctx.jvm_methods.register(n.key(), id);
                    out.push(Registration::JvmMethod(h));
                },
                JvmNodePayload::Package(n) => {
                    let h = ctx.jvm_packages.register(n.key(), id);
                    out.push(Registration::JvmPackage(h));
                },
                JvmNodePayload::Parameter(_) => {},
            },
            NodePayload::Java(j) => match j.header() {
                Some(hd) => {
                    let h = ctx.java_symbols.register(JavaSymbolKey::new(hd.fqn.duplicate()), id);
                    out.push(Registration::JavaSymbol(h));
                },
                None => {},
            },
        }
        out
    }
}

} // verus!
