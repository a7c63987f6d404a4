//! Stored priority lists of registry queries: the first query with a
//! provider answers and the answer is cached. A provider change on a
//! consulted key reaches the query when the subscriptions it fired are
//! delivered to it ([`MultiQuery::deliver`]; [`MultiQuery::register_provider`]
//! and [`MultiQuery::unregister_provider`] make the change and deliver at
//! once): the cache goes stale and the consumer watches are told.
//! [`MultiQuery::in_step`] is the tie between cache and registries: every
//! registry change, batch commit and delivery keeps it, and while it holds
//! with nothing owed the answer is the registries' current one.
use vstd::prelude::*;

use crate::beans::Beans;
use crate::graph::arena::NodeId;
use crate::jvm::keys::{JvmConstructorKey, JvmFieldKey, JvmMethodKey, JvmTypeKey, PackageKey};
use crate::languages::java::keys::JavaSymbolKey;
use crate::payload::{KeySlot, Registration};
use crate::type_ref::TypeModel;
use crate::registries::Registries;
use crate::registry::query::{lemma_result_of, QueryResult, Subscription};
use crate::registry::buckets::{other_than, remove_first_of};
use crate::registry::SubscriptionId;

verus! {

/// One query against one typed registry of the bag.
#[derive(Debug)]
pub enum RegistryQuery {
    JvmType(JvmTypeKey),
    JvmMethod(JvmMethodKey),
    JvmField(JvmFieldKey),
    JvmConstructor(JvmConstructorKey),
    JvmPackage(PackageKey),
    JavaSymbol(JavaSymbolKey),
}

/// Which registry of the bag.
#[derive(Debug, Clone, Copy, PartialEq, Eq, Structural)]
pub enum RegistryName {
    JvmTypes,
    JvmMethods,
    JvmFields,
    JvmConstructors,
    JvmPackages,
    JavaSymbols,
}

/// The registry a slot lives in.
pub open spec fn slot_registry(s: KeySlot) -> RegistryName {
    match s {
        KeySlot::JvmType(_) => RegistryName::JvmTypes,
        KeySlot::JvmMethod(_) => RegistryName::JvmMethods,
        KeySlot::JvmField(_) => RegistryName::JvmFields,
        KeySlot::JvmConstructor(_) => RegistryName::JvmConstructors,
        KeySlot::JvmPackage(_) => RegistryName::JvmPackages,
        KeySlot::JavaSymbol(_) => RegistryName::JavaSymbols,
    }
}

/// The providers filed under a slot.
pub open spec fn slot_providers(r: Registries, s: KeySlot) -> Seq<NodeId> {
    match s {
        KeySlot::JvmType(k) => r.jvm_types.providers_of(k),
        KeySlot::JvmMethod(k) => r.jvm_methods.providers_of(k),
        KeySlot::JvmField(k) => r.jvm_fields.providers_of(k),
        KeySlot::JvmConstructor(k) => r.jvm_constructors.providers_of(k),
        KeySlot::JvmPackage(k) => r.jvm_packages.providers_of(k),
        KeySlot::JavaSymbol(k) => r.java_symbols.providers_of(k),
    }
}

/// The next subscription id of a registry of the bag.
pub open spec fn next_subscription_of(r: Registries, n: RegistryName) -> nat {
    match n {
        RegistryName::JvmTypes => r.jvm_types.next_subscription(),
        RegistryName::JvmMethods => r.jvm_methods.next_subscription(),
        RegistryName::JvmFields => r.jvm_fields.next_subscription(),
        RegistryName::JvmConstructors => r.jvm_constructors.next_subscription(),
        RegistryName::JvmPackages => r.jvm_packages.next_subscription(),
        RegistryName::JavaSymbols => r.java_symbols.next_subscription(),
    }
}

/// Every registry of the bag has at least `n` subscription ids left.
pub open spec fn ids_left(r: Registries, n: nat) -> bool {
    forall|name: RegistryName| #[trigger] next_subscription_of(r, name) + n < u64::MAX
}

/// The subscriptions waiting on a slot's key.
pub open spec fn slot_subscribers(r: Registries, s: KeySlot) -> Seq<SubscriptionId> {
    match s {
        KeySlot::JvmType(k) => r.jvm_types.subscribers_of(k),
        KeySlot::JvmMethod(k) => r.jvm_methods.subscribers_of(k),
        KeySlot::JvmField(k) => r.jvm_fields.subscribers_of(k),
        KeySlot::JvmConstructor(k) => r.jvm_constructors.subscribers_of(k),
        KeySlot::JvmPackage(k) => r.jvm_packages.subscribers_of(k),
        KeySlot::JavaSymbol(k) => r.java_symbols.subscribers_of(k),
    }
}

/// Every registry of the bag will hand out the same next subscription id
/// in `a` and `b`.
pub open spec fn same_next_ids(a: Registries, b: Registries) -> bool {
    forall|n: RegistryName| #[trigger] next_subscription_of(a, n) == next_subscription_of(b, n)
}

/// True iff one of `subs` is subscription `x` on slot `s`.
pub open spec fn ends_among(subs: Seq<RegistrySubscription>, s: KeySlot, x: SubscriptionId) -> bool {
    exists|i: int| 0 <= i < subs.len() && (#[trigger] subs[i]).slot() == s && subs[i].id_spec() == x
}

/// The ids a slot keeps once every subscription in `subs` has ended.
pub open spec fn kept_after(subs: Seq<RegistrySubscription>, s: KeySlot) -> spec_fn(SubscriptionId) -> bool {
    |x: SubscriptionId| !ends_among(subs, s, x)
}

/// Filtering twice is filtering once by both tests.
pub proof fn lemma_filter_filter<T>(v: Seq<T>, p: spec_fn(T) -> bool, q: spec_fn(T) -> bool)
    ensures
        v.filter(p).filter(q) == v.filter(|x: T| p(x) && q(x)),
    decreases v.len(),
{
    reveal(Seq::filter);
    if v.len() > 0 {
        lemma_filter_filter(v.drop_last(), p, q);
        let both = |x: T| p(x) && q(x);
        assert(v.filter(p) == if p(v.last()) {
            v.drop_last().filter(p).push(v.last())
        } else {
            v.drop_last().filter(p)
        });
        if p(v.last()) {
            assert(v.drop_last().filter(p).push(v.last()).drop_last() =~= v.drop_last().filter(p));
        }
    }
}

/// How many notification batches are open on a registry of the bag.
pub open spec fn depth_of(r: Registries, n: RegistryName) -> nat {
    match n {
        RegistryName::JvmTypes => r.jvm_types.depth(),
        RegistryName::JvmMethods => r.jvm_methods.depth(),
        RegistryName::JvmFields => r.jvm_fields.depth(),
        RegistryName::JvmConstructors => r.jvm_constructors.depth(),
        RegistryName::JvmPackages => r.jvm_packages.depth(),
        RegistryName::JavaSymbols => r.java_symbols.depth(),
    }
}

/// The subscriptions a registry of the bag has fired and not yet handed
/// out.
pub open spec fn fired_of(r: Registries, n: RegistryName) -> Seq<SubscriptionId> {
    match n {
        RegistryName::JvmTypes => r.jvm_types.fired(),
        RegistryName::JvmMethods => r.jvm_methods.fired(),
        RegistryName::JvmFields => r.jvm_fields.fired(),
        RegistryName::JvmConstructors => r.jvm_constructors.fired(),
        RegistryName::JvmPackages => r.jvm_packages.fired(),
        RegistryName::JavaSymbols => r.java_symbols.fired(),
    }
}

/// A slot's key waits in an open batch of its registry.
pub open spec fn slot_pending(r: Registries, s: KeySlot) -> bool {
    match s {
        KeySlot::JvmType(k) => r.jvm_types.pending().contains(k),
        KeySlot::JvmMethod(k) => r.jvm_methods.pending().contains(k),
        KeySlot::JvmField(k) => r.jvm_fields.pending().contains(k),
        KeySlot::JvmConstructor(k) => r.jvm_constructors.pending().contains(k),
        KeySlot::JvmPackage(k) => r.jvm_packages.pending().contains(k),
        KeySlot::JavaSymbol(k) => r.java_symbols.pending().contains(k),
    }
}

/// `after` is `before` with one provider change on slot `s` (what
/// [`Registry::register`] or [`Registry::unregister`] does to the slot's
/// registry): only that registry changed, no other key's providers
/// moved, the subscriptions stayed, and the key's subscribers were
/// notified.
pub open spec fn changed_at(before: Registries, after: Registries, s: KeySlot) -> bool {
    match s {
        KeySlot::JvmType(k) => {
            &&& after == Registries { jvm_types: after.jvm_types, ..before }
            &&& forall|k2: Seq<char>| k2 != k ==> #[trigger] after.jvm_types.providers_of(k2) == before.jvm_types.providers_of(k2)
            &&& forall|k2: Seq<char>| #[trigger] after.jvm_types.subscribers_of(k2) == before.jvm_types.subscribers_of(k2)
            &&& before.jvm_types.notified(&after.jvm_types, k)
        },
        KeySlot::JvmMethod(k) => {
            &&& after == Registries { jvm_methods: after.jvm_methods, ..before }
            &&& forall|k2: (Seq<char>, Seq<char>, Seq<TypeModel>)| k2 != k ==> #[trigger] after.jvm_methods.providers_of(k2) == before.jvm_methods.providers_of(k2)
            &&& forall|k2: (Seq<char>, Seq<char>, Seq<TypeModel>)| #[trigger] after.jvm_methods.subscribers_of(k2) == before.jvm_methods.subscribers_of(k2)
            &&& before.jvm_methods.notified(&after.jvm_methods, k)
        },
        KeySlot::JvmField(k) => {
            &&& after == Registries { jvm_fields: after.jvm_fields, ..before }
            &&& forall|k2: (Seq<char>, Seq<char>)| k2 != k ==> #[trigger] after.jvm_fields.providers_of(k2) == before.jvm_fields.providers_of(k2)
            &&& forall|k2: (Seq<char>, Seq<char>)| #[trigger] after.jvm_fields.subscribers_of(k2) == before.jvm_fields.subscribers_of(k2)
            &&& before.jvm_fields.notified(&after.jvm_fields, k)
        },
        KeySlot::JvmConstructor(k) => {
            &&& after == Registries { jvm_constructors: after.jvm_constructors, ..before }
            &&& forall|k2: (Seq<char>, Seq<TypeModel>)| k2 != k ==> #[trigger] after.jvm_constructors.providers_of(k2) == before.jvm_constructors.providers_of(k2)
            &&& forall|k2: (Seq<char>, Seq<TypeModel>)| #[trigger] after.jvm_constructors.subscribers_of(k2) == before.jvm_constructors.subscribers_of(k2)
            &&& before.jvm_constructors.notified(&after.jvm_constructors, k)
        },
        KeySlot::JvmPackage(k) => {
            &&& after == Registries { jvm_packages: after.jvm_packages, ..before }
            &&& forall|k2: Seq<char>| k2 != k ==> #[trigger] after.jvm_packages.providers_of(k2) == before.jvm_packages.providers_of(k2)
            &&& forall|k2: Seq<char>| #[trigger] after.jvm_packages.subscribers_of(k2) == before.jvm_packages.subscribers_of(k2)
            &&& before.jvm_packages.notified(&after.jvm_packages, k)
        },
        KeySlot::JavaSymbol(k) => {
            &&& after == Registries { java_symbols: after.java_symbols, ..before }
            &&& forall|k2: Seq<char>| k2 != k ==> #[trigger] after.java_symbols.providers_of(k2) == before.java_symbols.providers_of(k2)
            &&& forall|k2: Seq<char>| #[trigger] after.java_symbols.subscribers_of(k2) == before.java_symbols.subscribers_of(k2)
            &&& before.java_symbols.notified(&after.java_symbols, k)
        },
    }
}

/// `after` is `before` with a batch on registry `n` closed (what
/// [`Registry::commit_batch`] does): only that registry changed, its
/// providers and subscriptions stayed, and when the outermost batch
/// closed every pending key's subscribers were fired.
pub open spec fn committed_at(before: Registries, after: Registries, n: RegistryName) -> bool {
    match n {
        RegistryName::JvmTypes => {
            &&& after == Registries { jvm_types: after.jvm_types, ..before }
            &&& before.jvm_types.depth() > 0
            &&& after.jvm_types.depth() == before.jvm_types.depth() - 1
            &&& forall|k2: Seq<char>| #[trigger] after.jvm_types.providers_of(k2) == before.jvm_types.providers_of(k2)
            &&& forall|k2: Seq<char>| #[trigger] after.jvm_types.subscribers_of(k2) == before.jvm_types.subscribers_of(k2)
            &&& after.jvm_types.depth() > 0 ==> after.jvm_types.pending() == before.jvm_types.pending() && after.jvm_types.fired() == before.jvm_types.fired()
            &&& after.jvm_types.depth() == 0 ==> after.jvm_types.fired() == before.jvm_types.fired() + before.jvm_types.fire_list_of(before.jvm_types.pending())
        },
        RegistryName::JvmMethods => {
            &&& after == Registries { jvm_methods: after.jvm_methods, ..before }
            &&& before.jvm_methods.depth() > 0
            &&& after.jvm_methods.depth() == before.jvm_methods.depth() - 1
            &&& forall|k2: (Seq<char>, Seq<char>, Seq<TypeModel>)| #[trigger] after.jvm_methods.providers_of(k2) == before.jvm_methods.providers_of(k2)
            &&& forall|k2: (Seq<char>, Seq<char>, Seq<TypeModel>)| #[trigger] after.jvm_methods.subscribers_of(k2) == before.jvm_methods.subscribers_of(k2)
            &&& after.jvm_methods.depth() > 0 ==> after.jvm_methods.pending() == before.jvm_methods.pending() && after.jvm_methods.fired() == before.jvm_methods.fired()
            &&& after.jvm_methods.depth() == 0 ==> after.jvm_methods.fired() == before.jvm_methods.fired() + before.jvm_methods.fire_list_of(before.jvm_methods.pending())
        },
        RegistryName::JvmFields => {
            &&& after == Registries { jvm_fields: after.jvm_fields, ..before }
            &&& before.jvm_fields.depth() > 0
            &&& after.jvm_fields.depth() == before.jvm_fields.depth() - 1
            &&& forall|k2: (Seq<char>, Seq<char>)| #[trigger] after.jvm_fields.providers_of(k2) == before.jvm_fields.providers_of(k2)
            &&& forall|k2: (Seq<char>, Seq<char>)| #[trigger] after.jvm_fields.subscribers_of(k2) == before.jvm_fields.subscribers_of(k2)
            &&& after.jvm_fields.depth() > 0 ==> after.jvm_fields.pending() == before.jvm_fields.pending() && after.jvm_fields.fired() == before.jvm_fields.fired()
            &&& after.jvm_fields.depth() == 0 ==> after.jvm_fields.fired() == before.jvm_fields.fired() + before.jvm_fields.fire_list_of(before.jvm_fields.pending())
        },
        RegistryName::JvmConstructors => {
            &&& after == Registries { jvm_constructors: after.jvm_constructors, ..before }
            &&& before.jvm_constructors.depth() > 0
            &&& after.jvm_constructors.depth() == before.jvm_constructors.depth() - 1
            &&& forall|k2: (Seq<char>, Seq<TypeModel>)| #[trigger] after.jvm_constructors.providers_of(k2) == before.jvm_constructors.providers_of(k2)
            &&& forall|k2: (Seq<char>, Seq<TypeModel>)| #[trigger] after.jvm_constructors.subscribers_of(k2) == before.jvm_constructors.subscribers_of(k2)
            &&& after.jvm_constructors.depth() > 0 ==> after.jvm_constructors.pending() == before.jvm_constructors.pending() && after.jvm_constructors.fired() == before.jvm_constructors.fired()
            &&& after.jvm_constructors.depth() == 0 ==> after.jvm_constructors.fired() == before.jvm_constructors.fired() + before.jvm_constructors.fire_list_of(before.jvm_constructors.pending())
        },
        RegistryName::JvmPackages => {
            &&& after == Registries { jvm_packages: after.jvm_packages, ..before }
            &&& before.jvm_packages.depth() > 0
            &&& after.jvm_packages.depth() == before.jvm_packages.depth() - 1
            &&& forall|k2: Seq<char>| #[trigger] after.jvm_packages.providers_of(k2) == before.jvm_packages.providers_of(k2)
            &&& forall|k2: Seq<char>| #[trigger] after.jvm_packages.subscribers_of(k2) == before.jvm_packages.subscribers_of(k2)
            &&& after.jvm_packages.depth() > 0 ==> after.jvm_packages.pending() == before.jvm_packages.pending() && after.jvm_packages.fired() == before.jvm_packages.fired()
            &&& after.jvm_packages.depth() == 0 ==> after.jvm_packages.fired() == before.jvm_packages.fired() + before.jvm_packages.fire_list_of(before.jvm_packages.pending())
        },
        RegistryName::JavaSymbols => {
            &&& after == Registries { java_symbols: after.java_symbols, ..before }
            &&& before.java_symbols.depth() > 0
            &&& after.java_symbols.depth() == before.java_symbols.depth() - 1
            &&& forall|k2: Seq<char>| #[trigger] after.java_symbols.providers_of(k2) == before.java_symbols.providers_of(k2)
            &&& forall|k2: Seq<char>| #[trigger] after.java_symbols.subscribers_of(k2) == before.java_symbols.subscribers_of(k2)
            &&& after.java_symbols.depth() > 0 ==> after.java_symbols.pending() == before.java_symbols.pending() && after.java_symbols.fired() == before.java_symbols.fired()
            &&& after.java_symbols.depth() == 0 ==> after.java_symbols.fired() == before.java_symbols.fired() + before.java_symbols.fire_list_of(before.java_symbols.pending())
        },
    }
}

/// What closing a batch on registry `n` does, slot by slot: no provider
/// or subscription moves, nothing fired is lost, and a subscriber of a
/// pending key has its change on the way (still pending, or fired).
pub proof fn lemma_committed_at(before: Registries, after: Registries, n: RegistryName)
    requires
        committed_at(before, after, n),
    ensures
        forall|s2: KeySlot| #[trigger] slot_providers(after, s2) == slot_providers(before, s2),
        forall|s2: KeySlot| #[trigger] slot_subscribers(after, s2) == slot_subscribers(before, s2),
        forall|m: RegistryName, x: SubscriptionId|
            #[trigger] fired_of(before, m).contains(x) ==> fired_of(after, m).contains(x),
        forall|s2: KeySlot| slot_registry(s2) != n ==> #[trigger] slot_pending(after, s2) == slot_pending(before, s2),
        forall|s2: KeySlot, x: SubscriptionId|
            slot_registry(s2) == n && #[trigger] slot_pending(before, s2) && #[trigger] slot_subscribers(before, s2).contains(x)
                ==> fired_of(after, n).contains(x) || slot_pending(after, s2),
{
    if n == RegistryName::JvmTypes {
        let b = before.jvm_types;
        let a = after.jvm_types;
        assert forall|x: SubscriptionId| #[trigger] b.fired().contains(x) implies a.fired().contains(x) by {
            let j = choose|j: int| 0 <= j < b.fired().len() && b.fired()[j] == x;
            assert(a.fired()[j] == x);
        }
        assert forall|k: Seq<char>, x: SubscriptionId|
            #[trigger] b.pending().contains(k) && #[trigger] b.subscribers_of(k).contains(x) && a.depth() == 0
                implies a.fired().contains(x) by {
            b.lemma_fire_list_reaches(b.pending(), k, x);
            let f = b.fire_list_of(b.pending());
            let j = choose|j: int| 0 <= j < f.len() && f[j] == x;
            assert(a.fired()[b.fired().len() + j] == x);
        }
    }
    if n == RegistryName::JvmMethods {
        let b = before.jvm_methods;
        let a = after.jvm_methods;
        assert forall|x: SubscriptionId| #[trigger] b.fired().contains(x) implies a.fired().contains(x) by {
            let j = choose|j: int| 0 <= j < b.fired().len() && b.fired()[j] == x;
            assert(a.fired()[j] == x);
        }
        assert forall|k: (Seq<char>, Seq<char>, Seq<TypeModel>), x: SubscriptionId|
            #[trigger] b.pending().contains(k) && #[trigger] b.subscribers_of(k).contains(x) && a.depth() == 0
                implies a.fired().contains(x) by {
            b.lemma_fire_list_reaches(b.pending(), k, x);
            let f = b.fire_list_of(b.pending());
            let j = choose|j: int| 0 <= j < f.len() && f[j] == x;
            assert(a.fired()[b.fired().len() + j] == x);
        }
    }
    if n == RegistryName::JvmFields {
        let b = before.jvm_fields;
        let a = after.jvm_fields;
        assert forall|x: SubscriptionId| #[trigger] b.fired().contains(x) implies a.fired().contains(x) by {
            let j = choose|j: int| 0 <= j < b.fired().len() && b.fired()[j] == x;
            assert(a.fired()[j] == x);
        }
        assert forall|k: (Seq<char>, Seq<char>), x: SubscriptionId|
            #[trigger] b.pending().contains(k) && #[trigger] b.subscribers_of(k).contains(x) && a.depth() == 0
                implies a.fired().contains(x) by {
            b.lemma_fire_list_reaches(b.pending(), k, x);
            let f = b.fire_list_of(b.pending());
            let j = choose|j: int| 0 <= j < f.len() && f[j] == x;
            assert(a.fired()[b.fired().len() + j] == x);
        }
    }
    if n == RegistryName::JvmConstructors {
        let b = before.jvm_constructors;
        let a = after.jvm_constructors;
        assert forall|x: SubscriptionId| #[trigger] b.fired().contains(x) implies a.fired().contains(x) by {
            let j = choose|j: int| 0 <= j < b.fired().len() && b.fired()[j] == x;
            assert(a.fired()[j] == x);
        }
        assert forall|k: (Seq<char>, Seq<TypeModel>), x: SubscriptionId|
            #[trigger] b.pending().contains(k) && #[trigger] b.subscribers_of(k).contains(x) && a.depth() == 0
                implies a.fired().contains(x) by {
            b.lemma_fire_list_reaches(b.pending(), k, x);
            let f = b.fire_list_of(b.pending());
            let j = choose|j: int| 0 <= j < f.len() && f[j] == x;
            assert(a.fired()[b.fired().len() + j] == x);
        }
    }
    if n == RegistryName::JvmPackages {
        let b = before.jvm_packages;
        let a = after.jvm_packages;
        assert forall|x: SubscriptionId| #[trigger] b.fired().contains(x) implies a.fired().contains(x) by {
            let j = choose|j: int| 0 <= j < b.fired().len() && b.fired()[j] == x;
            assert(a.fired()[j] == x);
        }
        assert forall|k: Seq<char>, x: SubscriptionId|
            #[trigger] b.pending().contains(k) && #[trigger] b.subscribers_of(k).contains(x) && a.depth() == 0
                implies a.fired().contains(x) by {
            b.lemma_fire_list_reaches(b.pending(), k, x);
            let f = b.fire_list_of(b.pending());
            let j = choose|j: int| 0 <= j < f.len() && f[j] == x;
            assert(a.fired()[b.fired().len() + j] == x);
        }
    }
    if n == RegistryName::JavaSymbols {
        let b = before.java_symbols;
        let a = after.java_symbols;
        assert forall|x: SubscriptionId| #[trigger] b.fired().contains(x) implies a.fired().contains(x) by {
            let j = choose|j: int| 0 <= j < b.fired().len() && b.fired()[j] == x;
            assert(a.fired()[j] == x);
        }
        assert forall|k: Seq<char>, x: SubscriptionId|
            #[trigger] b.pending().contains(k) && #[trigger] b.subscribers_of(k).contains(x) && a.depth() == 0
                implies a.fired().contains(x) by {
            b.lemma_fire_list_reaches(b.pending(), k, x);
            let f = b.fire_list_of(b.pending());
            let j = choose|j: int| 0 <= j < f.len() && f[j] == x;
            assert(a.fired()[b.fired().len() + j] == x);
        }
    }
}

/// `states` runs through one provider change on each of `slots`, in
/// order: each state is the one before it with the next change (see
/// [`changed_at`]).
pub open spec fn changed_through(states: Seq<Registries>, slots: Seq<KeySlot>) -> bool {
    &&& states.len() == slots.len() + 1
    &&& forall|i: int| 0 <= i < slots.len() ==> changed_at(states[i], states[i + 1], #[trigger] slots[i])
}

/// `after` is `before` with one provider change on each of `slots`, in
/// order.
pub open spec fn changed_along(before: Registries, after: Registries, slots: Seq<KeySlot>) -> bool {
    exists|states: Seq<Registries>|
        #[trigger] changed_through(states, slots) && states[0] == before && states.last() == after
}

/// What one provider change on slot `s` does, slot by slot: no other
/// slot's providers move, the subscriptions stay, nothing fired or
/// pending is lost, and every subscriber of `s` has the change on its way
/// (fired in `s`'s registry, or `s` pending there).
pub proof fn lemma_changed_at(before: Registries, after: Registries, s: KeySlot)
    requires
        changed_at(before, after, s),
    ensures
        forall|s2: KeySlot| s2 != s ==> #[trigger] slot_providers(after, s2) == slot_providers(before, s2),
        forall|s2: KeySlot| #[trigger] slot_subscribers(after, s2) == slot_subscribers(before, s2),
        forall|n: RegistryName, x: SubscriptionId|
            #[trigger] fired_of(before, n).contains(x) ==> fired_of(after, n).contains(x),
        forall|s2: KeySlot| #[trigger] slot_pending(before, s2) ==> slot_pending(after, s2),
        forall|x: SubscriptionId|
            #[trigger] slot_subscribers(before, s).contains(x) ==> fired_of(after, slot_registry(s)).contains(x)
                || slot_pending(after, s),
{
    match s {
        KeySlot::JvmType(k) => {
            before.jvm_types.lemma_notified_owes(&after.jvm_types, k);
        },
        KeySlot::JvmMethod(k) => {
            before.jvm_methods.lemma_notified_owes(&after.jvm_methods, k);
        },
        KeySlot::JvmField(k) => {
            before.jvm_fields.lemma_notified_owes(&after.jvm_fields, k);
        },
        KeySlot::JvmConstructor(k) => {
            before.jvm_constructors.lemma_notified_owes(&after.jvm_constructors, k);
        },
        KeySlot::JvmPackage(k) => {
            before.jvm_packages.lemma_notified_owes(&after.jvm_packages, k);
        },
        KeySlot::JavaSymbol(k) => {
            before.java_symbols.lemma_notified_owes(&after.java_symbols, k);
        },
    }
}

/// Every registry of the bag lists the same providers in `a` and `b`.
pub open spec fn same_providers(a: Registries, b: Registries) -> bool {
    forall|s: KeySlot| #[trigger] slot_providers(a, s) == slot_providers(b, s)
}

impl View for RegistryQuery {
    type V = KeySlot;

    open spec fn view(&self) -> KeySlot {
        match self {
            RegistryQuery::JvmType(k) => KeySlot::JvmType(k@),
            RegistryQuery::JvmMethod(k) => KeySlot::JvmMethod(k@),
            RegistryQuery::JvmField(k) => KeySlot::JvmField(k@),
            RegistryQuery::JvmConstructor(k) => KeySlot::JvmConstructor(k@),
            RegistryQuery::JvmPackage(k) => KeySlot::JvmPackage(k@),
            RegistryQuery::JavaSymbol(k) => KeySlot::JavaSymbol(k@),
        }
    }
}

/// An active subscription on one registry of the bag.
pub enum RegistrySubscription {
    JvmType(Subscription<JvmTypeKey>),
    JvmMethod(Subscription<JvmMethodKey>),
    JvmField(Subscription<JvmFieldKey>),
    JvmConstructor(Subscription<JvmConstructorKey>),
    JvmPackage(Subscription<PackageKey>),
    JavaSymbol(Subscription<JavaSymbolKey>),
}

impl RegistrySubscription {
    /// The slot watched.
    pub open spec fn slot(&self) -> KeySlot {
        match self {
            RegistrySubscription::JvmType(s) => KeySlot::JvmType(s.key_view()),
            RegistrySubscription::JvmMethod(s) => KeySlot::JvmMethod(s.key_view()),
            RegistrySubscription::JvmField(s) => KeySlot::JvmField(s.key_view()),
            RegistrySubscription::JvmConstructor(s) => KeySlot::JvmConstructor(s.key_view()),
            RegistrySubscription::JvmPackage(s) => KeySlot::JvmPackage(s.key_view()),
            RegistrySubscription::JavaSymbol(s) => KeySlot::JavaSymbol(s.key_view()),
        }
    }

    pub open spec fn id_spec(&self) -> SubscriptionId {
        match self {
            RegistrySubscription::JvmType(s) => s.id_spec(),
            RegistrySubscription::JvmMethod(s) => s.id_spec(),
            RegistrySubscription::JvmField(s) => s.id_spec(),
            RegistrySubscription::JvmConstructor(s) => s.id_spec(),
            RegistrySubscription::JvmPackage(s) => s.id_spec(),
            RegistrySubscription::JavaSymbol(s) => s.id_spec(),
        }
    }

    /// True iff this is subscription `id` of registry `source`.
    pub fn is(&self, source: RegistryName, id: SubscriptionId) -> (b: bool)
        ensures
            b == (slot_registry(self.slot()) == source && self.id_spec() == id),
    {
        match self {
            RegistrySubscription::JvmType(s) => source == RegistryName::JvmTypes && s.id() == id,
            RegistrySubscription::JvmMethod(s) => source == RegistryName::JvmMethods && s.id() == id,
            RegistrySubscription::JvmField(s) => source == RegistryName::JvmFields && s.id() == id,
            RegistrySubscription::JvmConstructor(s) => source == RegistryName::JvmConstructors
                && s.id() == id,
            RegistrySubscription::JvmPackage(s) => source == RegistryName::JvmPackages && s.id()
                == id,
            RegistrySubscription::JavaSymbol(s) => source == RegistryName::JavaSymbols && s.id()
                == id,
        }
    }

    /// End the subscription: its id leaves the subscriber list of its
    /// key, and nothing else changes.
    pub fn release(self, registries: &mut Registries)
        requires
            old(registries).wf(),
        ensures
            final(registries).wf(),
            same_providers(*old(registries), *final(registries)),
            same_next_ids(*old(registries), *final(registries)),
            forall|s: KeySlot|
                #![trigger slot_subscribers(*final(registries), s)]
                slot_subscribers(*final(registries), s) == if s == self.slot() {
                    slot_subscribers(*old(registries), s).filter(other_than(self.id_spec()))
                } else {
                    slot_subscribers(*old(registries), s)
                },
    {
        match self {
            RegistrySubscription::JvmType(s) => registries.jvm_types.unsubscribe(s),
            RegistrySubscription::JvmMethod(s) => registries.jvm_methods.unsubscribe(s),
            RegistrySubscription::JvmField(s) => registries.jvm_fields.unsubscribe(s),
            RegistrySubscription::JvmConstructor(s) => registries.jvm_constructors.unsubscribe(s),
            RegistrySubscription::JvmPackage(s) => registries.jvm_packages.unsubscribe(s),
            RegistrySubscription::JavaSymbol(s) => registries.java_symbols.unsubscribe(s),
        }
    }
}

impl RegistryQuery {
    /// The providers this query finds in `beans`' registries.
    pub fn providers(&self, beans: &Beans) -> (r: Vec<NodeId>)
        requires
            beans.registries.wf(),
        ensures
            r@ == slot_providers(beans.registries, self@),
    {
        match self {
            RegistryQuery::JvmType(k) => beans.registries.jvm_types.providers(k),
            RegistryQuery::JvmMethod(k) => beans.registries.jvm_methods.providers(k),
            RegistryQuery::JvmField(k) => beans.registries.jvm_fields.providers(k),
            RegistryQuery::JvmConstructor(k) => beans.registries.jvm_constructors.providers(k),
            RegistryQuery::JvmPackage(k) => beans.registries.jvm_packages.providers(k),
            RegistryQuery::JavaSymbol(k) => beans.registries.java_symbols.providers(k),
        }
    }

    /// Subscribe to this query's key in its registry.
    pub fn subscribe(&self, beans: &mut Beans) -> (s: RegistrySubscription)
        requires
            old(beans).registries.wf(),
            ids_left(old(beans).registries, 1),
        ensures
            final(beans).registries.wf(),
            final(beans).graph == old(beans).graph,
            s.slot() == self@,
            same_providers(old(beans).registries, final(beans).registries),
            forall|n: RegistryName|
                #[trigger] next_subscription_of(final(beans).registries, n) == next_subscription_of(
                    old(beans).registries,
                    n,
                ) + if n == slot_registry(self@) {
                    1nat
                } else {
                    0nat
                },
            forall|s2: KeySlot|
                #![trigger slot_subscribers(final(beans).registries, s2)]
                slot_subscribers(final(beans).registries, s2) == if s2 == self@ {
                    slot_subscribers(old(beans).registries, s2).push(s.id_spec())
                } else {
                    slot_subscribers(old(beans).registries, s2)
                },
    {
        proof {
            assert(next_subscription_of(beans.registries, slot_registry(self@)) + 1 < u64::MAX);
        }
        match self {
            RegistryQuery::JvmType(k) => {
                let q = beans.registries.jvm_types.query(k.clone_key());
                RegistrySubscription::JvmType(q.subscribe(&mut beans.registries.jvm_types))
            },
            RegistryQuery::JvmMethod(k) => {
                let q = beans.registries.jvm_methods.query(k.clone_key());
                RegistrySubscription::JvmMethod(q.subscribe(&mut beans.registries.jvm_methods))
            },
            RegistryQuery::JvmField(k) => {
                let q = beans.registries.jvm_fields.query(k.clone_key());
                RegistrySubscription::JvmField(q.subscribe(&mut beans.registries.jvm_fields))
            },
            RegistryQuery::JvmConstructor(k) => {
                let q = beans.registries.jvm_constructors.query(k.clone_key());
                RegistrySubscription::JvmConstructor(
                    q.subscribe(&mut beans.registries.jvm_constructors),
                )
            },
            RegistryQuery::JvmPackage(k) => {
                let q = beans.registries.jvm_packages.query(k.clone_key());
                RegistrySubscription::JvmPackage(q.subscribe(&mut beans.registries.jvm_packages))
            },
            RegistryQuery::JavaSymbol(k) => {
                let q = beans.registries.java_symbols.query(k.clone_key());
                RegistrySubscription::JavaSymbol(q.subscribe(&mut beans.registries.java_symbols))
            },
        }
    }
}

use crate::registry::RegistryKey;

impl crate::graph::dynamic_link::RegistryQuery for RegistryQuery {
    type Ctx = Registries;

    open spec fn ctx_ready(ctx: &Registries) -> bool {
        ctx.wf()
    }

    open spec fn resolves(&self, ctx: &Registries) -> Seq<NodeId> {
        slot_providers(*ctx, self@)
    }

    fn resolve(&self, ctx: &Registries) -> (r: Vec<NodeId>) {
        match self {
            RegistryQuery::JvmType(k) => ctx.jvm_types.providers(k),
            RegistryQuery::JvmMethod(k) => ctx.jvm_methods.providers(k),
            RegistryQuery::JvmField(k) => ctx.jvm_fields.providers(k),
            RegistryQuery::JvmConstructor(k) => ctx.jvm_constructors.providers(k),
            RegistryQuery::JvmPackage(k) => ctx.jvm_packages.providers(k),
            RegistryQuery::JavaSymbol(k) => ctx.java_symbols.providers(k),
        }
    }
}

/// Consumer-side handle of [`MultiQuery::subscribe`].
pub struct MultiSubscriptionHandle {
    id: u64,
}

impl MultiSubscriptionHandle {
    pub closed spec fn id_spec(&self) -> u64 {
        self.id
    }

    pub fn id(&self) -> (r: u64)
        ensures
            r == self.id_spec(),
    {
        self.id
    }
}

/// The first non-empty provider list among the slots, in priority order.
pub open spec fn first_hit_of(r: Registries, qs: Seq<KeySlot>) -> Seq<NodeId>
    decreases qs.len(),
{
    if qs.len() == 0 {
        Seq::empty()
    } else if slot_providers(r, qs[0]).len() > 0 {
        slot_providers(r, qs[0])
    } else {
        first_hit_of(r, qs.subrange(1, qs.len() as int))
    }
}

/// Every provider of every slot, slot by slot.
pub open spec fn all_of(r: Registries, qs: Seq<KeySlot>) -> Seq<NodeId>
    decreases qs.len(),
{
    if qs.len() == 0 {
        Seq::empty()
    } else {
        all_of(r, qs.drop_last()) + slot_providers(r, qs.last())
    }
}

/// The first hit among `qs` does not move when only a slot outside `qs`
/// changed.
pub proof fn lemma_first_hit_unmoved(before: Registries, after: Registries, qs: Seq<KeySlot>, s: KeySlot)
    requires
        !qs.contains(s),
        forall|s2: KeySlot| s2 != s ==> #[trigger] slot_providers(after, s2) == slot_providers(before, s2),
    ensures
        first_hit_of(after, qs) == first_hit_of(before, qs),
    decreases qs.len(),
{
    if qs.len() > 0 {
        let rest = qs.subrange(1, qs.len() as int);
        assert(!rest.contains(s)) by {
            if rest.contains(s) {
                let j = choose|j: int| 0 <= j < rest.len() && rest[j] == s;
                assert(qs[j + 1] == s);
            }
        }
        assert(qs[0] != s);
        lemma_first_hit_unmoved(before, after, rest, s);
    }
}

/// The first hit among `qs` does not move when no provider moved.
pub proof fn lemma_first_hit_unmoved_all(before: Registries, after: Registries, qs: Seq<KeySlot>)
    requires
        forall|s2: KeySlot| #[trigger] slot_providers(after, s2) == slot_providers(before, s2),
    ensures
        first_hit_of(after, qs) == first_hit_of(before, qs),
    decreases qs.len(),
{
    if qs.len() > 0 {
        assert(slot_providers(after, qs[0]) == slot_providers(before, qs[0]));
        lemma_first_hit_unmoved_all(before, after, qs.subrange(1, qs.len() as int));
    }
}

/// The slots of a list of queries.
pub open spec fn slots_of(qs: Seq<RegistryQuery>) -> Seq<KeySlot> {
    qs.map_values(|q: RegistryQuery| q@)
}

/// A stored priority list of queries with a cached first-match answer.
pub struct MultiQuery {
    queries: Vec<RegistryQuery>,
    cached: Option<Vec<NodeId>>,
    subs: Vec<RegistrySubscription>,
    watchers: Vec<u64>,
    next_watch: u64,
}

impl MultiQuery {
    /// The queries, in priority order.
    pub closed spec fn slots(&self) -> Seq<KeySlot> {
        slots_of(self.queries@)
    }

    /// The cached answer while it is fresh.
    pub closed spec fn cached_view(&self) -> Option<Seq<NodeId>> {
        match self.cached {
            Some(v) => Some(v@),
            None => None,
        }
    }

    /// The live consumer watches.
    pub closed spec fn watchers(&self) -> Seq<u64> {
        self.watchers@
    }

    pub closed spec fn next_watch(&self) -> nat {
        self.next_watch as nat
    }

    /// The underlying subscriptions, one per query, in query order.
    pub closed spec fn subscriptions(&self) -> Seq<RegistrySubscription> {
        self.subs@
    }

    /// Subscribe to every query's key; the cache starts stale.
    pub fn new(beans: &mut Beans, queries: Vec<RegistryQuery>) -> (mq: MultiQuery)
        requires
            old(beans).registries.wf(),
            ids_left(old(beans).registries, queries@.len() as nat),
        ensures
            final(beans).registries.wf(),
            final(beans).graph == old(beans).graph,
            same_providers(old(beans).registries, final(beans).registries),
            mq.slots() == slots_of(queries@),
            mq.subscriptions().len() == queries@.len(),
            forall|i: int|
                0 <= i < queries@.len() ==> (#[trigger] mq.subscriptions()[i]).slot() == queries@[i]@,
            mq.cached_view() is None,
            mq.watchers() == Seq::<u64>::empty(),
            mq.in_step(final(beans).registries),
            mq.live(final(beans).registries),
    {
        let mut subs: Vec<RegistrySubscription> = Vec::new();
        let mut i: usize = 0;
        let ghost start = beans.registries;
        while i < queries.len()
            invariant
                i <= queries@.len(),
                beans.registries.wf(),
                beans.graph == old(beans).graph,
                same_providers(start, beans.registries),
                start == old(beans).registries,
                ids_left(beans.registries, (queries@.len() - i) as nat),
                subs@.len() == i,
                forall|j: int| 0 <= j < i ==> (#[trigger] subs@[j]).slot() == queries@[j]@,
                forall|j: int|
                    0 <= j < i ==> slot_subscribers(beans.registries, (#[trigger] subs@[j]).slot()).contains(
                        subs@[j].id_spec(),
                    ),
            decreases queries.len() - i,
        {
            let ghost before = beans.registries;
            proof {
                assert forall|n: RegistryName| #[trigger] next_subscription_of(before, n) + 1 < u64::MAX by {
                    assert(next_subscription_of(before, n) + (queries@.len() - i) < u64::MAX);
                }
            }
            let s = queries[i].subscribe(beans);
            subs.push(s);
            proof {
                assert forall|j: int|
                    0 <= j < i + 1 implies slot_subscribers(beans.registries, (#[trigger] subs@[j]).slot()).contains(
                        subs@[j].id_spec(),
                    ) by {
                    let sl = subs@[j].slot();
                    if j < i {
                        let l = slot_subscribers(before, sl);
                        let m = choose|m: int| 0 <= m < l.len() && l[m] == subs@[j].id_spec();
                        if sl == s.slot() {
                            assert(slot_subscribers(beans.registries, sl)[m] == subs@[j].id_spec());
                        }
                    } else {
                        let l = slot_subscribers(beans.registries, sl);
                        assert(l[l.len() - 1] == s.id_spec());
                    }
                }
                assert forall|n: RegistryName|
                    #[trigger] next_subscription_of(beans.registries, n) + (queries@.len() - (i + 1))
                        < u64::MAX by {
                    assert(next_subscription_of(before, n) + (queries@.len() - i) < u64::MAX);
                }
                assert forall|sl: KeySlot| #[trigger] slot_providers(start, sl) == slot_providers(
                    beans.registries,
                    sl,
                ) by {
                    assert(slot_providers(start, sl) == slot_providers(before, sl));
                }
            }
            i += 1;
        }
        let mq = MultiQuery { queries, cached: None, subs, watchers: Vec::new(), next_watch: 0 };
        proof {
            assert forall|j: int| 0 <= j < mq.slots().len() implies (#[trigger] mq.subscriptions()[j]).slot()
                == mq.slots()[j] && slot_subscribers(final(beans).registries, mq.slots()[j]).contains(
                mq.subscriptions()[j].id_spec(),
            ) by {
                assert(mq.slots()[j] == mq.queries@[j]@);
            }
        }
        mq
    }

    /// The cached answer while it is fresh; otherwise the providers of the
    /// first query that has any (none when no query does), which then
    /// become the cached answer.
    pub fn query(&mut self, beans: &Beans) -> (r: QueryResult)
        requires
            beans.registries.wf(),
        ensures
            r.canonical(),
            r@ == old(self).answer(beans.registries),
            old(self).in_step(beans.registries) ==> final(self).in_step(beans.registries),
            old(self).live(beans.registries) ==> final(self).live(beans.registries),
            match old(self).cached_view() {
                Some(c) => r@ == c && final(self).cached_view() == old(self).cached_view(),
                None => r@ == first_hit_of(beans.registries, old(self).slots())
                    && final(self).cached_view() == Some(r@),
            },
            final(self).slots() == old(self).slots(),
            final(self).subscriptions() == old(self).subscriptions(),
            final(self).watchers() == old(self).watchers(),
            final(self).next_watch() == old(self).next_watch(),
    {
        match &self.cached {
            Some(v) => {
                let c = copy_ids(v);
                proof {
                    lemma_result_of(c);
                }
                return QueryResult::from(c);
            },
            None => {},
        }
        let ghost qs = self.slots();
        let mut i: usize = 0;
        proof {
            assert(qs.subrange(0, qs.len() as int) =~= qs);
        }
        while i < self.queries.len()
            invariant
                beans.registries.wf(),
                self.queries == old(self).queries,
                self.subs == old(self).subs,
                self.watchers == old(self).watchers,
                self.next_watch == old(self).next_watch,
                self.cached is None,
                old(self).cached is None,
                qs == slots_of(self.queries@),
                qs.len() == self.queries@.len(),
                i <= self.queries@.len(),
                first_hit_of(beans.registries, qs) == first_hit_of(
                    beans.registries,
                    qs.subrange(i as int, qs.len() as int),
                ),
            decreases self.queries.len() - i,
        {
            let ps = self.queries[i].providers(beans);
            let ghost rest = qs.subrange(i as int, qs.len() as int);
            proof {
                assert(rest[0] == self.queries@[i as int]@);
                assert(rest.subrange(1, rest.len() as int) =~= qs.subrange(i + 1, qs.len() as int));
            }
            if ps.len() > 0 {
                let c = copy_ids(&ps);
                self.cached = Some(c);
                proof {
                    lemma_result_of(ps);
                    assert(first_hit_of(beans.registries, rest) == ps@);
                }
                return QueryResult::from(ps);
            }
            i += 1;
        }
        proof {
            assert(qs.subrange(i as int, qs.len() as int) =~= Seq::<KeySlot>::empty());
        }
        self.cached = Some(Vec::new());
        let none: Vec<NodeId> = Vec::new();
        proof {
            lemma_result_of(none);
        }
        QueryResult::from(none)
    }

    /// Every provider of every query, query by query, with no
    /// de-duplication.
    pub fn providers_all(&self, beans: &Beans) -> (r: Vec<NodeId>)
        requires
            beans.registries.wf(),
        ensures
            r@ == all_of(beans.registries, self.slots()),
    {
        let ghost qs = self.slots();
        let mut out: Vec<NodeId> = Vec::new();
        let mut i: usize = 0;
        while i < self.queries.len()
            invariant
                beans.registries.wf(),
                qs == slots_of(self.queries@),
                qs.len() == self.queries@.len(),
                i <= self.queries@.len(),
                out@ == all_of(beans.registries, qs.take(i as int)),
            decreases self.queries.len() - i,
        {
            let mut ps = self.queries[i].providers(beans);
            out.append(&mut ps);
            proof {
                assert(qs.take(i + 1).drop_last() =~= qs.take(i as int));
                assert(qs.take(i + 1).last() == self.queries@[i as int]@);
            }
            i += 1;
        }
        proof {
            assert(qs.take(qs.len() as int) =~= qs);
        }
        out
    }

    /// Register a consumer watch, told of every later invalidation until
    /// handed back to [`Self::unwatch`].
    pub fn subscribe(&mut self) -> (h: MultiSubscriptionHandle)
        requires
            old(self).next_watch() < u64::MAX,
        ensures
            h.id_spec() == old(self).next_watch(),
            final(self).next_watch() == old(self).next_watch() + 1,
            final(self).watchers() == old(self).watchers().push(h.id_spec()),
            final(self).cached_view() == old(self).cached_view(),
            final(self).slots() == old(self).slots(),
            final(self).subscriptions() == old(self).subscriptions(),
    {
        let id = self.next_watch;
        self.next_watch = self.next_watch + 1;
        self.watchers.push(id);
        MultiSubscriptionHandle { id }
    }

    /// Stop notifying watch `h`.
    pub fn unwatch(&mut self, h: MultiSubscriptionHandle)
        ensures
            final(self).watchers() == old(self).watchers().filter(
                crate::registry::buckets::other_than(h.id_spec()),
            ),
            final(self).next_watch() == old(self).next_watch(),
            final(self).cached_view() == old(self).cached_view(),
            final(self).slots() == old(self).slots(),
            final(self).subscriptions() == old(self).subscriptions(),
    {
        let mut kept: Vec<u64> = Vec::new();
        let mut i: usize = 0;
        while i < self.watchers.len()
            invariant
                i <= self.watchers.len(),
                kept@ == self.watchers@.take(i as int).filter(
                    crate::registry::buckets::other_than(h.id),
                ),
            decreases self.watchers.len() - i,
        {
            proof {
                assert(self.watchers@.take(i + 1).drop_last() =~= self.watchers@.take(i as int));
                reveal(Seq::filter);
            }
            if self.watchers[i] != h.id {
                kept.push(self.watchers[i]);
            }
            i += 1;
        }
        proof {
            assert(self.watchers@.take(self.watchers@.len() as int) =~= self.watchers@);
        }
        self.watchers = kept;
    }

    /// What a query against `r` answers: the cached answer while it is
    /// fresh, otherwise the providers of the first query that has any.
    pub open spec fn answer(&self, r: Registries) -> Seq<NodeId> {
        match self.cached_view() {
            Some(c) => c,
            None => first_hit_of(r, self.slots()),
        }
    }

    /// `after` is `self` once a change has (`hit`) or has not reached it:
    /// on a hit the cache is stale and every live watch is told, in
    /// subscription order; otherwise nothing changes and nobody is told.
    pub open spec fn delivered(&self, after: &Self, told: Seq<u64>, hit: bool) -> bool {
        &&& hit ==> after.cached_view() is None && told == self.watchers()
        &&& !hit ==> after.cached_view() == self.cached_view() && told.len() == 0
        &&& after.watchers() == self.watchers()
        &&& after.next_watch() == self.next_watch()
        &&& after.slots() == self.slots()
        &&& after.subscriptions() == self.subscriptions()
    }

    /// What the registries answer now: the providers of the first query
    /// that has any.
    pub open spec fn current(&self, r: Registries) -> Seq<NodeId> {
        first_hit_of(r, self.slots())
    }

    /// A change to one of the consulted keys is on its way to this query:
    /// fired and not yet delivered, or waiting in an open batch.
    pub open spec fn owed(&self, r: Registries) -> bool {
        exists|i: int|
            0 <= i < self.subscriptions().len() && (fired_of(
                r,
                slot_registry((#[trigger] self.subscriptions()[i]).slot()),
            ).contains(self.subscriptions()[i].id_spec()) || slot_pending(r, self.subscriptions()[i].slot()))
    }

    /// One live subscription per query, on that query's key.
    pub open spec fn live(&self, r: Registries) -> bool {
        &&& self.subscriptions().len() == self.slots().len()
        &&& forall|i: int|
            0 <= i < self.slots().len() ==> (#[trigger] self.subscriptions()[i]).slot() == self.slots()[i]
                && slot_subscribers(r, self.slots()[i]).contains(self.subscriptions()[i].id_spec())
    }

    /// The cache follows the registries: a cached answer is what they
    /// answer now, unless a change is on its way to this query.
    pub open spec fn in_step(&self, r: Registries) -> bool {
        match self.cached_view() {
            Some(c) => c == self.current(r) || self.owed(r),
            None => true,
        }
    }

    /// When the cache follows the registries and no change is on its way
    /// (no batch holds one, every fired subscription has been delivered),
    /// a query answers what the registries answer now.
    pub proof fn lemma_in_step_answers_current(&self, r: Registries)
        requires
            self.in_step(r),
            !self.owed(r),
        ensures
            self.answer(r) == self.current(r),
    {
    }

    /// A provider change on slot `s` (what [`Registry::register`] or
    /// [`Registry::unregister`] does to one registry of the bag) keeps a
    /// live query in step: a change to one of its keys is owed to it, any
    /// other change leaves its answer alone.
    pub proof fn lemma_change_keeps_step(&self, before: Registries, after: Registries, s: KeySlot)
        requires
            self.in_step(before),
            self.live(before),
            changed_at(before, after, s),
        ensures
            self.in_step(after),
            self.live(after),
    {
        lemma_changed_at(before, after, s);
        if self.owed(before) {
            let i = choose|i: int|
                0 <= i < self.subscriptions().len() && (fired_of(
                    before,
                    slot_registry((#[trigger] self.subscriptions()[i]).slot()),
                ).contains(self.subscriptions()[i].id_spec()) || slot_pending(
                    before,
                    self.subscriptions()[i].slot(),
                ));
            assert(fired_of(before, slot_registry(self.subscriptions()[i].slot())).contains(
                self.subscriptions()[i].id_spec(),
            ) ==> fired_of(after, slot_registry(self.subscriptions()[i].slot())).contains(
                self.subscriptions()[i].id_spec(),
            ));
            assert(slot_pending(before, self.subscriptions()[i].slot()) ==> slot_pending(
                after,
                self.subscriptions()[i].slot(),
            ));
            assert(self.owed(after));
        } else if self.slots().contains(s) {
            let i = choose|i: int| 0 <= i < self.slots().len() && self.slots()[i] == s;
            assert(self.subscriptions()[i].slot() == s);
            assert(slot_subscribers(before, s).contains(self.subscriptions()[i].id_spec()));
            assert(self.owed(after));
        } else {
            lemma_first_hit_unmoved(before, after, self.slots(), s);
        }
    }

    /// A run of provider changes (see [`changed_along`]) keeps a live
    /// query in step.
    pub proof fn lemma_changes_keep_step(&self, before: Registries, after: Registries, slots: Seq<KeySlot>)
        requires
            self.in_step(before),
            self.live(before),
            changed_along(before, after, slots),
        ensures
            self.in_step(after),
            self.live(after),
    {
        let states = choose|states: Seq<Registries>|
            #[trigger] changed_through(states, slots) && states[0] == before && states.last() == after;
        self.lemma_run_keeps_step(states, slots, slots.len() as int);
    }

    proof fn lemma_run_keeps_step(&self, states: Seq<Registries>, slots: Seq<KeySlot>, n: int)
        requires
            changed_through(states, slots),
            0 <= n <= slots.len(),
            self.in_step(states[0]),
            self.live(states[0]),
        ensures
            self.in_step(states[n]),
            self.live(states[n]),
        decreases n,
    {
        if n > 0 {
            self.lemma_run_keeps_step(states, slots, n - 1);
            assert(changed_at(states[n - 1], states[n], slots[n - 1]));
            self.lemma_change_keeps_step(states[n - 1], states[n], slots[n - 1]);
        }
    }

    /// Closing a batch on registry `n` keeps a live query in step: a
    /// change that waited for one of its keys is fired to it.
    pub proof fn lemma_commit_keeps_step(&self, before: Registries, after: Registries, n: RegistryName)
        requires
            self.in_step(before),
            self.live(before),
            committed_at(before, after, n),
        ensures
            self.in_step(after),
            self.live(after),
    {
        lemma_committed_at(before, after, n);
        lemma_first_hit_unmoved_all(before, after, self.slots());
        if self.owed(before) {
            let i = choose|i: int|
                0 <= i < self.subscriptions().len() && (fired_of(
                    before,
                    slot_registry((#[trigger] self.subscriptions()[i]).slot()),
                ).contains(self.subscriptions()[i].id_spec()) || slot_pending(
                    before,
                    self.subscriptions()[i].slot(),
                ));
            let sl = self.subscriptions()[i].slot();
            let x = self.subscriptions()[i].id_spec();
            if fired_of(before, slot_registry(sl)).contains(x) {
                assert(fired_of(after, slot_registry(sl)).contains(x));
            } else if slot_registry(sl) != n {
                assert(slot_pending(after, sl));
            } else {
                assert(slot_subscribers(before, sl).contains(x));
                assert(fired_of(after, n).contains(x) || slot_pending(after, sl));
            }
            assert(self.owed(after));
        }
    }

    /// Collecting what registry `n` fired (what [`Registry::take_fired`]
    /// does) and delivering it to this query keeps it in step.
    pub proof fn lemma_delivery_keeps_step(
        &self,
        delivered_to: &Self,
        told: Seq<u64>,
        before: Registries,
        after: Registries,
        n: RegistryName,
    )
        requires
            self.in_step(before),
            self.delivered(delivered_to, told, self.reached_by(n, fired_of(before, n))),
            forall|s2: KeySlot| #[trigger] slot_providers(after, s2) == slot_providers(before, s2),
            forall|s2: KeySlot| #[trigger] slot_pending(after, s2) == slot_pending(before, s2),
            forall|m: RegistryName| m != n ==> #[trigger] fired_of(after, m) == fired_of(before, m),
        ensures
            delivered_to.in_step(after),
    {
        if !self.reached_by(n, fired_of(before, n)) && self.cached_view() is Some {
            lemma_first_hit_unmoved_all(before, after, self.slots());
            if self.owed(before) && self.cached_view()->0 != self.current(before) {
                let i = choose|i: int|
                    0 <= i < self.subscriptions().len() && (fired_of(
                        before,
                        slot_registry((#[trigger] self.subscriptions()[i]).slot()),
                    ).contains(self.subscriptions()[i].id_spec()) || slot_pending(
                        before,
                        self.subscriptions()[i].slot(),
                    ));
                if slot_registry(self.subscriptions()[i].slot()) == n {
                    assert(slot_pending(before, self.subscriptions()[i].slot()));
                }
                assert(self.owed(after));
            }
        }
    }

    /// True iff one of this query's subscriptions lives in registry
    /// `source` under an id among `ids`.
    pub open spec fn reached_by(&self, source: RegistryName, ids: Seq<SubscriptionId>) -> bool {
        exists|i: int|
            0 <= i < self.subscriptions().len() && slot_registry(
                (#[trigger] self.subscriptions()[i]).slot(),
            ) == source && ids.contains(self.subscriptions()[i].id_spec())
    }

    /// Hand this query the subscriptions registry `source` fired: when
    /// one of them is this query's own, the cache goes stale and every
    /// live watch is told (the returned ids, in subscription order);
    /// otherwise nothing changes.
    pub fn deliver(&mut self, source: RegistryName, fired: &Vec<SubscriptionId>) -> (told: Vec<u64>)
        ensures
            old(self).delivered(&*final(self), told@, old(self).reached_by(source, fired@)),
    {
        let mut hit = false;
        let mut j: usize = 0;
        while j < fired.len()
            invariant
                j <= fired@.len(),
                hit ==> self.reached_by(source, fired@),
                !hit ==> forall|t: int, i: int|
                    0 <= t < j && 0 <= i < self.subscriptions().len() && slot_registry(
                        self.subscriptions()[i].slot(),
                    ) == source ==> #[trigger] fired@[t] != #[trigger] self.subscriptions()[i].id_spec(),
            decreases fired.len() - j,
        {
            if !hit && self.handles(source, fired[j]) {
                hit = true;
                proof {
                    let i = choose|i: int|
                        0 <= i < self.subscriptions().len() && slot_registry(
                            (#[trigger] self.subscriptions()[i]).slot(),
                        ) == source && self.subscriptions()[i].id_spec() == fired@[j as int];
                    assert(fired@.contains(self.subscriptions()[i].id_spec()));
                }
            }
            j += 1;
        }
        proof {
            if !hit && self.reached_by(source, fired@) {
                let i = choose|i: int|
                    0 <= i < self.subscriptions().len() && slot_registry(
                        (#[trigger] self.subscriptions()[i]).slot(),
                    ) == source && fired@.contains(self.subscriptions()[i].id_spec());
                let t = choose|t: int| 0 <= t < fired@.len() && fired@[t] == self.subscriptions()[i].id_spec();
                assert(fired@[t] != self.subscriptions()[i].id_spec());
            }
        }
        if hit {
            self.invalidate()
        } else {
            Vec::new()
        }
    }

    /// Register `node` under the key `key` names, in `key`'s registry, and
    /// deliver what that fired to this query. With no batch open on that
    /// registry and one of this query's subscriptions live on the key, the
    /// cache goes stale and every live watch is told, so the next query
    /// answers the registries as they now stand.
    pub fn register_provider(&mut self, beans: &mut Beans, key: RegistryQuery, node: NodeId) -> (r: (Registration, Vec<u64>))
        requires
            old(beans).registries.wf(),
        ensures
            final(beans).registries.wf(),
            final(beans).graph == old(beans).graph,
            r.0.slot() == key@,
            r.0.node() == node,
            forall|s: KeySlot|
                #![trigger slot_providers(final(beans).registries, s)]
                slot_providers(final(beans).registries, s) == if s == key@ {
                    slot_providers(old(beans).registries, s).push(node)
                } else {
                    slot_providers(old(beans).registries, s)
                },
            forall|s: KeySlot|
                #![trigger slot_subscribers(final(beans).registries, s)]
                slot_subscribers(final(beans).registries, s) == slot_subscribers(old(beans).registries, s),
            same_next_ids(old(beans).registries, final(beans).registries),
            old(self).delivered(
                &*final(self),
                r.1@,
                old(self).reached_by(
                    slot_registry(key@),
                    if depth_of(old(beans).registries, slot_registry(key@)) == 0 {
                        slot_subscribers(old(beans).registries, key@)
                    } else {
                        Seq::<SubscriptionId>::empty()
                    },
                ),
            ),
            depth_of(old(beans).registries, slot_registry(key@)) == 0 && (exists|i: int|
                0 <= i < old(self).subscriptions().len() && (#[trigger] old(self).subscriptions()[i]).slot()
                    == key@ && slot_subscribers(old(beans).registries, key@).contains(
                    old(self).subscriptions()[i].id_spec(),
                )) ==> r.1@ == old(self).watchers() && final(self).answer(final(beans).registries)
                == first_hit_of(final(beans).registries, old(self).slots()),
    {
        proof {
            if depth_of(old(beans).registries, slot_registry(key@)) == 0 && (exists|i: int|
                0 <= i < old(self).subscriptions().len() && (#[trigger] old(self).subscriptions()[i]).slot()
                    == key@ && slot_subscribers(old(beans).registries, key@).contains(
                    old(self).subscriptions()[i].id_spec(),
                )) {
                let i = choose|i: int|
                    0 <= i < old(self).subscriptions().len() && (#[trigger] old(self).subscriptions()[i]).slot()
                        == key@ && slot_subscribers(old(beans).registries, key@).contains(
                        old(self).subscriptions()[i].id_spec(),
                    );
                assert(slot_registry(old(self).subscriptions()[i].slot()) == slot_registry(key@));
                assert(old(self).reached_by(slot_registry(key@), slot_subscribers(old(beans).registries, key@)));
            }
        }
        match key {
            RegistryQuery::JvmType(k) => {
                let (h, newly) = beans.registries.jvm_types.register_reporting(k, node);
                let told = self.deliver(RegistryName::JvmTypes, &newly);
                (Registration::JvmType(h), told)
            },
            RegistryQuery::JvmMethod(k) => {
                let (h, newly) = beans.registries.jvm_methods.register_reporting(k, node);
                let told = self.deliver(RegistryName::JvmMethods, &newly);
                (Registration::JvmMethod(h), told)
            },
            RegistryQuery::JvmField(k) => {
                let (h, newly) = beans.registries.jvm_fields.register_reporting(k, node);
                let told = self.deliver(RegistryName::JvmFields, &newly);
                (Registration::JvmField(h), told)
            },
            RegistryQuery::JvmConstructor(k) => {
                let (h, newly) = beans.registries.jvm_constructors.register_reporting(k, node);
                let told = self.deliver(RegistryName::JvmConstructors, &newly);
                (Registration::JvmConstructor(h), told)
            },
            RegistryQuery::JvmPackage(k) => {
                let (h, newly) = beans.registries.jvm_packages.register_reporting(k, node);
                let told = self.deliver(RegistryName::JvmPackages, &newly);
                (Registration::JvmPackage(h), told)
            },
            RegistryQuery::JavaSymbol(k) => {
                let (h, newly) = beans.registries.java_symbols.register_reporting(k, node);
                let told = self.deliver(RegistryName::JavaSymbols, &newly);
                (Registration::JavaSymbol(h), told)
            },
        }
    }

    /// Remove the registration `r` and deliver what that fired to this
    /// query. With no batch open on its registry and one of this query's
    /// subscriptions live on its key, the cache goes stale and every live
    /// watch is told.
    pub fn unregister_provider(&mut self, beans: &mut Beans, r: Registration) -> (told: Vec<u64>)
        requires
            old(beans).registries.wf(),
        ensures
            final(beans).registries.wf(),
            final(beans).graph == old(beans).graph,
            forall|s: KeySlot|
                #![trigger slot_providers(final(beans).registries, s)]
                slot_providers(final(beans).registries, s) == if s == r.slot() {
                    remove_first_of(slot_providers(old(beans).registries, s), r.node())
                } else {
                    slot_providers(old(beans).registries, s)
                },
            forall|s: KeySlot|
                #![trigger slot_subscribers(final(beans).registries, s)]
                slot_subscribers(final(beans).registries, s) == slot_subscribers(old(beans).registries, s),
            same_next_ids(old(beans).registries, final(beans).registries),
            old(self).delivered(
                &*final(self),
                told@,
                old(self).reached_by(
                    slot_registry(r.slot()),
                    if depth_of(old(beans).registries, slot_registry(r.slot())) == 0 {
                        slot_subscribers(old(beans).registries, r.slot())
                    } else {
                        Seq::<SubscriptionId>::empty()
                    },
                ),
            ),
    {
        match r {
            Registration::JvmType(h) => {
                let newly = beans.registries.jvm_types.unregister_reporting(h);
                self.deliver(RegistryName::JvmTypes, &newly)
            },
            Registration::JvmMethod(h) => {
                let newly = beans.registries.jvm_methods.unregister_reporting(h);
                self.deliver(RegistryName::JvmMethods, &newly)
            },
            Registration::JvmField(h) => {
                let newly = beans.registries.jvm_fields.unregister_reporting(h);
                self.deliver(RegistryName::JvmFields, &newly)
            },
            Registration::JvmConstructor(h) => {
                let newly = beans.registries.jvm_constructors.unregister_reporting(h);
                self.deliver(RegistryName::JvmConstructors, &newly)
            },
            Registration::JvmPackage(h) => {
                let newly = beans.registries.jvm_packages.unregister_reporting(h);
                self.deliver(RegistryName::JvmPackages, &newly)
            },
            Registration::JavaSymbol(h) => {
                let newly = beans.registries.java_symbols.unregister_reporting(h);
                self.deliver(RegistryName::JavaSymbols, &newly)
            },
        }
    }

    /// A change reached one of the consulted keys: the cache goes stale,
    /// and every live watch is to be told, in subscription order.
    pub fn invalidate(&mut self) -> (told: Vec<u64>)
        ensures
            told@ == old(self).watchers(),
            final(self).cached_view() is None,
            final(self).watchers() == old(self).watchers(),
            final(self).next_watch() == old(self).next_watch(),
            final(self).slots() == old(self).slots(),
            final(self).subscriptions() == old(self).subscriptions(),
    {
        self.cached = None;
        let mut r: Vec<u64> = Vec::new();
        let mut i: usize = 0;
        while i < self.watchers.len()
            invariant
                i <= self.watchers@.len(),
                r@ == self.watchers@.take(i as int),
            decreases self.watchers.len() - i,
        {
            r.push(self.watchers[i]);
            i += 1;
            proof {
                assert(r@ =~= self.watchers@.take(i as int));
            }
        }
        proof {
            assert(self.watchers@.take(self.watchers@.len() as int) =~= self.watchers@);
        }
        r
    }

    /// True iff subscription `id` of registry `source` is one of this
    /// query's own.
    pub fn handles(&self, source: RegistryName, id: SubscriptionId) -> (b: bool)
        ensures
            b == exists|i: int|
                0 <= i < self.subscriptions().len() && slot_registry(
                    (#[trigger] self.subscriptions()[i]).slot(),
                ) == source && self.subscriptions()[i].id_spec() == id,
    {
        let mut i: usize = 0;
        while i < self.subs.len()
            invariant
                i <= self.subs@.len(),
                forall|j: int|
                    0 <= j < i ==> !(slot_registry((#[trigger] self.subs@[j]).slot()) == source
                        && self.subs@[j].id_spec() == id),
            decreases self.subs.len() - i,
        {
            if self.subs[i].is(source, id) {
                return true;
            }
            i += 1;
        }
        false
    }

    /// End every underlying subscription: each key's subscriber list
    /// loses exactly the ids of this query's subscriptions on it.
    pub fn release(self, beans: &mut Beans)
        requires
            old(beans).registries.wf(),
        ensures
            final(beans).registries.wf(),
            final(beans).graph == old(beans).graph,
            same_providers(old(beans).registries, final(beans).registries),
            same_next_ids(old(beans).registries, final(beans).registries),
            forall|s: KeySlot|
                #![trigger slot_subscribers(final(beans).registries, s)]
                slot_subscribers(final(beans).registries, s) == slot_subscribers(
                    old(beans).registries,
                    s,
                ).filter(kept_after(self.subscriptions(), s)),
    {
        let ghost all = self.subscriptions();
        let mut subs = self.subs;
        let ghost start = beans.registries;
        proof {
            assert forall|s: KeySlot| #[trigger] slot_subscribers(start, s) == slot_subscribers(start, s).filter(kept_after(all.subrange(all.len() as int, all.len() as int), s)) by {
                lemma_filter_all(slot_subscribers(start, s), kept_after(all.subrange(all.len() as int, all.len() as int), s));
            }
        }
        while subs.len() > 0
            invariant
                beans.registries.wf(),
                beans.graph == old(beans).graph,
                start == old(beans).registries,
                subs@.len() <= all.len(),
                subs@ == all.take(subs@.len() as int),
                same_providers(start, beans.registries),
                same_next_ids(start, beans.registries),
                forall|s: KeySlot|
                    #![trigger slot_subscribers(beans.registries, s)]
                    slot_subscribers(beans.registries, s) == slot_subscribers(start, s).filter(
                        kept_after(all.subrange(subs@.len() as int, all.len() as int), s),
                    ),
            decreases subs.len(),
        {
            let ghost n = subs@.len() as int;
            let s = subs.pop().unwrap();
            let ghost before = beans.registries;
            proof {
                assert(s == all[n - 1]);
                assert(subs@ =~= all.take(n - 1));
            }
            s.release(&mut beans.registries);
            proof {
                assert forall|sl: KeySlot| #[trigger] slot_providers(start, sl) == slot_providers(
                    beans.registries,
                    sl,
                ) by {
                    assert(slot_providers(start, sl) == slot_providers(before, sl));
                }
                assert forall|nm: RegistryName| #[trigger] next_subscription_of(start, nm) == next_subscription_of(
                    beans.registries,
                    nm,
                ) by {
                    assert(next_subscription_of(start, nm) == next_subscription_of(before, nm));
                }
                let done = all.subrange(n, all.len() as int);
                let more = all.subrange(n - 1, all.len() as int);
                assert forall|sl: KeySlot| #[trigger] slot_subscribers(beans.registries, sl) == slot_subscribers(start, sl).filter(kept_after(more, sl)) by {
                    let base = slot_subscribers(start, sl);
                    assert(slot_subscribers(before, sl) == base.filter(kept_after(done, sl)));
                    lemma_ends_among_extend(all, n, sl);
                    if sl == s.slot() {
                        lemma_filter_filter(base, kept_after(done, sl), other_than(s.id_spec()));
                        assert((|x: SubscriptionId| kept_after(done, sl)(x) && other_than(s.id_spec())(x)) =~= kept_after(more, sl));
                    } else {
                        assert(kept_after(done, sl) =~= kept_after(more, sl));
                    }
                }
            }
        }
        proof {
            assert(all.subrange(0, all.len() as int) =~= all);
        }
    }
}

/// Taking one more subscription from the end of `all` into the ended run.
proof fn lemma_ends_among_extend(all: Seq<RegistrySubscription>, n: int, s: KeySlot)
    requires
        0 < n <= all.len(),
    ensures
        forall|x: SubscriptionId|
            #[trigger] ends_among(all.subrange(n - 1, all.len() as int), s, x) == ((all[n - 1].slot() == s
                && all[n - 1].id_spec() == x) || ends_among(all.subrange(n, all.len() as int), s, x)),
{
    let done = all.subrange(n, all.len() as int);
    let more = all.subrange(n - 1, all.len() as int);
    assert forall|x: SubscriptionId| #[trigger] ends_among(more, s, x) == ((all[n - 1].slot() == s
        && all[n - 1].id_spec() == x) || ends_among(done, s, x)) by {
        if ends_among(more, s, x) {
            let i = choose|i: int| 0 <= i < more.len() && (#[trigger] more[i]).slot() == s && more[i].id_spec() == x;
            if i > 0 {
                assert(done[i - 1] == more[i]);
            }
        }
        if ends_among(done, s, x) {
            let i = choose|i: int| 0 <= i < done.len() && (#[trigger] done[i]).slot() == s && done[i].id_spec() == x;
            assert(more[i + 1] == done[i]);
        }
        if all[n - 1].slot() == s && all[n - 1].id_spec() == x {
            assert(more[0] == all[n - 1]);
        }
    }
}

/// Nothing ended yet: the empty run keeps every id.
proof fn lemma_filter_all(v: Seq<SubscriptionId>, keep: spec_fn(SubscriptionId) -> bool)
    requires
        forall|x: SubscriptionId| #[trigger] keep(x),
    ensures
        v.filter(keep) == v,
    decreases v.len(),
{
    reveal(Seq::filter);
    if v.len() > 0 {
        lemma_filter_all(v.drop_last(), keep);
        assert(v.drop_last().push(v.last()) =~= v);
    }
}

fn copy_ids(v: &Vec<NodeId>) -> (r: Vec<NodeId>)
    ensures
        r@ == v@,
{
    let mut r: Vec<NodeId> = Vec::new();
    let mut i: usize = 0;
    while i < v.len()
        invariant
            i <= v.len(),
            r@ == v@.take(i as int),
        decreases v.len() - i,
    {
        r.push(v[i]);
        i += 1;
        proof {
            assert(r@ =~= v@.take(i as int));
        }
    }
    proof {
        assert(v@.take(v@.len() as int) =~= v@);
    }
    r
}

} // verus!
