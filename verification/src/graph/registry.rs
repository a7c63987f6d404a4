//! The graph layer's plain multi-provider registry: every provider of a
//! key is kept (precedence is a resolution concern), a registration or a
//! subscription is handed out as a handle, and handing the handle back
//! undoes it.
//!
//! Registering a provider does not notify anyone here; [`Registry::notify`]
//! is called explicitly and answers with the subscriptions to fire, in
//! subscription order, for the owner of the callbacks to invoke.
use vstd::prelude::*;

use crate::graph::arena::NodeId;
use crate::registry::buckets::{bucket_of, lemma_push_bucket_of, other_than, BucketItem, Buckets};
use crate::registry::key::RegistryKey;

verus! {

/// Identifier of one subscription, allocated per registry in increasing
/// order; not portable across registries.
#[derive(Debug, Clone, Copy, PartialEq, Eq, PartialOrd, Ord, Hash, Structural)]
pub struct SubscriptionId(u64);

impl SubscriptionId {
    pub closed spec fn raw_spec(&self) -> nat {
        self.0 as nat
    }

    /// The number of the subscription within its registry.
    pub fn raw(&self) -> (r: u64)
        ensures
            r == self.raw_spec(),
    {
        self.0
    }
}

impl BucketItem for SubscriptionId {
    fn same_item(&self, other: &Self) -> (b: bool) {
        *self == *other
    }
}

/// Multi-provider registry keyed by `K`.
pub struct Registry<K> {
    providers: Buckets<K, NodeId>,
    subscribers: Buckets<K, SubscriptionId>,
    next_id: u64,
}

/// One registration of `node` under `key`; handing it back to
/// [`Registry::unregister`] removes the registration.
pub struct ProviderHandle<K> {
    key: K,
    node: NodeId,
}

/// One subscription on `key`; handing it back to
/// [`Registry::unsubscribe`] ends it.
pub struct SubscriptionHandle<K> {
    key: K,
    id: SubscriptionId,
}

impl<K: RegistryKey> ProviderHandle<K> {
    pub closed spec fn key_view(&self) -> K::V {
        self.key@
    }

    pub closed spec fn node_spec(&self) -> NodeId {
        self.node
    }

    /// The key the registration is filed under.
    pub fn key(&self) -> (r: &K)
        ensures
            r@ == self.key_view(),
    {
        &self.key
    }

    /// The registered node.
    pub fn node(&self) -> (r: NodeId)
        ensures
            r == self.node_spec(),
    {
        self.node
    }
}

impl<K: RegistryKey> SubscriptionHandle<K> {
    pub closed spec fn key_view(&self) -> K::V {
        self.key@
    }

    pub closed spec fn id_spec(&self) -> SubscriptionId {
        self.id
    }

    /// The key watched.
    pub fn key(&self) -> (r: &K)
        ensures
            r@ == self.key_view(),
    {
        &self.key
    }

    /// The subscription's id, as [`Registry::notify`] reports it.
    pub fn id(&self) -> (r: SubscriptionId)
        ensures
            r == self.id_spec(),
    {
        self.id
    }
}

impl<K: RegistryKey> Default for Registry<K> {
    fn default() -> (r: Self)
        ensures
            r.wf(),
            forall|k: K::V| r.providers_of(k) == Seq::<NodeId>::empty(),
            forall|k: K::V| r.subscribers_of(k) == Seq::<SubscriptionId>::empty(),
            r.next_subscription() == 0,
    {
        Self::new()
    }
}

impl<K: RegistryKey> Registry<K> {
    /// The providers filed under `k`, in registration order.
    pub closed spec fn providers_of(&self, k: K::V) -> Seq<NodeId> {
        self.providers.get_spec(k)
    }

    /// The live subscriptions on `k`, in subscription order.
    pub closed spec fn subscribers_of(&self, k: K::V) -> Seq<SubscriptionId> {
        self.subscribers.get_spec(k)
    }

    /// The number the next subscription will get.
    pub closed spec fn next_subscription(&self) -> nat {
        self.next_id as nat
    }

    /// Both multimaps are well formed, and every live subscription id was
    /// allocated before the next one.
    pub closed spec fn wf(&self) -> bool {
        &&& self.providers.wf()
        &&& self.subscribers.wf()
        &&& forall|k: K::V, i: int|
            0 <= i < self.subscribers.get_spec(k).len() ==> (#[trigger] self.subscribers.get_spec(
                k,
            )[i]).0 < self.next_id
    }

    pub fn new() -> (r: Self)
        ensures
            r.wf(),
            forall|k: K::V| r.providers_of(k) == Seq::<NodeId>::empty(),
            forall|k: K::V| r.subscribers_of(k) == Seq::<SubscriptionId>::empty(),
            r.next_subscription() == 0,
    {
        Registry { providers: Buckets::new(), subscribers: Buckets::new(), next_id: 0 }
    }

    /// Every provider currently registered for `key`, in registration
    /// order (duplicates included).
    pub fn query(&self, key: &K) -> (r: Vec<NodeId>)
        requires
            self.wf(),
        ensures
            r@ == self.providers_of(key@),
    {
        self.providers.get(key)
    }

    /// Register `node` as a provider of `key`. Nobody is notified.
    pub fn register(&mut self, key: K, node: NodeId) -> (h: ProviderHandle<K>)
        requires
            old(self).wf(),
        ensures
            final(self).wf(),
            h.key_view() == key@,
            h.node_spec() == node,
            forall|k: K::V|
                #[trigger] final(self).providers_of(k) == if k == key@ {
                    old(self).providers_of(k).push(node)
                } else {
                    old(self).providers_of(k)
                },
            forall|k: K::V| #[trigger]
                final(self).subscribers_of(k) == old(self).subscribers_of(k),
            final(self).next_subscription() == old(self).next_subscription(),
    {
        let ghost old_ents = self.providers.ents();
        let filed = key.clone_key();
        self.providers.push(filed, node);
        proof {
            assert forall|k: K::V| #![trigger bucket_of(self.providers.ents(), k)]
                bucket_of(self.providers.ents(), k) == if k == key@ {
                    bucket_of(old_ents, k).push(node)
                } else {
                    bucket_of(old_ents, k)
                } by {
                lemma_push_bucket_of(old_ents, self.providers.ents(), key@, node, k);
            }
        }
        ProviderHandle { key, node }
    }

    /// Hand back a registration: `node` no longer provides `key` — every
    /// registration of that same pair goes with it.
    pub fn unregister(&mut self, h: ProviderHandle<K>)
        requires
            old(self).wf(),
        ensures
            final(self).wf(),
            forall|k: K::V|
                #[trigger] final(self).providers_of(k) == if k == h.key_view() {
                    old(self).providers_of(k).filter(other_than(h.node_spec()))
                } else {
                    old(self).providers_of(k)
                },
            forall|k: K::V| #[trigger]
                final(self).subscribers_of(k) == old(self).subscribers_of(k),
            final(self).next_subscription() == old(self).next_subscription(),
    {
        self.providers.remove_all(&h.key, h.node);
    }

    /// Subscribe to notifications on `key`; the subscription gets the next
    /// id and joins the end of `key`'s list.
    pub fn subscribe(&mut self, key: K) -> (h: SubscriptionHandle<K>)
        requires
            old(self).wf(),
            old(self).next_subscription() < u64::MAX,
        ensures
            final(self).wf(),
            h.key_view() == key@,
            h.id_spec().raw_spec() == old(self).next_subscription(),
            final(self).next_subscription() == old(self).next_subscription() + 1,
            forall|k: K::V|
                #[trigger] final(self).subscribers_of(k) == if k == key@ {
                    old(self).subscribers_of(k).push(h.id_spec())
                } else {
                    old(self).subscribers_of(k)
                },
            forall|k: K::V| #[trigger] final(self).providers_of(k) == old(self).providers_of(k),
    {
        let id = SubscriptionId(self.next_id);
        let ghost old_ents = self.subscribers.ents();
        let ghost old_subs = self.subscribers;
        let filed = key.clone_key();
        self.subscribers.push(filed, id);
        self.next_id = self.next_id + 1;
        proof {
            assert forall|k: K::V| #![trigger bucket_of(self.subscribers.ents(), k)]
                bucket_of(self.subscribers.ents(), k) == if k == key@ {
                    bucket_of(old_ents, k).push(id)
                } else {
                    bucket_of(old_ents, k)
                } by {
                lemma_push_bucket_of(old_ents, self.subscribers.ents(), key@, id, k);
            }
            assert forall|k: K::V, i: int|
                0 <= i < self.subscribers.get_spec(k).len() implies (
                #[trigger] self.subscribers.get_spec(k)[i]).0 < self.next_id by {
                assert(bucket_of(self.subscribers.ents(), k) == self.subscribers.get_spec(k));
                if k == key@ && i == self.subscribers.get_spec(k).len() - 1 {
                } else {
                    assert(self.subscribers.get_spec(k)[i] == old_subs.get_spec(k)[i]);
                    assert(old_subs.get_spec(k)[i].0 < old(self).next_id);
                }
            }
        }
        SubscriptionHandle { key, id }
    }

    /// Hand back a subscription: it is no longer notified.
    pub fn unsubscribe(&mut self, h: SubscriptionHandle<K>)
        requires
            old(self).wf(),
        ensures
            final(self).wf(),
            forall|k: K::V|
                #[trigger] final(self).subscribers_of(k) == if k == h.key_view() {
                    old(self).subscribers_of(k).filter(other_than(h.id_spec()))
                } else {
                    old(self).subscribers_of(k)
                },
            forall|k: K::V| #[trigger] final(self).providers_of(k) == old(self).providers_of(k),
            final(self).next_subscription() == old(self).next_subscription(),
    {
        let ghost before = self.subscribers;
        self.subscribers.remove_all(&h.key, h.id);
        proof {
            assert forall|k: K::V, i: int|
                0 <= i < self.subscribers.get_spec(k).len() implies (
                #[trigger] self.subscribers.get_spec(k)[i]).0 < self.next_id by {
                if k == h.key@ {
                    let s = before.get_spec(k);
                    let x = self.subscribers.get_spec(k)[i];
                    assert(s.filter(other_than(h.id)).contains(x));
                    s.lemma_filter_contains_rev(other_than(h.id), x);
                    let j = choose|j: int| 0 <= j < s.len() && s[j] == x;
                    assert(before.get_spec(k)[j].0 < self.next_id);
                }
            }
        }
    }

    /// The subscriptions a notification of `key` reaches, in subscription
    /// order; a subscription added after this call is not among them.
    pub fn notify(&self, key: &K) -> (r: Vec<SubscriptionId>)
        requires
            self.wf(),
        ensures
            r@ == self.subscribers_of(key@),
    {
        self.subscribers.get(key)
    }

    /// Handing back a registration right after making it leaves every
    /// provider list as it was, provided `node` was not already filed
    /// under `key`.
    pub proof fn lemma_unregister_undoes_register(
        before: Seq<NodeId>,
        node: NodeId,
    )
        requires
            !before.contains(node),
        ensures
            before.push(node).filter(other_than(node)) == before,
    {
        reveal(Seq::filter);
        assert(before.push(node).drop_last() =~= before);
        lemma_filter_keeps_all(before, node);
    }

    /// Ending the subscription that `subscribe` just made restores the
    /// key's subscriber list exactly: a new id is never already listed.
    pub proof fn lemma_unsubscribe_undoes_subscribe(&self, k: K::V, id: SubscriptionId)
        requires
            self.wf(),
            id.raw_spec() == self.next_subscription(),
        ensures
            self.subscribers_of(k).push(id).filter(other_than(id)) == self.subscribers_of(k),
    {
        let s = self.subscribers_of(k);
        assert(!s.contains(id)) by {
            if s.contains(id) {
                let j = choose|j: int| 0 <= j < s.len() && s[j] == id;
                assert(self.subscribers.get_spec(k)[j].0 < self.next_id);
            }
        }
        reveal(Seq::filter);
        assert(s.push(id).drop_last() =~= s);
        lemma_filter_keeps_all(s, id);
    }
}

proof fn lemma_filter_keeps_all<T>(s: Seq<T>, node: T)
    requires
        !s.contains(node),
    ensures
        s.filter(other_than(node)) == s,
    decreases s.len(),
{
    reveal(Seq::filter);
    if s.len() > 0 {
        lemma_filter_keeps_all(s.drop_last(), node);
        assert(s.drop_last().push(s.last()) =~= s);
    }
}

} // verus!
