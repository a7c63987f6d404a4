//! The registry layer — typed-key indices over graph nodes.
//!
//! A [`Registry<K>`] files every provider node registered under a key
//! (duplicates included), keeps an eager simple-name index next to it,
//! and tracks subscriptions per key. Every change to a key's provider set
//! notifies that key's subscribers; inside a batch the notification is
//! deferred to the outermost commit and coalesced per key.
//!
//! A key's providers come back in registration order; removing one keeps
//! the order of the rest.
//!
//! The registry is a plain value: handles are released by handing them
//! back (`unregister`, `unsubscribe`), and a notification is recorded as
//! the ids of the subscriptions it reaches, in firing order, for their
//! owner to collect ([`Registry::take_fired`]) and deliver.
//! [`Registry::register_reporting`] and [`Registry::unregister_reporting`]
//! hand back what one change fired at once.

pub mod buckets;
pub mod key;
pub mod query;

pub use key::{RegistryKey, SimpleNamed};
pub use query::{FallbackSubscription, Query, QueryResult, Subscription, Watch};

use vstd::prelude::*;

use crate::graph::arena::{NodeHandle, NodeId};
use crate::registry::buckets::{
    bucket_of, entries_wf, lemma_bucket_of, lemma_push_bucket_of, lemma_first_index, lemma_occurrences_contains,
    lemma_occurrences_push, lemma_occurrences_remove_first, occurrences, other_than,
    remove_first_of, BucketItem, Buckets,
};
use crate::text::IntoText;

verus! {

/// Identifier of one subscription, allocated per registry in increasing
/// order; not portable across registries.
#[derive(Debug, Clone, Copy, PartialEq, Eq, PartialOrd, Ord, Hash, Structural)]
pub struct SubscriptionId(pub u64);

impl BucketItem for SubscriptionId {
    fn same_item(&self, other: &Self) -> (b: bool) {
        *self == *other
    }
}

impl BucketItem for NodeId {
    fn same_item(&self, other: &Self) -> (b: bool) {
        *self == *other
    }
}

/// A simple name used as the key of the simple-name index.
pub struct SimpleName(pub String);

impl View for SimpleName {
    type V = Seq<char>;

    open spec fn view(&self) -> Seq<char> {
        self.0@
    }
}

impl SimpleNamed for SimpleName {
    open spec fn simple_name_of(v: Seq<char>) -> Seq<char> {
        v
    }

    fn simple_name(&self) -> (r: &str) {
        self.0.as_str()
    }
}

impl RegistryKey for SimpleName {
    fn same_key(&self, other: &Self) -> (b: bool) {
        crate::text::str_eq(self.0.as_str(), other.0.as_str())
    }

    fn clone_key(&self) -> (r: Self) {
        SimpleName(String::from_str(self.0.as_str()))
    }
}

/// How often `x` is filed, over all entries whose key has simple name `n`.
pub open spec fn name_count<K: SimpleNamed>(
    ents: Seq<(K::V, Seq<NodeId>)>,
    n: Seq<char>,
    x: NodeId,
) -> nat
    decreases ents.len(),
{
    if ents.len() == 0 {
        0
    } else {
        name_count::<K>(ents.drop_last(), n, x) + name_share::<K>(ents.last(), n, x)
    }
}

/// The share of one entry in [`name_count`].
pub open spec fn name_share<K: SimpleNamed>(e: (K::V, Seq<NodeId>), n: Seq<char>, x: NodeId) -> nat {
    if K::simple_name_of(e.0) == n {
        occurrences(e.1, x)
    } else {
        0
    }
}

proof fn lemma_name_count_update<K: SimpleNamed>(
    ents: Seq<(K::V, Seq<NodeId>)>,
    i: int,
    e: (K::V, Seq<NodeId>),
    n: Seq<char>,
    x: NodeId,
)
    requires
        0 <= i < ents.len(),
    ensures
        name_count::<K>(ents.update(i, e), n, x) + name_share::<K>(ents[i], n, x) == name_count::<K>(
            ents,
            n,
            x,
        ) + name_share::<K>(e, n, x),
    decreases ents.len(),
{
    if i < ents.len() - 1 {
        lemma_name_count_update::<K>(ents.drop_last(), i, e, n, x);
        assert(ents.update(i, e).drop_last() =~= ents.drop_last().update(i, e));
    } else {
        assert(ents.update(i, e).drop_last() =~= ents.drop_last());
    }
}

proof fn lemma_name_count_remove<K: SimpleNamed>(
    ents: Seq<(K::V, Seq<NodeId>)>,
    i: int,
    n: Seq<char>,
    x: NodeId,
)
    requires
        0 <= i < ents.len(),
    ensures
        name_count::<K>(ents.remove(i), n, x) + name_share::<K>(ents[i], n, x) == name_count::<K>(
            ents,
            n,
            x,
        ),
    decreases ents.len(),
{
    if i < ents.len() - 1 {
        lemma_name_count_remove::<K>(ents.drop_last(), i, n, x);
        assert(ents.remove(i).drop_last() =~= ents.drop_last().remove(i));
        assert(ents.remove(i).last() == ents.last());
    } else {
        assert(ents.remove(i) =~= ents.drop_last());
    }
}

proof fn lemma_name_count_push<K: SimpleNamed>(
    ents: Seq<(K::V, Seq<NodeId>)>,
    e: (K::V, Seq<NodeId>),
    n: Seq<char>,
    x: NodeId,
)
    ensures
        name_count::<K>(ents.push(e), n, x) == name_count::<K>(ents, n, x) + name_share::<K>(e, n, x),
{
    assert(ents.push(e).drop_last() =~= ents);
}

proof fn lemma_name_count_at_least<K: SimpleNamed>(
    ents: Seq<(K::V, Seq<NodeId>)>,
    i: int,
    n: Seq<char>,
    x: NodeId,
)
    requires
        0 <= i < ents.len(),
    ensures
        name_count::<K>(ents, n, x) >= name_share::<K>(ents[i], n, x),
    decreases ents.len(),
{
    if i < ents.len() - 1 {
        lemma_name_count_at_least::<K>(ents.drop_last(), i, n, x);
    }
}

/// `name_count` is positive exactly when some entry with simple name `n`
/// files `x`.
proof fn lemma_name_count_positive<K: SimpleNamed>(
    ents: Seq<(K::V, Seq<NodeId>)>,
    n: Seq<char>,
    x: NodeId,
)
    ensures
        name_count::<K>(ents, n, x) > 0 <==> exists|i: int|
            0 <= i < ents.len() && K::simple_name_of(ents[i].0) == n && ents[i].1.contains(x),
    decreases ents.len(),
{
    if ents.len() > 0 {
        lemma_name_count_positive::<K>(ents.drop_last(), n, x);
        lemma_occurrences_contains(ents.last().1, x);
        if exists|i: int|
            0 <= i < ents.len() - 1 && K::simple_name_of(ents.drop_last()[i].0) == n
                && ents.drop_last()[i].1.contains(x) {
            let i = choose|i: int|
                0 <= i < ents.len() - 1 && K::simple_name_of(ents.drop_last()[i].0) == n
                    && ents.drop_last()[i].1.contains(x);
            assert(ents[i] == ents.drop_last()[i]);
        }
        if exists|i: int|
            0 <= i < ents.len() && K::simple_name_of(ents[i].0) == n && ents[i].1.contains(x) {
            let i = choose|i: int|
                0 <= i < ents.len() && K::simple_name_of(ents[i].0) == n && ents[i].1.contains(x);
            if i < ents.len() - 1 {
                assert(ents[i] == ents.drop_last()[i]);
            }
        }
    }
}

/// The subscriptions a flush of `keys` fires, key by key in order.
pub open spec fn fire_list<V>(subs: Seq<(V, Seq<SubscriptionId>)>, keys: Seq<V>) -> Seq<
    SubscriptionId,
>
    decreases keys.len(),
{
    if keys.len() == 0 {
        Seq::empty()
    } else {
        fire_list(subs, keys.drop_last()) + bucket_of(subs, keys.last())
    }
}

/// Multi-provider registry keyed by `K`.
pub struct Registry<K> {
    providers: Buckets<K, NodeId>,
    by_simple_name: Buckets<SimpleName, NodeId>,
    subscribers: Buckets<K, SubscriptionId>,
    next_id: u64,
    batch_depth: usize,
    pending: Vec<K>,
    fired: Vec<SubscriptionId>,
}

/// One registration of `node` under `key`, handed back to
/// [`Registry::unregister`] to remove exactly that registration.
pub struct ProviderHandle<K> {
    key: K,
    node: NodeId,
}

impl<K: RegistryKey> ProviderHandle<K> {
    pub closed spec fn key_view(&self) -> K::V {
        self.key@
    }

    pub closed spec fn node_spec(&self) -> NodeId {
        self.node
    }

    /// The key this registration is filed under.
    pub fn key(&self) -> (r: &K)
        ensures
            r@ == self.key_view(),
    {
        &self.key
    }

    /// The provider node of this registration.
    pub fn node(&self) -> (r: NodeId)
        ensures
            r == self.node_spec(),
    {
        self.node
    }
}

impl<K: RegistryKey> NodeHandle for ProviderHandle<K> {

}

impl<K: RegistryKey> Default for Registry<K> {
    fn default() -> (r: Self)
        ensures
            r.wf(),
            forall|k: K::V| r.providers_of(k) == Seq::<NodeId>::empty(),
            forall|n: Seq<char>| r.named(n) == Seq::<NodeId>::empty(),
            forall|k: K::V| r.subscribers_of(k) == Seq::<SubscriptionId>::empty(),
            r.next_subscription() == 0,
            r.depth() == 0,
            r.pending() == Seq::<K::V>::empty(),
            r.fired() == Seq::<SubscriptionId>::empty(),
    {
        Self::new()
    }
}

impl<K: RegistryKey> Registry<K> {
    /// The providers filed under `k`, in their current order.
    pub closed spec fn providers_of(&self, k: K::V) -> Seq<NodeId> {
        self.providers.get_spec(k)
    }

    /// The simple-name index entry for `n`.
    pub closed spec fn named(&self, n: Seq<char>) -> Seq<NodeId> {
        self.by_simple_name.get_spec(n)
    }

    /// How often `x` is filed over all keys whose simple name is `n`.
    pub closed spec fn name_total(&self, n: Seq<char>, x: NodeId) -> nat {
        name_count::<K>(self.providers.ents(), n, x)
    }

    /// The subscriptions on `k`, in subscription order.
    pub closed spec fn subscribers_of(&self, k: K::V) -> Seq<SubscriptionId> {
        self.subscribers.get_spec(k)
    }

    /// The id the next subscription will get.
    pub closed spec fn next_subscription(&self) -> nat {
        self.next_id as nat
    }

    /// How many batches are open.
    pub closed spec fn depth(&self) -> nat {
        self.batch_depth as nat
    }

    /// The keys whose notification waits for the outermost commit, each
    /// once, in the order they were first touched.
    pub closed spec fn pending(&self) -> Seq<K::V> {
        self.pending@.map_values(|k: K| k@)
    }

    /// The subscriptions fired and not yet collected, in firing order.
    pub closed spec fn fired(&self) -> Seq<SubscriptionId> {
        self.fired@
    }

    /// The subscriptions a notification of `keys`, key by key, reaches now.
    pub closed spec fn fire_list_of(&self, keys: Seq<K::V>) -> Seq<SubscriptionId> {
        fire_list(self.subscribers.ents(), keys)
    }

    /// A notification of `k` loses nothing already fired or pending, and
    /// puts `k`'s subscribers on their way: fired at once, or `k` pending.
    pub proof fn lemma_notified_owes(&self, after: &Self, k: K::V)
        requires
            self.notified(after, k),
        ensures
            forall|x: SubscriptionId| #[trigger] self.fired().contains(x) ==> after.fired().contains(x),
            forall|k2: K::V| #[trigger] self.pending().contains(k2) ==> after.pending().contains(k2),
            forall|x: SubscriptionId|
                #[trigger] self.subscribers_of(k).contains(x) ==> after.fired().contains(x)
                    || after.pending().contains(k),
    {
        assert forall|x: SubscriptionId| #[trigger] self.fired().contains(x) implies after.fired().contains(x) by {
            let j = choose|j: int| 0 <= j < self.fired().len() && self.fired()[j] == x;
            assert(after.fired()[j] == x);
        }
        assert forall|k2: K::V| #[trigger] self.pending().contains(k2) implies after.pending().contains(k2) by {
            let j = choose|j: int| 0 <= j < self.pending().len() && self.pending()[j] == k2;
            assert(after.pending()[j] == k2);
        }
        assert forall|x: SubscriptionId| #[trigger] self.subscribers_of(k).contains(x) implies after.fired().contains(x)
            || after.pending().contains(k) by {
            if self.depth() == 0 {
                let s = self.subscribers_of(k);
                let j = choose|j: int| 0 <= j < s.len() && s[j] == x;
                assert(after.fired()[self.fired().len() + j] == x);
            } else if !self.pending().contains(k) {
                assert(after.pending()[self.pending().len() as int] == k);
            }
        }
    }

    /// A notification of `keys` reaches every subscriber of every key
    /// among them.
    pub proof fn lemma_fire_list_reaches(&self, keys: Seq<K::V>, k: K::V, x: SubscriptionId)
        requires
            keys.contains(k),
            self.subscribers_of(k).contains(x),
        ensures
            self.fire_list_of(keys).contains(x),
        decreases keys.len(),
    {
        let ents = self.subscribers.ents();
        let f = fire_list(ents, keys.drop_last());
        let b = bucket_of(ents, keys.last());
        assert(fire_list(ents, keys) == f + b);
        if keys.last() == k {
            let j = choose|j: int| 0 <= j < b.len() && b[j] == x;
            assert((f + b)[f.len() + j] == x);
        } else {
            let i = choose|i: int| 0 <= i < keys.len() && keys[i] == k;
            assert(i < keys.len() - 1);
            assert(keys.drop_last()[i] == k);
            self.lemma_fire_list_reaches(keys.drop_last(), k, x);
            let j = choose|j: int| 0 <= j < f.len() && f[j] == x;
            assert((f + b)[j] == x);
        }
    }

    /// The state after a notification of `k`: fired at once outside a
    /// batch, recorded once for the outermost commit inside one.
    pub open spec fn notified(&self, after: &Self, k: K::V) -> bool {
        &&& after.depth() == self.depth()
        &&& if self.depth() == 0 {
            &&& after.fired() == self.fired() + self.subscribers_of(k)
            &&& after.pending() == self.pending()
        } else {
            &&& after.fired() == self.fired()
            &&& after.pending() == if self.pending().contains(k) {
                self.pending()
            } else {
                self.pending().push(k)
            }
        }
    }

    pub closed spec fn wf(&self) -> bool {
        &&& self.providers.wf()
        &&& self.by_simple_name.wf()
        &&& self.subscribers.wf()
        &&& forall|n: Seq<char>, x: NodeId|
            #![trigger occurrences(bucket_of(self.by_simple_name.ents(), n), x)]
            occurrences(bucket_of(self.by_simple_name.ents(), n), x) == name_count::<K>(
                self.providers.ents(),
                n,
                x,
            )
        &&& self.pending().no_duplicates()
        &&& self.batch_depth == 0 ==> self.pending@.len() == 0
        &&& forall|k: K::V, i: int|
            0 <= i < bucket_of(self.subscribers.ents(), k).len() ==> (#[trigger] bucket_of(
                self.subscribers.ents(),
                k,
            )[i]).0 < self.next_id
        &&& forall|k1: K::V, k2: K::V, x: SubscriptionId|
            #![trigger bucket_of(self.subscribers.ents(), k1).contains(x), bucket_of(self.subscribers.ents(), k2).contains(x)]
            bucket_of(self.subscribers.ents(), k1).contains(x) && bucket_of(
                self.subscribers.ents(),
                k2,
            ).contains(x) ==> k1 == k2
    }

    /// A subscription is on the list of one key at most.
    pub proof fn lemma_subscription_on_one_list(&self, k1: K::V, k2: K::V, x: SubscriptionId)
        requires
            self.wf(),
            self.subscribers_of(k1).contains(x),
            self.subscribers_of(k2).contains(x),
        ensures
            k1 == k2,
    {
    }

    /// An empty registry.
    pub fn new() -> (r: Self)
        ensures
            r.wf(),
            forall|k: K::V| r.providers_of(k) == Seq::<NodeId>::empty(),
            forall|n: Seq<char>| r.named(n) == Seq::<NodeId>::empty(),
            forall|k: K::V| r.subscribers_of(k) == Seq::<SubscriptionId>::empty(),
            r.next_subscription() == 0,
            r.depth() == 0,
            r.pending() == Seq::<K::V>::empty(),
            r.fired() == Seq::<SubscriptionId>::empty(),
    {
        let r = Registry {
            providers: Buckets::new(),
            by_simple_name: Buckets::new(),
            subscribers: Buckets::new(),
            next_id: 0,
            batch_depth: 0,
            pending: Vec::new(),
            fired: Vec::new(),
        };
        assert(r.pending() =~= Seq::<K::V>::empty());
        r
    }

    /// Every provider currently registered under `key`, duplicates included.
    pub fn providers(&self, key: &K) -> (r: Vec<NodeId>)
        requires
            self.wf(),
        ensures
            r@ == self.providers_of(key@),
    {
        self.providers.get(key)
    }

    /// The provider nodes of every key whose simple name is `name`: each
    /// node as often as it is registered, over all such keys.
    pub fn query_simple_name(&self, name: &str) -> (r: Vec<NodeId>)
        requires
            self.wf(),
        ensures
            r@ == self.named(name@),
            forall|x: NodeId| #[trigger] occurrences(r@, x) == self.name_total(name@, x),
            forall|x: NodeId|
                #[trigger] r@.contains(x) <==> exists|k: K::V|
                    K::simple_name_of(k) == name@ && (#[trigger] self.providers_of(k)).contains(x),
    {
        let q = SimpleName(name.into_text());
        let r = self.by_simple_name.get(&q);
        proof {
            assert forall|x: NodeId| #[trigger] r@.contains(x) <==> exists|k: K::V|
                K::simple_name_of(k) == name@ && (#[trigger] self.providers_of(k)).contains(x) by {
                assert(occurrences(self.named(name@), x) == self.name_total(name@, x));
                self.lemma_name_total_positive(name@, x);
                lemma_occurrences_contains(r@, x);
            }
        }
        r
    }

    /// `name_total(n, x)` is positive exactly when `x` is a provider of
    /// some key whose simple name is `n`.
    pub proof fn lemma_name_total_positive(&self, n: Seq<char>, x: NodeId)
        requires
            self.wf(),
        ensures
            self.name_total(n, x) > 0 <==> exists|k: K::V|
                K::simple_name_of(k) == n && (#[trigger] self.providers_of(k)).contains(x),
    {
        let ents = self.providers.ents();
        lemma_name_count_positive::<K>(ents, n, x);
        if exists|i: int|
            0 <= i < ents.len() && K::simple_name_of(ents[i].0) == n && ents[i].1.contains(x) {
            let i = choose|i: int|
                0 <= i < ents.len() && K::simple_name_of(ents[i].0) == n && ents[i].1.contains(x);
            lemma_bucket_of(ents, ents[i].0);
            assert(self.providers_of(ents[i].0) == ents[i].1);
        }
        if exists|k: K::V| K::simple_name_of(k) == n && (#[trigger] self.providers_of(k)).contains(x) {
            let k = choose|k: K::V|
                K::simple_name_of(k) == n && (#[trigger] self.providers_of(k)).contains(x);
            lemma_bucket_of(ents, k);
            if forall|i: int| 0 <= i < ents.len() ==> ents[i].0 != k {
                assert(self.providers_of(k) == Seq::<NodeId>::empty());
            } else {
                let i = choose|i: int| 0 <= i < ents.len() && ents[i].0 == k;
                assert(ents[i].1 == self.providers_of(k));
            }
        }
    }

    /// Fire-or-defer the notification of `key`.
    fn notify_or_defer(&mut self, key: &K)
        requires
            old(self).wf(),
        ensures
            final(self).wf(),
            old(self).notified(&*final(self), key@),
            final(self).providers == old(self).providers,
            final(self).by_simple_name == old(self).by_simple_name,
            final(self).subscribers == old(self).subscribers,
            final(self).next_id == old(self).next_id,
    {
        if self.batch_depth > 0 {
            let mut i: usize = 0;
            let mut found = false;
            while i < self.pending.len()
                invariant
                    i <= self.pending.len(),
                    self.pending().len() == self.pending@.len(),
                    found == exists|j: int| 0 <= j < i && self.pending()[j] == key@,
                decreases self.pending.len() - i,
            {
                if self.pending[i].same_key(key) {
                    found = true;
                }
                proof {
                    assert(self.pending()[i as int] == self.pending@[i as int]@);
                }
                i += 1;
            }
            if !found {
                let ghost before = self.pending();
                self.pending.push(key.clone_key());
                proof {
                    assert(self.pending() =~= before.push(key@));
                    assert(!before.contains(key@));
                }
            }
        } else {
            let mut subs = self.subscribers.get(key);
            self.fired.append(&mut subs);
        }
    }

    /// Fire every subscription on `key` — or, inside a batch, record `key`
    /// to be fired once at the outermost commit.
    pub fn notify(&mut self, key: &K)
        requires
            old(self).wf(),
        ensures
            final(self).wf(),
            old(self).notified(&*final(self), key@),
            forall|k: K::V| final(self).providers_of(k) == old(self).providers_of(k),
            forall|n: Seq<char>| final(self).named(n) == old(self).named(n),
            forall|k: K::V| final(self).subscribers_of(k) == old(self).subscribers_of(k),
            final(self).next_subscription() == old(self).next_subscription(),
    {
        self.notify_or_defer(key);
    }

    /// Open a notification batch. Provider changes still apply at once;
    /// only subscriber notifications wait for the outermost commit.
    pub fn begin_batch(&mut self)
        requires
            old(self).wf(),
            old(self).depth() < usize::MAX,
        ensures
            final(self).wf(),
            final(self).depth() == old(self).depth() + 1,
            final(self).pending() == old(self).pending(),
            final(self).fired() == old(self).fired(),
            forall|k: K::V| final(self).providers_of(k) == old(self).providers_of(k),
            forall|n: Seq<char>| final(self).named(n) == old(self).named(n),
            forall|k: K::V| final(self).subscribers_of(k) == old(self).subscribers_of(k),
            final(self).next_subscription() == old(self).next_subscription(),
    {
        self.batch_depth = self.batch_depth + 1;
    }

    /// Close a batch. The outermost commit fires the subscriptions of each
    /// recorded key once, key by key in the order the keys were first
    /// touched, all taken from the subscriber lists as they stand at the
    /// commit; inner commits only close their batch.
    pub fn commit_batch(&mut self)
        requires
            old(self).wf(),
            old(self).depth() > 0,
        ensures
            final(self).wf(),
            final(self).depth() == old(self).depth() - 1,
            final(self).depth() > 0 ==> final(self).pending() == old(self).pending()
                && final(self).fired() == old(self).fired(),
            final(self).depth() == 0 ==> final(self).pending() == Seq::<K::V>::empty()
                && final(self).fired() == old(self).fired() + old(self).fire_list_of(
                old(self).pending(),
            ),
            forall|k: K::V| final(self).providers_of(k) == old(self).providers_of(k),
            forall|n: Seq<char>| final(self).named(n) == old(self).named(n),
            forall|k: K::V| final(self).subscribers_of(k) == old(self).subscribers_of(k),
            final(self).next_subscription() == old(self).next_subscription(),
    {
        self.batch_depth = self.batch_depth - 1;
        if self.batch_depth == 0 {
            let ghost start = self.fired@;
            let ghost keys = self.pending();
            let mut keys_v: Vec<K> = Vec::new();
            std::mem::swap(&mut keys_v, &mut self.pending);
            assert(forall|j: int| 0 <= j < keys.len() ==> keys[j] == keys_v@[j]@);
            assert(self.pending() =~= Seq::<K::V>::empty());
            let mut i: usize = 0;
            while i < keys_v.len()
                invariant
                    i <= keys_v.len(),
                    self.wf(),
                    self.batch_depth == 0,
                    self.pending@.len() == 0,
                    self.providers == old(self).providers,
                    self.by_simple_name == old(self).by_simple_name,
                    self.subscribers == old(self).subscribers,
                    self.next_id == old(self).next_id,
                    keys.len() == keys_v@.len(),
                    forall|j: int| 0 <= j < keys.len() ==> keys[j] == keys_v@[j]@,
                    self.fired@ == start + fire_list(self.subscribers.ents(), keys.take(i as int)),
                decreases keys_v.len() - i,
            {
                let mut subs = self.subscribers.get(&keys_v[i]);
                self.fired.append(&mut subs);
                proof {
                    assert(keys.take(i + 1).drop_last() =~= keys.take(i as int));
                    assert(keys.take(i + 1).last() == keys_v@[i as int]@);
                }
                i += 1;
            }
            proof {
                assert(keys.take(keys.len() as int) =~= keys);
            }
        }
    }

    /// Collect the subscriptions fired so far, in firing order, leaving
    /// none behind.
    pub fn take_fired(&mut self) -> (r: Vec<SubscriptionId>)
        requires
            old(self).wf(),
        ensures
            final(self).wf(),
            r@ == old(self).fired(),
            final(self).fired() == Seq::<SubscriptionId>::empty(),
            final(self).depth() == old(self).depth(),
            final(self).pending() == old(self).pending(),
            forall|k: K::V| final(self).providers_of(k) == old(self).providers_of(k),
            forall|n: Seq<char>| final(self).named(n) == old(self).named(n),
            forall|k: K::V| final(self).subscribers_of(k) == old(self).subscribers_of(k),
            final(self).next_subscription() == old(self).next_subscription(),
    {
        let mut r: Vec<SubscriptionId> = Vec::new();
        std::mem::swap(&mut r, &mut self.fired);
        r
    }

    /// Register `node` as a provider for `key`, then notify `key`'s
    /// subscribers (deferred inside a batch). The returned handle removes
    /// exactly this registration when handed to [`Registry::unregister`].
    pub fn register(&mut self, key: K, node: NodeId) -> (h: ProviderHandle<K>)
        requires
            old(self).wf(),
        ensures
            final(self).wf(),
            h.key_view() == key@,
            h.node_spec() == node,
            forall|k: K::V|
                #![trigger final(self).providers_of(k)]
                final(self).providers_of(k) == if k == key@ {
                    old(self).providers_of(k).push(node)
                } else {
                    old(self).providers_of(k)
                },
            forall|n: Seq<char>, x: NodeId|
                #![trigger final(self).name_total(n, x)]
                final(self).name_total(n, x) == old(self).name_total(n, x) + if n
                    == K::simple_name_of(key@) && x == node {
                    1nat
                } else {
                    0nat
                },
            forall|n: Seq<char>|
                #![trigger final(self).named(n)]
                final(self).named(n) == if n == K::simple_name_of(key@) {
                    old(self).named(n).push(node)
                } else {
                    old(self).named(n)
                },
            old(self).notified(&*final(self), key@),
            forall|k: K::V| final(self).subscribers_of(k) == old(self).subscribers_of(k),
            final(self).next_subscription() == old(self).next_subscription(),
    {
        let ghost old_ents = self.providers.ents();
        let ghost old_named = self.by_simple_name.ents();
        let name = SimpleName(key.simple_name().into_text());
        let ghost sn = name@;
        proof {
            lemma_bucket_of(old_ents, key@);
            lemma_bucket_of(old_named, sn);
        }
        self.providers.push(key.clone_key(), node);
        self.by_simple_name.push(name, node);
        proof {
            let ents = self.providers.ents();
            let named = self.by_simple_name.ents();
            assert forall|k: K::V| #![trigger bucket_of(self.providers.ents(), k)] bucket_of(self.providers.ents(), k) == if k
                == key@ {
                bucket_of(old_ents, k).push(node)
            } else {
                bucket_of(old_ents, k)
            } by {
                lemma_push_bucket_of(old_ents, ents, key@, node, k);
            }
            assert forall|n: Seq<char>| #![trigger bucket_of(self.by_simple_name.ents(), n)] bucket_of(self.by_simple_name.ents(), n) == if n == sn {
                bucket_of(old_named, n).push(node)
            } else {
                bucket_of(old_named, n)
            } by {
                lemma_push_bucket_of(old_named, named, sn, node, n);
            }
            assert forall|n: Seq<char>, x: NodeId| #![trigger name_count::<K>(self.providers.ents(), n, x)]
                name_count::<K>(self.providers.ents(), n, x) == name_count::<K>(old_ents, n, x) + if n == sn && x == node {
                    1nat
                } else {
                    0nat
                } by {
                if exists|i: int| 0 <= i < old_ents.len() && old_ents[i].0 == key@ {
                    let i = choose|i: int| 0 <= i < old_ents.len() && old_ents[i].0 == key@;
                    lemma_name_count_update::<K>(old_ents, i, (key@, old_ents[i].1.push(node)), n, x);
                    lemma_occurrences_push(old_ents[i].1, x, node);
                } else {
                    lemma_name_count_push::<K>(old_ents, (key@, seq![node]), n, x);
                    lemma_occurrences_push(Seq::<NodeId>::empty(), x, node);
                    assert(Seq::<NodeId>::empty().push(node) =~= seq![node]);
                }
            }
            assert forall|n: Seq<char>, x: NodeId|
                #![trigger occurrences(bucket_of(self.by_simple_name.ents(), n), x)]
                occurrences(bucket_of(self.by_simple_name.ents(), n), x) == name_count::<K>(
                    self.providers.ents(),
                    n,
                    x,
                ) by {
                assert(self.named(n) == bucket_of(self.by_simple_name.ents(), n));
                assert(self.name_total(n, x) == name_count::<K>(self.providers.ents(), n, x));
                assert(occurrences(bucket_of(old_named, n), x) == name_count::<K>(old_ents, n, x));
                if n == sn {
                    lemma_occurrences_push(bucket_of(old_named, n), x, node);
                }
            }
        }
        let handle = ProviderHandle { key, node };
        self.notify_or_defer(&handle.key);
        handle
    }

    /// [`Registry::register`], also handing back the subscriptions this
    /// registration fired: the key's subscribers when no batch is open,
    /// none inside a batch (they fire at the outermost commit).
    pub fn register_reporting(&mut self, key: K, node: NodeId) -> (r: (ProviderHandle<K>, Vec<SubscriptionId>))
        requires
            old(self).wf(),
        ensures
            final(self).wf(),
            r.0.key_view() == key@,
            r.0.node_spec() == node,
            forall|k: K::V|
                #![trigger final(self).providers_of(k)]
                final(self).providers_of(k) == if k == key@ {
                    old(self).providers_of(k).push(node)
                } else {
                    old(self).providers_of(k)
                },
            old(self).notified(&*final(self), key@),
            forall|k: K::V| final(self).subscribers_of(k) == old(self).subscribers_of(k),
            final(self).next_subscription() == old(self).next_subscription(),
            r.1@ == if old(self).depth() == 0 {
                old(self).subscribers_of(key@)
            } else {
                Seq::<SubscriptionId>::empty()
            },
    {
        let n0 = self.fired.len();
        let ghost kv = key@;
        let h = self.register(key, node);
        let mut newly: Vec<SubscriptionId> = Vec::new();
        let mut i: usize = n0;
        while i < self.fired.len()
            invariant
                n0 <= i <= self.fired@.len(),
                newly@ == self.fired@.subrange(n0 as int, i as int),
            decreases self.fired.len() - i,
        {
            newly.push(self.fired[i]);
            i += 1;
            proof {
                assert(newly@ =~= self.fired@.subrange(n0 as int, i as int));
            }
        }
        proof {
            if old(self).depth() == 0 {
                assert(self.fired@ == old(self).fired() + old(self).subscribers_of(kv));
                assert(newly@ =~= old(self).subscribers_of(kv));
            } else {
                assert(newly@ =~= Seq::<SubscriptionId>::empty());
            }
        }
        (h, newly)
    }

    /// [`Registry::unregister`], also handing back the subscriptions this
    /// removal fired: the key's subscribers when no batch is open, none
    /// inside a batch (they fire at the outermost commit).
    pub fn unregister_reporting(&mut self, h: ProviderHandle<K>) -> (newly: Vec<SubscriptionId>)
        requires
            old(self).wf(),
        ensures
            final(self).wf(),
            forall|k: K::V|
                #![trigger final(self).providers_of(k)]
                final(self).providers_of(k) == if k == h.key_view() {
                    remove_first_of(old(self).providers_of(k), h.node_spec())
                } else {
                    old(self).providers_of(k)
                },
            old(self).notified(&*final(self), h.key_view()),
            forall|k: K::V| final(self).subscribers_of(k) == old(self).subscribers_of(k),
            final(self).next_subscription() == old(self).next_subscription(),
            newly@ == if old(self).depth() == 0 {
                old(self).subscribers_of(h.key_view())
            } else {
                Seq::<SubscriptionId>::empty()
            },
    {
        let n0 = self.fired.len();
        let ghost kv = h.key_view();
        self.unregister(h);
        let mut newly: Vec<SubscriptionId> = Vec::new();
        let mut i: usize = n0;
        while i < self.fired.len()
            invariant
                n0 <= i <= self.fired@.len(),
                newly@ == self.fired@.subrange(n0 as int, i as int),
            decreases self.fired.len() - i,
        {
            newly.push(self.fired[i]);
            i += 1;
            proof {
                assert(newly@ =~= self.fired@.subrange(n0 as int, i as int));
            }
        }
        proof {
            if old(self).depth() == 0 {
                assert(self.fired@ == old(self).fired() + old(self).subscribers_of(kv));
                assert(newly@ =~= old(self).subscribers_of(kv));
            } else {
                assert(newly@ =~= Seq::<SubscriptionId>::empty());
            }
        }
        newly
    }

    /// Remove the one registration `h` stands for (the first matching
    /// entry of its key; the others keep their order), keep the
    /// simple-name index in step, then notify the key's subscribers
    /// (deferred inside a batch). A handle whose registration is not on
    /// file changes no provider list.
    pub fn unregister(&mut self, h: ProviderHandle<K>)
        requires
            old(self).wf(),
        ensures
            final(self).wf(),
            forall|k: K::V|
                #![trigger final(self).providers_of(k)]
                final(self).providers_of(k) == if k == h.key_view() {
                    remove_first_of(old(self).providers_of(k), h.node_spec())
                } else {
                    old(self).providers_of(k)
                },
            forall|n: Seq<char>, x: NodeId|
                #![trigger final(self).name_total(n, x)]
                final(self).name_total(n, x) + (if n == K::simple_name_of(h.key_view()) && x
                    == h.node_spec() && old(self).providers_of(h.key_view()).contains(
                    h.node_spec(),
                ) {
                    1nat
                } else {
                    0nat
                }) == old(self).name_total(n, x),
            forall|n: Seq<char>|
                #![trigger final(self).named(n)]
                final(self).named(n) == if n == K::simple_name_of(h.key_view())
                    && old(self).providers_of(h.key_view()).contains(h.node_spec()) {
                    remove_first_of(old(self).named(n), h.node_spec())
                } else {
                    old(self).named(n)
                },
            old(self).notified(&*final(self), h.key_view()),
            forall|k: K::V| final(self).subscribers_of(k) == old(self).subscribers_of(k),
            final(self).next_subscription() == old(self).next_subscription(),
    {
        let ghost old_ents = self.providers.ents();
        let ghost old_named = self.by_simple_name.ents();
        let ghost kv = h.key@;
        let ghost x0 = h.node;
        let ghost had = bucket_of(old_ents, kv).contains(x0);
        let removed = self.providers.remove_first(&h.key, h.node);
        if removed {
            let name = SimpleName(h.key.simple_name().into_text());
            let ghost sn = name@;
            proof {
                let i = choose|i: int|
                    0 <= i < old_ents.len() && old_ents[i].0 == kv && {
                        let rest = remove_first_of(old_ents[i].1, x0);
                        if rest.len() == 0 {
                            self.providers.ents() == old_ents.remove(i)
                        } else {
                            self.providers.ents() == old_ents.update(i, (kv, rest))
                        }
                    };
                lemma_bucket_of(old_ents, kv);
                lemma_name_count_at_least::<K>(old_ents, i, sn, x0);
                lemma_occurrences_contains(old_ents[i].1, x0);
                lemma_occurrences_contains(bucket_of(old_named, sn), x0);
                assert(occurrences(bucket_of(old_named, sn), x0) == name_count::<K>(old_ents, sn, x0));
            }
            let r2 = self.by_simple_name.remove_first(&name, h.node);
            proof {
                let ents = self.providers.ents();
                let i = choose|i: int|
                    0 <= i < old_ents.len() && old_ents[i].0 == kv && {
                        let rest = remove_first_of(old_ents[i].1, x0);
                        if rest.len() == 0 {
                            ents == old_ents.remove(i)
                        } else {
                            ents == old_ents.update(i, (kv, rest))
                        }
                    };
                let rest = remove_first_of(old_ents[i].1, x0);
                lemma_bucket_of(old_ents, kv);
                assert forall|n: Seq<char>, x: NodeId|
                    #![trigger name_count::<K>(self.providers.ents(), n, x)]
                    name_count::<K>(self.providers.ents(), n, x) + (if n == sn && x == x0 {
                        1nat
                    } else {
                        0nat
                    }) == name_count::<K>(old_ents, n, x) by {
                    lemma_occurrences_remove_first(old_ents[i].1, x0, x);
                    if rest.len() == 0 {
                        lemma_name_count_remove::<K>(old_ents, i, n, x);
                        if K::simple_name_of(kv) == n {
                            assert(rest =~= Seq::<NodeId>::empty());
                        }
                    } else {
                        lemma_name_count_update::<K>(old_ents, i, (kv, rest), n, x);
                    }
                }
                assert forall|n: Seq<char>, x: NodeId|
                    #![trigger occurrences(bucket_of(self.by_simple_name.ents(), n), x)]
                    occurrences(bucket_of(self.by_simple_name.ents(), n), x) == name_count::<K>(
                        self.providers.ents(),
                        n,
                        x,
                    ) by {
                    assert(occurrences(bucket_of(old_named, n), x) == name_count::<K>(old_ents, n, x));
                    if n == sn {
                        lemma_occurrences_remove_first(bucket_of(old_named, n), x0, x);
                    }
                }
            }
        } else {
            proof {
                assert forall|n: Seq<char>|
                    #![trigger bucket_of(self.by_simple_name.ents(), n)]
                    bucket_of(self.by_simple_name.ents(), n) == bucket_of(old_named, n) by {}
            }
        }
        self.notify_or_defer(&h.key);
    }

    /// Open a subscription on `key`: it gets the next id and joins the end
    /// of `key`'s subscriber list.
    pub(crate) fn subscribe_key(&mut self, key: K) -> (id: SubscriptionId)
        requires
            old(self).wf(),
            old(self).next_subscription() < u64::MAX,
        ensures
            final(self).wf(),
            id.0 == old(self).next_subscription(),
            final(self).next_subscription() == old(self).next_subscription() + 1,
            forall|k: K::V|
                #![trigger final(self).subscribers_of(k)]
                final(self).subscribers_of(k) == if k == key@ {
                    old(self).subscribers_of(k).push(id)
                } else {
                    old(self).subscribers_of(k)
                },
            forall|k: K::V| final(self).providers_of(k) == old(self).providers_of(k),
            forall|n: Seq<char>| final(self).named(n) == old(self).named(n),
            forall|n: Seq<char>, x: NodeId| final(self).name_total(n, x) == old(self).name_total(n, x),
            final(self).depth() == old(self).depth(),
            final(self).pending() == old(self).pending(),
            final(self).fired() == old(self).fired(),
    {
        let ghost old_subs = self.subscribers.ents();
        let id = SubscriptionId(self.next_id);
        self.next_id = self.next_id + 1;
        self.subscribers.push(key, id);
        proof {
            assert forall|k: K::V|
                #![trigger bucket_of(self.subscribers.ents(), k)]
                bucket_of(self.subscribers.ents(), k) == if k == key@ {
                    bucket_of(old_subs, k).push(id)
                } else {
                    bucket_of(old_subs, k)
                } by {
                lemma_push_bucket_of(old_subs, self.subscribers.ents(), key@, id, k);
            }
            assert forall|k: K::V, i: int|
                0 <= i < bucket_of(self.subscribers.ents(), k).len() implies (#[trigger] bucket_of(
                    self.subscribers.ents(),
                    k,
                )[i]).0 < self.next_id by {
                if k == key@ && i == bucket_of(old_subs, k).len() {
                } else {
                    assert(bucket_of(self.subscribers.ents(), k)[i] == bucket_of(old_subs, k)[i]);
                }
            }
            assert forall|k: K::V, x: SubscriptionId|
                #[trigger] bucket_of(self.subscribers.ents(), k).contains(x) implies (x == id && k
                == key@) || (x != id && bucket_of(old_subs, k).contains(x)) by {
                let b = bucket_of(self.subscribers.ents(), k);
                let j = choose|j: int| 0 <= j < b.len() && b[j] == x;
                if k == key@ && j == bucket_of(old_subs, k).len() {
                } else {
                    assert(b[j] == bucket_of(old_subs, k)[j]);
                    assert(bucket_of(old_subs, k)[j].0 < id.0);
                }
            }
        }
        id
    }

    /// End the subscription `id` on `key`: it leaves `key`'s subscriber
    /// list, which keeps its order otherwise.
    pub(crate) fn remove_subscription(&mut self, key: &K, id: SubscriptionId)
        requires
            old(self).wf(),
        ensures
            final(self).wf(),
            forall|k: K::V|
                #![trigger final(self).subscribers_of(k)]
                final(self).subscribers_of(k) == if k == key@ {
                    old(self).subscribers_of(k).filter(other_than(id))
                } else {
                    old(self).subscribers_of(k)
                },
            old(self).subscribers_of(key@).contains(id) ==> forall|k: K::V|
                !(#[trigger] final(self).subscribers_of(k)).contains(id),
            final(self).next_subscription() == old(self).next_subscription(),
            forall|k: K::V| final(self).providers_of(k) == old(self).providers_of(k),
            forall|n: Seq<char>| final(self).named(n) == old(self).named(n),
            forall|n: Seq<char>, x: NodeId| final(self).name_total(n, x) == old(self).name_total(n, x),
            final(self).depth() == old(self).depth(),
            final(self).pending() == old(self).pending(),
            final(self).fired() == old(self).fired(),
    {
        let ghost old_subs = self.subscribers.ents();
        self.subscribers.remove_all(key, id);
        proof {
            assert forall|k: K::V, i: int|
                0 <= i < bucket_of(self.subscribers.ents(), k).len() implies (#[trigger] bucket_of(
                    self.subscribers.ents(),
                    k,
                )[i]).0 < self.next_id by {
                assert(self.subscribers.get_spec(k) == bucket_of(self.subscribers.ents(), k));
                if k == key@ {
                    let b = bucket_of(old_subs, k);
                    let e = bucket_of(self.subscribers.ents(), k)[i];
                    assert(bucket_of(self.subscribers.ents(), k) == b.filter(other_than(id)));
                    assert(b.filter(other_than(id))[i] == e);
                    assert(b.filter(other_than(id)).contains(e));
                    b.lemma_filter_contains_rev(other_than(id), e);
                    let j = choose|j: int| 0 <= j < b.len() && b[j] == e;
                    assert(bucket_of(old_subs, k)[j].0 < self.next_id);
                } else {
                    assert(bucket_of(self.subscribers.ents(), k)[i] == bucket_of(old_subs, k)[i]);
                }
            }
            assert forall|k: K::V, x: SubscriptionId|
                #[trigger] bucket_of(self.subscribers.ents(), k).contains(x) implies bucket_of(
                old_subs,
                k,
            ).contains(x) by {
                assert(self.subscribers.get_spec(k) == bucket_of(self.subscribers.ents(), k));
                if k == key@ {
                    bucket_of(old_subs, k).lemma_filter_contains_rev(other_than(id), x);
                }
            }
            if bucket_of(old_subs, key@).contains(id) {
                assert forall|k: K::V| !(#[trigger] bucket_of(self.subscribers.ents(), k)).contains(
                    id,
                ) by {
                    assert(self.subscribers.get_spec(k) == bucket_of(self.subscribers.ents(), k));
                    if bucket_of(self.subscribers.ents(), k).contains(id) {
                        assert(bucket_of(old_subs, k).contains(id));
                        if k == key@ {
                            let b = bucket_of(old_subs, k);
                            let f = b.filter(other_than(id));
                            let j = choose|j: int| 0 <= j < f.len() && f[j] == id;
                            b.lemma_filter_pred(other_than(id), j);
                            assert(other_than(id)(f[j]));
                        }
                    }
                }
            }
        }
    }
}

/// Unregistering the handle a registration returned restores the key's
/// provider list exactly, when the node was not already filed under the
/// key: removing the first `x` from `s.push(x)` gives back `s`.
pub proof fn lemma_unregister_undoes_register(s: Seq<NodeId>, x: NodeId)
    requires
        !s.contains(x),
    ensures
        remove_first_of(s.push(x), x) == s,
{
    let t = s.push(x);
    lemma_first_index(t, x);
    assert(t[s.len() as int] == x);
    assert(t.contains(x));
    let i = crate::registry::buckets::first_index(t, x);
    if i < s.len() {
        assert(t[i] == s[i]);
    }
    assert(i == s.len());
    assert(t.remove(i) =~= s);
}

/// Inside a batch every key waits at most once, so one commit fires each
/// touched key's subscribers once however often the key was touched.
pub proof fn lemma_pending_once<K: RegistryKey>(r: &Registry<K>)
    requires
        r.wf(),
    ensures
        r.pending().no_duplicates(),
        r.depth() == 0 ==> r.pending().len() == 0,
{
}

} // verus!
