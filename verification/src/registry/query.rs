//! Query types — how consumers look things up in registries.
//!
//! 1. [`QueryResult`] — tri-state owned value: `NoMatch`, `One(NodeId)`,
//!    `Many(Vec<NodeId>)`; the variant gives the cardinality at a glance.
//! 2. [`Query<K>`] / [`Subscription<K>`] — a stateless single-key lookup,
//!    and the active watch it turns into when subscribed.
//! 3. [`FallbackSubscription<P, F>`] — the cross-language two-key watch:
//!    primary first, fallback when the primary has no provider, with a
//!    cached answer. A provider change on either key reaches the watch
//!    when the subscriptions it fired are delivered to it
//!    ([`FallbackSubscription::deliver`]; the `register_*` and
//!    `unregister_*` methods make the change and deliver at once): the
//!    cache goes stale and the consumer watches ([`Watch`]) are told.
//!    [`FallbackSubscription::in_step`] is the tie between cache and
//!    registries: every registry change, batch commit and delivery keeps
//!    it, and while it holds with nothing owed the answer is the
//!    registries' current one.
use vstd::prelude::*;

use crate::graph::arena::NodeId;
use crate::registry::{ProviderHandle, Registry, RegistryKey, SubscriptionId};

verus! {

/// Tri-state owned query result.
#[derive(Debug, Clone, PartialEq, Eq)]
pub enum QueryResult {
    NoMatch,
    One(NodeId),
    Many(Vec<NodeId>),
}

impl View for QueryResult {
    type V = Seq<NodeId>;

    /// The matching nodes, in order.
    open spec fn view(&self) -> Seq<NodeId> {
        match self {
            QueryResult::NoMatch => Seq::empty(),
            QueryResult::One(id) => seq![*id],
            QueryResult::Many(ids) => ids@,
        }
    }
}

/// The result built from a list of matches: `NoMatch` for none, `One` for
/// exactly one, `Many` otherwise.
pub open spec fn result_of(v: Vec<NodeId>) -> QueryResult {
    if v@.len() == 0 {
        QueryResult::NoMatch
    } else if v@.len() == 1 {
        QueryResult::One(v@[0])
    } else {
        QueryResult::Many(v)
    }
}

impl QueryResult {
    /// The variant matches the number of matches (as `from` builds it).
    pub open spec fn canonical(&self) -> bool {
        match self {
            QueryResult::Many(ids) => ids@.len() >= 2,
            _ => true,
        }
    }

    /// The first match, if there is one.
    pub fn first(&self) -> (r: Option<NodeId>)
        ensures
            r == if self@.len() > 0 {
                Some(self@[0])
            } else {
                None::<NodeId>
            },
    {
        match self {
            QueryResult::NoMatch => None,
            QueryResult::One(id) => Some(*id),
            QueryResult::Many(ids) => {
                if ids.len() > 0 {
                    Some(ids[0])
                } else {
                    None
                }
            },
        }
    }

    /// All matches as an owned list.
    pub fn all(self) -> (r: Vec<NodeId>)
        ensures
            r@ == self@,
    {
        match self {
            QueryResult::NoMatch => Vec::new(),
            QueryResult::One(id) => {
                let mut v: Vec<NodeId> = Vec::new();
                v.push(id);
                proof {
                    assert(v@ =~= seq![id]);
                }
                v
            },
            QueryResult::Many(ids) => ids,
        }
    }

    /// True exactly for the `NoMatch` variant.
    pub fn is_empty(&self) -> (b: bool)
        ensures
            b == (self is NoMatch),
    {
        match self {
            QueryResult::NoMatch => true,
            _ => false,
        }
    }

    /// Number of matches.
    pub fn count(&self) -> (n: usize)
        ensures
            n == self@.len(),
    {
        match self {
            QueryResult::NoMatch => 0,
            QueryResult::One(_) => 1,
            QueryResult::Many(ids) => ids.len(),
        }
    }
}

impl From<Vec<NodeId>> for QueryResult {
    fn from(v: Vec<NodeId>) -> (r: QueryResult) {
        if v.len() == 0 {
            QueryResult::NoMatch
        } else if v.len() == 1 {
            QueryResult::One(v[0])
        } else {
            QueryResult::Many(v)
        }
    }
}

impl vstd::std_specs::convert::FromSpecImpl<Vec<NodeId>> for QueryResult {
    open spec fn obeys_from_spec() -> bool {
        true
    }

    open spec fn from_spec(v: Vec<NodeId>) -> QueryResult {
        result_of(v)
    }
}

/// The result built from `v` is canonical and lists exactly `v`.
pub proof fn lemma_result_of(v: Vec<NodeId>)
    ensures
        result_of(v).canonical(),
        result_of(v)@ == v@,
{
    if v@.len() == 1 {
        assert(seq![v@[0]] =~= v@);
    }
}

/// A stateless lookup of one key.
pub struct Query<K> {
    key: K,
}

impl<K: RegistryKey> Query<K> {
    pub closed spec fn key_view(&self) -> K::V {
        self.key@
    }

    /// The providers of the key as they stand in `registry`.
    pub fn resolve(&self, registry: &Registry<K>) -> (r: QueryResult)
        requires
            registry.wf(),
        ensures
            r.canonical(),
            r@ == registry.providers_of(self.key_view()),
    {
        let v = registry.providers(&self.key);
        proof {
            lemma_result_of(v);
        }
        QueryResult::from(v)
    }

    /// Turn this query into a subscription on `registry`: it gets the
    /// registry's next subscription id and joins the end of the key's
    /// subscriber list.
    pub fn subscribe(self, registry: &mut Registry<K>) -> (s: Subscription<K>)
        requires
            old(registry).wf(),
            old(registry).next_subscription() < u64::MAX,
        ensures
            final(registry).wf(),
            s.key_view() == self.key_view(),
            s.id_spec().0 == old(registry).next_subscription(),
            final(registry).next_subscription() == old(registry).next_subscription() + 1,
            forall|k: K::V|
                #![trigger final(registry).subscribers_of(k)]
                final(registry).subscribers_of(k) == if k == self.key_view() {
                    old(registry).subscribers_of(k).push(s.id_spec())
                } else {
                    old(registry).subscribers_of(k)
                },
            forall|k: K::V| final(registry).providers_of(k) == old(registry).providers_of(k),
            forall|n: Seq<char>| final(registry).named(n) == old(registry).named(n),
            final(registry).depth() == old(registry).depth(),
            final(registry).pending() == old(registry).pending(),
            final(registry).fired() == old(registry).fired(),
    {
        let k2 = self.key.clone_key();
        let id = registry.subscribe_key(k2);
        Subscription { key: self.key, id }
    }
}

impl<K: RegistryKey> Registry<K> {
    /// A query for `key` against this registry.
    pub fn query(&self, key: K) -> (q: Query<K>)
        ensures
            q.key_view() == key@,
    {
        Query { key }
    }

    /// End subscription `sub`: it leaves its key's subscriber list, and a
    /// subscription that was on it is then on no list at all.
    pub fn unsubscribe(&mut self, sub: Subscription<K>)
        requires
            old(self).wf(),
        ensures
            final(self).wf(),
            forall|k: K::V|
                #![trigger final(self).subscribers_of(k)]
                final(self).subscribers_of(k) == if k == sub.key_view() {
                    old(self).subscribers_of(k).filter(crate::registry::buckets::other_than(sub.id_spec()))
                } else {
                    old(self).subscribers_of(k)
                },
            old(self).subscribers_of(sub.key_view()).contains(sub.id_spec()) ==> forall|k: K::V|
                !(#[trigger] final(self).subscribers_of(k)).contains(sub.id_spec()),
            final(self).next_subscription() == old(self).next_subscription(),
            forall|k: K::V| final(self).providers_of(k) == old(self).providers_of(k),
            forall|n: Seq<char>| final(self).named(n) == old(self).named(n),
            final(self).depth() == old(self).depth(),
            final(self).pending() == old(self).pending(),
            final(self).fired() == old(self).fired(),
    {
        self.remove_subscription(&sub.key, sub.id);
    }
}

/// An active subscription on one registry's key, ended by handing it to
/// [`Registry::unsubscribe`].
pub struct Subscription<K> {
    key: K,
    id: SubscriptionId,
}

impl<K: RegistryKey> Subscription<K> {
    pub closed spec fn key_view(&self) -> K::V {
        self.key@
    }

    pub closed spec fn id_spec(&self) -> SubscriptionId {
        self.id
    }

    /// The id under which this subscription fires.
    pub fn id(&self) -> (r: SubscriptionId)
        ensures
            r == self.id_spec(),
    {
        self.id
    }

    /// The providers of the watched key as they stand in `registry`.
    pub fn resolve(&self, registry: &Registry<K>) -> (r: QueryResult)
        requires
            registry.wf(),
        ensures
            r.canonical(),
            r@ == registry.providers_of(self.key_view()),
    {
        let v = registry.providers(&self.key);
        proof {
            lemma_result_of(v);
        }
        QueryResult::from(v)
    }
}

/// Consumer-side handle of a [`FallbackSubscription::subscribe`]; handing
/// it to [`FallbackSubscription::unwatch`] stops its notifications.
pub struct Watch {
    id: u64,
}

impl Watch {
    pub closed spec fn id_spec(&self) -> u64 {
        self.id
    }

    /// The id under which this watch is notified.
    pub fn id(&self) -> (r: u64)
        ensures
            r == self.id_spec(),
    {
        self.id
    }
}

/// Cross-language two-key watch with primary-then-fallback resolution.
pub struct FallbackSubscription<P, F> {
    primary: Subscription<P>,
    fallback: Subscription<F>,
    cached: Option<Vec<NodeId>>,
    watchers: Vec<u64>,
    next_watch: u64,
}

impl<P: RegistryKey, F: RegistryKey> FallbackSubscription<P, F> {
    pub closed spec fn primary_key(&self) -> P::V {
        self.primary.key_view()
    }

    pub closed spec fn fallback_key(&self) -> F::V {
        self.fallback.key_view()
    }

    pub closed spec fn primary_id(&self) -> SubscriptionId {
        self.primary.id_spec()
    }

    pub closed spec fn fallback_id(&self) -> SubscriptionId {
        self.fallback.id_spec()
    }

    /// The cached answer, if the cache is fresh.
    pub closed spec fn cached_view(&self) -> Option<Seq<NodeId>> {
        match self.cached {
            Some(v) => Some(v@),
            None => None,
        }
    }

    /// The live consumer watches, in subscription order.
    pub closed spec fn watchers(&self) -> Seq<u64> {
        self.watchers@
    }

    /// The id the next watch will get.
    pub closed spec fn next_watch(&self) -> nat {
        self.next_watch as nat
    }

    /// Subscribe to `primary_key` on `primary_registry` and `fallback_key`
    /// on `fallback_registry`; the cache starts stale and nobody watches.
    pub fn new(
        primary_registry: &mut Registry<P>,
        primary_key: P,
        fallback_registry: &mut Registry<F>,
        fallback_key: F,
    ) -> (fb: Self)
        requires
            old(primary_registry).wf(),
            old(fallback_registry).wf(),
            old(primary_registry).next_subscription() < u64::MAX,
            old(fallback_registry).next_subscription() < u64::MAX,
        ensures
            final(primary_registry).wf(),
            final(fallback_registry).wf(),
            fb.primary_key() == primary_key@,
            fb.fallback_key() == fallback_key@,
            fb.primary_id().0 == old(primary_registry).next_subscription(),
            fb.fallback_id().0 == old(fallback_registry).next_subscription(),
            forall|k: P::V|
                #![trigger final(primary_registry).subscribers_of(k)]
                final(primary_registry).subscribers_of(k) == if k == primary_key@ {
                    old(primary_registry).subscribers_of(k).push(fb.primary_id())
                } else {
                    old(primary_registry).subscribers_of(k)
                },
            forall|k: F::V|
                #![trigger final(fallback_registry).subscribers_of(k)]
                final(fallback_registry).subscribers_of(k) == if k == fallback_key@ {
                    old(fallback_registry).subscribers_of(k).push(fb.fallback_id())
                } else {
                    old(fallback_registry).subscribers_of(k)
                },
            final(primary_registry).next_subscription() == old(primary_registry).next_subscription()
                + 1,
            final(fallback_registry).next_subscription() == old(
                fallback_registry,
            ).next_subscription() + 1,
            forall|k: P::V|
                final(primary_registry).providers_of(k) == old(primary_registry).providers_of(k),
            forall|k: F::V|
                final(fallback_registry).providers_of(k) == old(fallback_registry).providers_of(k),
            final(primary_registry).fired() == old(primary_registry).fired(),
            final(fallback_registry).fired() == old(fallback_registry).fired(),
            final(primary_registry).pending() == old(primary_registry).pending(),
            final(fallback_registry).pending() == old(fallback_registry).pending(),
            final(primary_registry).depth() == old(primary_registry).depth(),
            final(fallback_registry).depth() == old(fallback_registry).depth(),
            fb.cached_view() is None,
            fb.watchers() == Seq::<u64>::empty(),
            fb.next_watch() == 0,
            fb.in_step(&*final(primary_registry), &*final(fallback_registry)),
            fb.live(&*final(primary_registry), &*final(fallback_registry)),
    {
        let primary = primary_registry.query(primary_key).subscribe(primary_registry);
        let fallback = fallback_registry.query(fallback_key).subscribe(fallback_registry);
        let fb = FallbackSubscription {
            primary,
            fallback,
            cached: None,
            watchers: Vec::new(),
            next_watch: 0,
        };
        proof {
            let ps = primary_registry.subscribers_of(fb.primary_key());
            let fs = fallback_registry.subscribers_of(fb.fallback_key());
            assert(ps[ps.len() - 1] == fb.primary_id());
            assert(fs[fs.len() - 1] == fb.fallback_id());
        }
        fb
    }

    /// The cached answer while it is fresh; otherwise the primary key's
    /// providers, or the fallback key's when the primary has none, which
    /// then become the cached answer.
    pub fn resolve(&mut self, primary_registry: &Registry<P>, fallback_registry: &Registry<F>) -> (r:
        QueryResult)
        requires
            primary_registry.wf(),
            fallback_registry.wf(),
        ensures
            r.canonical(),
            r@ == old(self).answer(primary_registry, fallback_registry),
            old(self).in_step(primary_registry, fallback_registry) ==> final(self).in_step(
                primary_registry,
                fallback_registry,
            ),
            match old(self).cached_view() {
                Some(c) => r@ == c && final(self).cached_view() == old(self).cached_view(),
                None => {
                    &&& r@ == if primary_registry.providers_of(old(self).primary_key()).len() > 0 {
                        primary_registry.providers_of(old(self).primary_key())
                    } else {
                        fallback_registry.providers_of(old(self).fallback_key())
                    }
                    &&& final(self).cached_view() == Some(r@)
                },
            },
            final(self).primary_key() == old(self).primary_key(),
            final(self).fallback_key() == old(self).fallback_key(),
            final(self).primary_id() == old(self).primary_id(),
            final(self).fallback_id() == old(self).fallback_id(),
            final(self).watchers() == old(self).watchers(),
            final(self).next_watch() == old(self).next_watch(),
    {
        match &self.cached {
            Some(v) => {
                let c = copy_ids(v);
                proof {
                    lemma_result_of(c);
                }
                return QueryResult::from(c);
            },
            None => {},
        }
        let mut v = primary_registry.providers(&self.primary.key);
        if v.len() == 0 {
            v = fallback_registry.providers(&self.fallback.key);
        }
        let c = copy_ids(&v);
        self.cached = Some(c);
        proof {
            lemma_result_of(v);
        }
        QueryResult::from(v)
    }

    /// Register a consumer watch; it is told of every later invalidation
    /// until handed back to [`Self::unwatch`].
    pub fn subscribe(&mut self) -> (w: Watch)
        requires
            old(self).next_watch() < u64::MAX,
        ensures
            w.id_spec() == old(self).next_watch(),
            final(self).next_watch() == old(self).next_watch() + 1,
            final(self).watchers() == old(self).watchers().push(w.id_spec()),
            final(self).cached_view() == old(self).cached_view(),
            final(self).primary_key() == old(self).primary_key(),
            final(self).fallback_key() == old(self).fallback_key(),
            final(self).primary_id() == old(self).primary_id(),
            final(self).fallback_id() == old(self).fallback_id(),
    {
        let id = self.next_watch;
        self.next_watch = self.next_watch + 1;
        self.watchers.push(id);
        Watch { id }
    }

    /// Stop notifying watch `w`.
    pub fn unwatch(&mut self, w: Watch)
        ensures
            final(self).watchers() == old(self).watchers().filter(
                crate::registry::buckets::other_than(w.id_spec()),
            ),
            final(self).next_watch() == old(self).next_watch(),
            final(self).cached_view() == old(self).cached_view(),
            final(self).primary_key() == old(self).primary_key(),
            final(self).fallback_key() == old(self).fallback_key(),
            final(self).primary_id() == old(self).primary_id(),
            final(self).fallback_id() == old(self).fallback_id(),
    {
        let mut kept: Vec<u64> = Vec::new();
        let mut i: usize = 0;
        while i < self.watchers.len()
            invariant
                i <= self.watchers.len(),
                kept@ == self.watchers@.take(i as int).filter(
                    crate::registry::buckets::other_than(w.id),
                ),
            decreases self.watchers.len() - i,
        {
            proof {
                assert(self.watchers@.take(i + 1).drop_last() =~= self.watchers@.take(i as int));
                reveal(Seq::filter);
            }
            if self.watchers[i] != w.id {
                kept.push(self.watchers[i]);
            }
            i += 1;
        }
        proof {
            assert(self.watchers@.take(self.watchers@.len() as int) =~= self.watchers@);
        }
        self.watchers = kept;
    }

    /// A change reached one of the two watched keys: the cache goes stale,
    /// and every live watch is to be told, in subscription order.
    pub fn invalidate(&mut self) -> (told: Vec<u64>)
        ensures
            told@ == old(self).watchers(),
            final(self).cached_view() is None,
            final(self).watchers() == old(self).watchers(),
            final(self).next_watch() == old(self).next_watch(),
            final(self).primary_key() == old(self).primary_key(),
            final(self).fallback_key() == old(self).fallback_key(),
            final(self).primary_id() == old(self).primary_id(),
            final(self).fallback_id() == old(self).fallback_id(),
    {
        self.cached = None;
        copy_watchers(&self.watchers)
    }

    /// What a resolve against `primary_registry` and `fallback_registry`
    /// answers: the cached answer while it is fresh; otherwise the primary
    /// key's providers, or the fallback key's when the primary has none.
    pub open spec fn answer(&self, primary_registry: &Registry<P>, fallback_registry: &Registry<F>) -> Seq<NodeId> {
        match self.cached_view() {
            Some(c) => c,
            None => if primary_registry.providers_of(self.primary_key()).len() > 0 {
                primary_registry.providers_of(self.primary_key())
            } else {
                fallback_registry.providers_of(self.fallback_key())
            },
        }
    }

    /// What the two registries answer now: the primary key's providers,
    /// or the fallback key's when the primary has none.
    pub open spec fn current(&self, primary_registry: &Registry<P>, fallback_registry: &Registry<F>) -> Seq<NodeId> {
        if primary_registry.providers_of(self.primary_key()).len() > 0 {
            primary_registry.providers_of(self.primary_key())
        } else {
            fallback_registry.providers_of(self.fallback_key())
        }
    }

    /// A change to one of the two watched keys is on its way to this
    /// watch: fired and not yet delivered, or waiting in an open batch.
    pub open spec fn owed(&self, primary_registry: &Registry<P>, fallback_registry: &Registry<F>) -> bool {
        ||| primary_registry.fired().contains(self.primary_id())
        ||| fallback_registry.fired().contains(self.fallback_id())
        ||| primary_registry.pending().contains(self.primary_key())
        ||| fallback_registry.pending().contains(self.fallback_key())
    }

    /// Both underlying subscriptions are still on their keys' lists.
    pub open spec fn live(&self, primary_registry: &Registry<P>, fallback_registry: &Registry<F>) -> bool {
        &&& primary_registry.subscribers_of(self.primary_key()).contains(self.primary_id())
        &&& fallback_registry.subscribers_of(self.fallback_key()).contains(self.fallback_id())
    }

    /// The cache follows the registries: a cached answer is what they
    /// answer now, unless a change is on its way to this watch.
    pub open spec fn in_step(&self, primary_registry: &Registry<P>, fallback_registry: &Registry<F>) -> bool {
        match self.cached_view() {
            Some(c) => c == self.current(primary_registry, fallback_registry) || self.owed(
                primary_registry,
                fallback_registry,
            ),
            None => true,
        }
    }

    /// When the cache follows the registries and no change is on its way
    /// (no batch holds one, every fired subscription has been delivered),
    /// a resolve answers what the registries answer now.
    pub proof fn lemma_in_step_answers_current(&self, primary_registry: &Registry<P>, fallback_registry: &Registry<F>)
        requires
            self.in_step(primary_registry, fallback_registry),
            !self.owed(primary_registry, fallback_registry),
        ensures
            self.answer(primary_registry, fallback_registry) == self.current(primary_registry, fallback_registry),
    {
    }

    /// A provider change on key `k` of the primary registry (what
    /// [`Registry::register`] and [`Registry::unregister`] do) keeps a
    /// live watch in step: a change to its own key is owed to it (fired,
    /// or pending in a batch), any other change leaves its answer alone.
    pub proof fn lemma_primary_change_keeps_step(
        &self,
        before: &Registry<P>,
        after: &Registry<P>,
        fallback_registry: &Registry<F>,
        k: P::V,
    )
        requires
            self.in_step(before, fallback_registry),
            self.live(before, fallback_registry),
            forall|k2: P::V| k2 != k ==> #[trigger] after.providers_of(k2) == before.providers_of(k2),
            forall|k2: P::V| #[trigger] after.subscribers_of(k2) == before.subscribers_of(k2),
            before.notified(after, k),
        ensures
            self.in_step(after, fallback_registry),
            self.live(after, fallback_registry),
    {
        assert(after.subscribers_of(self.primary_key()) == before.subscribers_of(self.primary_key()));
        if before.depth() == 0 {
            if before.fired().contains(self.primary_id()) {
                let j = choose|j: int| 0 <= j < before.fired().len() && before.fired()[j] == self.primary_id();
                assert(after.fired()[j] == self.primary_id());
            }
            if k == self.primary_key() {
                let s = before.subscribers_of(k);
                let j = choose|j: int| 0 <= j < s.len() && s[j] == self.primary_id();
                assert(after.fired()[before.fired().len() + j] == self.primary_id());
            }
        } else {
            if k == self.primary_key() && !before.pending().contains(k) {
                assert(after.pending()[before.pending().len() as int] == k);
            }
            if before.pending().contains(self.primary_key()) && !before.pending().contains(k) {
                let j = choose|j: int| 0 <= j < before.pending().len() && before.pending()[j] == self.primary_key();
                assert(after.pending()[j] == self.primary_key());
            }
        }
        if k != self.primary_key() {
            assert(after.providers_of(self.primary_key()) == before.providers_of(self.primary_key()));
        }
    }

    /// A provider change on key `k` of the fallback registry keeps a live
    /// watch in step, in the same way.
    pub proof fn lemma_fallback_change_keeps_step(
        &self,
        primary_registry: &Registry<P>,
        before: &Registry<F>,
        after: &Registry<F>,
        k: F::V,
    )
        requires
            self.in_step(primary_registry, before),
            self.live(primary_registry, before),
            forall|k2: F::V| k2 != k ==> #[trigger] after.providers_of(k2) == before.providers_of(k2),
            forall|k2: F::V| #[trigger] after.subscribers_of(k2) == before.subscribers_of(k2),
            before.notified(after, k),
        ensures
            self.in_step(primary_registry, after),
            self.live(primary_registry, after),
    {
        assert(after.subscribers_of(self.fallback_key()) == before.subscribers_of(self.fallback_key()));
        if before.depth() == 0 {
            if before.fired().contains(self.fallback_id()) {
                let j = choose|j: int| 0 <= j < before.fired().len() && before.fired()[j] == self.fallback_id();
                assert(after.fired()[j] == self.fallback_id());
            }
            if k == self.fallback_key() {
                let s = before.subscribers_of(k);
                let j = choose|j: int| 0 <= j < s.len() && s[j] == self.fallback_id();
                assert(after.fired()[before.fired().len() + j] == self.fallback_id());
            }
        } else {
            if k == self.fallback_key() && !before.pending().contains(k) {
                assert(after.pending()[before.pending().len() as int] == k);
            }
            if before.pending().contains(self.fallback_key()) && !before.pending().contains(k) {
                let j = choose|j: int| 0 <= j < before.pending().len() && before.pending()[j] == self.fallback_key();
                assert(after.pending()[j] == self.fallback_key());
            }
        }
        if k != self.fallback_key() {
            assert(after.providers_of(self.fallback_key()) == before.providers_of(self.fallback_key()));
        }
    }

    /// Closing a batch on the primary registry (what
    /// [`Registry::commit_batch`] does) keeps a live watch in step: a
    /// change that waited for its key is fired to it.
    pub proof fn lemma_primary_commit_keeps_step(
        &self,
        before: &Registry<P>,
        after: &Registry<P>,
        fallback_registry: &Registry<F>,
    )
        requires
            self.in_step(before, fallback_registry),
            self.live(before, fallback_registry),
            forall|k2: P::V| #[trigger] after.providers_of(k2) == before.providers_of(k2),
            forall|k2: P::V| #[trigger] after.subscribers_of(k2) == before.subscribers_of(k2),
            after.depth() > 0 ==> after.pending() == before.pending() && after.fired() == before.fired(),
            after.depth() == 0 ==> after.pending() == Seq::<P::V>::empty() && after.fired() == before.fired()
                + before.fire_list_of(before.pending()),
        ensures
            self.in_step(after, fallback_registry),
            self.live(after, fallback_registry),
    {
        assert(after.subscribers_of(self.primary_key()) == before.subscribers_of(self.primary_key()));
        assert(after.providers_of(self.primary_key()) == before.providers_of(self.primary_key()));
        if after.depth() == 0 {
            if before.fired().contains(self.primary_id()) {
                let j = choose|j: int| 0 <= j < before.fired().len() && before.fired()[j] == self.primary_id();
                assert(after.fired()[j] == self.primary_id());
            }
            if before.pending().contains(self.primary_key()) {
                before.lemma_fire_list_reaches(before.pending(), self.primary_key(), self.primary_id());
                let f = before.fire_list_of(before.pending());
                let j = choose|j: int| 0 <= j < f.len() && f[j] == self.primary_id();
                assert(after.fired()[before.fired().len() + j] == self.primary_id());
            }
        }
    }

    /// Closing a batch on the fallback registry keeps a live watch in
    /// step, in the same way.
    pub proof fn lemma_fallback_commit_keeps_step(
        &self,
        primary_registry: &Registry<P>,
        before: &Registry<F>,
        after: &Registry<F>,
    )
        requires
            self.in_step(primary_registry, before),
            self.live(primary_registry, before),
            forall|k2: F::V| #[trigger] after.providers_of(k2) == before.providers_of(k2),
            forall|k2: F::V| #[trigger] after.subscribers_of(k2) == before.subscribers_of(k2),
            after.depth() > 0 ==> after.pending() == before.pending() && after.fired() == before.fired(),
            after.depth() == 0 ==> after.pending() == Seq::<F::V>::empty() && after.fired() == before.fired()
                + before.fire_list_of(before.pending()),
        ensures
            self.in_step(primary_registry, after),
            self.live(primary_registry, after),
    {
        assert(after.subscribers_of(self.fallback_key()) == before.subscribers_of(self.fallback_key()));
        assert(after.providers_of(self.fallback_key()) == before.providers_of(self.fallback_key()));
        if after.depth() == 0 {
            if before.fired().contains(self.fallback_id()) {
                let j = choose|j: int| 0 <= j < before.fired().len() && before.fired()[j] == self.fallback_id();
                assert(after.fired()[j] == self.fallback_id());
            }
            if before.pending().contains(self.fallback_key()) {
                before.lemma_fire_list_reaches(before.pending(), self.fallback_key(), self.fallback_id());
                let f = before.fire_list_of(before.pending());
                let j = choose|j: int| 0 <= j < f.len() && f[j] == self.fallback_id();
                assert(after.fired()[before.fired().len() + j] == self.fallback_id());
            }
        }
    }

    /// Collecting both registries' fired subscriptions (what
    /// [`Registry::take_fired`] does) and delivering them to this watch
    /// keeps it in step.
    pub proof fn lemma_delivery_keeps_step(
        &self,
        delivered_to: &Self,
        told: Seq<u64>,
        primary_before: &Registry<P>,
        primary_after: &Registry<P>,
        fallback_before: &Registry<F>,
        fallback_after: &Registry<F>,
    )
        requires
            self.in_step(primary_before, fallback_before),
            self.delivered(
                delivered_to,
                told,
                primary_before.fired().contains(self.primary_id()) || fallback_before.fired().contains(
                    self.fallback_id(),
                ),
            ),
            forall|k2: P::V| #[trigger] primary_after.providers_of(k2) == primary_before.providers_of(k2),
            forall|k2: F::V| #[trigger] fallback_after.providers_of(k2) == fallback_before.providers_of(k2),
            primary_after.pending() == primary_before.pending(),
            fallback_after.pending() == fallback_before.pending(),
        ensures
            delivered_to.in_step(primary_after, fallback_after),
    {
        assert(primary_after.providers_of(self.primary_key()) == primary_before.providers_of(self.primary_key()));
        assert(fallback_after.providers_of(self.fallback_key()) == fallback_before.providers_of(self.fallback_key()));
    }

    /// `after` is `self` once a change has (`hit`) or has not reached it:
    /// on a hit the cache is stale and every live watch is told, in
    /// subscription order; otherwise nothing changes and nobody is told.
    pub open spec fn delivered(&self, after: &Self, told: Seq<u64>, hit: bool) -> bool {
        &&& hit ==> after.cached_view() is None && told == self.watchers()
        &&& !hit ==> after.cached_view() == self.cached_view() && told.len() == 0
        &&& after.watchers() == self.watchers()
        &&& after.next_watch() == self.next_watch()
        &&& after.primary_key() == self.primary_key()
        &&& after.fallback_key() == self.fallback_key()
        &&& after.primary_id() == self.primary_id()
        &&& after.fallback_id() == self.fallback_id()
    }

    /// Hand this watch the subscriptions the two registries fired: when
    /// one of them is this watch's own, the cache goes stale and every
    /// live watch is told (the returned ids, in subscription order);
    /// otherwise nothing changes.
    pub fn deliver(&mut self, primary_fired: &Vec<SubscriptionId>, fallback_fired: &Vec<SubscriptionId>) -> (told: Vec<u64>)
        ensures
            old(self).delivered(
                &*final(self),
                told@,
                primary_fired@.contains(old(self).primary_id()) || fallback_fired@.contains(
                    old(self).fallback_id(),
                ),
            ),
    {
        let hit = contains_subscription(primary_fired, self.primary.id()) || contains_subscription(
            fallback_fired,
            self.fallback.id(),
        );
        if hit {
            self.invalidate()
        } else {
            Vec::new()
        }
    }

    /// Register `node` under `key` in the primary registry and deliver
    /// what that fired to this watch. With no batch open and this watch's
    /// primary subscription live on `key`, the cache goes stale, every
    /// live watch is told, and the next resolve answers the primary's
    /// providers, `node` last among them.
    pub fn register_primary(&mut self, primary_registry: &mut Registry<P>, key: P, node: NodeId) -> (r: (ProviderHandle<P>, Vec<u64>))
        requires
            old(primary_registry).wf(),
        ensures
            final(primary_registry).wf(),
            r.0.key_view() == key@,
            r.0.node_spec() == node,
            forall|k: P::V|
                #![trigger final(primary_registry).providers_of(k)]
                final(primary_registry).providers_of(k) == if k == key@ {
                    old(primary_registry).providers_of(k).push(node)
                } else {
                    old(primary_registry).providers_of(k)
                },
            old(primary_registry).notified(&*final(primary_registry), key@),
            forall|k: P::V| final(primary_registry).subscribers_of(k) == old(primary_registry).subscribers_of(k),
            final(primary_registry).next_subscription() == old(primary_registry).next_subscription(),
            old(self).delivered(
                &*final(self),
                r.1@,
                old(primary_registry).depth() == 0 && old(primary_registry).subscribers_of(key@).contains(
                    old(self).primary_id(),
                ),
            ),
            old(primary_registry).depth() == 0 && key@ == old(self).primary_key()
                && old(primary_registry).subscribers_of(key@).contains(old(self).primary_id())
                ==> forall|fallback_registry: Registry<F>|
                #[trigger] final(self).answer(&*final(primary_registry), &fallback_registry)
                    == old(primary_registry).providers_of(key@).push(node),
    {
        let (h, newly) = primary_registry.register_reporting(key, node);
        let none: Vec<SubscriptionId> = Vec::new();
        let told = self.deliver(&newly, &none);
        (h, told)
    }

    /// Register `node` under `key` in the fallback registry and deliver
    /// what that fired to this watch. With no batch open and this watch's
    /// fallback subscription live on `key`, the cache goes stale and every
    /// live watch is told.
    pub fn register_fallback(&mut self, fallback_registry: &mut Registry<F>, key: F, node: NodeId) -> (r: (ProviderHandle<F>, Vec<u64>))
        requires
            old(fallback_registry).wf(),
        ensures
            final(fallback_registry).wf(),
            r.0.key_view() == key@,
            r.0.node_spec() == node,
            forall|k: F::V|
                #![trigger final(fallback_registry).providers_of(k)]
                final(fallback_registry).providers_of(k) == if k == key@ {
                    old(fallback_registry).providers_of(k).push(node)
                } else {
                    old(fallback_registry).providers_of(k)
                },
            old(fallback_registry).notified(&*final(fallback_registry), key@),
            forall|k: F::V| final(fallback_registry).subscribers_of(k) == old(fallback_registry).subscribers_of(k),
            final(fallback_registry).next_subscription() == old(fallback_registry).next_subscription(),
            old(self).delivered(
                &*final(self),
                r.1@,
                old(fallback_registry).depth() == 0 && old(fallback_registry).subscribers_of(key@).contains(
                    old(self).fallback_id(),
                ),
            ),
    {
        let (h, newly) = fallback_registry.register_reporting(key, node);
        let none: Vec<SubscriptionId> = Vec::new();
        let told = self.deliver(&none, &newly);
        (h, told)
    }

    /// Remove the primary registration `h` and deliver what that fired to
    /// this watch. With no batch open and this watch's primary
    /// subscription live on the handle's key, the cache goes stale and
    /// every live watch is told.
    pub fn unregister_primary(&mut self, primary_registry: &mut Registry<P>, h: ProviderHandle<P>) -> (told: Vec<u64>)
        requires
            old(primary_registry).wf(),
        ensures
            final(primary_registry).wf(),
            forall|k: P::V|
                #![trigger final(primary_registry).providers_of(k)]
                final(primary_registry).providers_of(k) == if k == h.key_view() {
                    crate::registry::buckets::remove_first_of(old(primary_registry).providers_of(k), h.node_spec())
                } else {
                    old(primary_registry).providers_of(k)
                },
            old(primary_registry).notified(&*final(primary_registry), h.key_view()),
            forall|k: P::V| final(primary_registry).subscribers_of(k) == old(primary_registry).subscribers_of(k),
            final(primary_registry).next_subscription() == old(primary_registry).next_subscription(),
            old(self).delivered(
                &*final(self),
                told@,
                old(primary_registry).depth() == 0 && old(primary_registry).subscribers_of(h.key_view()).contains(
                    old(self).primary_id(),
                ),
            ),
    {
        let newly = primary_registry.unregister_reporting(h);
        let none: Vec<SubscriptionId> = Vec::new();
        self.deliver(&newly, &none)
    }

    /// Remove the fallback registration `h` and deliver what that fired to
    /// this watch. With no batch open and this watch's fallback
    /// subscription live on the handle's key, the cache goes stale and
    /// every live watch is told.
    pub fn unregister_fallback(&mut self, fallback_registry: &mut Registry<F>, h: ProviderHandle<F>) -> (told: Vec<u64>)
        requires
            old(fallback_registry).wf(),
        ensures
            final(fallback_registry).wf(),
            forall|k: F::V|
                #![trigger final(fallback_registry).providers_of(k)]
                final(fallback_registry).providers_of(k) == if k == h.key_view() {
                    crate::registry::buckets::remove_first_of(old(fallback_registry).providers_of(k), h.node_spec())
                } else {
                    old(fallback_registry).providers_of(k)
                },
            old(fallback_registry).notified(&*final(fallback_registry), h.key_view()),
            forall|k: F::V| final(fallback_registry).subscribers_of(k) == old(fallback_registry).subscribers_of(k),
            final(fallback_registry).next_subscription() == old(fallback_registry).next_subscription(),
            old(self).delivered(
                &*final(self),
                told@,
                old(fallback_registry).depth() == 0 && old(fallback_registry).subscribers_of(h.key_view()).contains(
                    old(self).fallback_id(),
                ),
            ),
    {
        let newly = fallback_registry.unregister_reporting(h);
        let none: Vec<SubscriptionId> = Vec::new();
        self.deliver(&none, &newly)
    }

    /// The subscription this watch holds on the primary registry.
    pub fn primary_subscription(&self) -> (r: SubscriptionId)
        ensures
            r == self.primary_id(),
    {
        self.primary.id()
    }

    /// The subscription this watch holds on the fallback registry.
    pub fn fallback_subscription(&self) -> (r: SubscriptionId)
        ensures
            r == self.fallback_id(),
    {
        self.fallback.id()
    }

    /// End both underlying subscriptions.
    pub fn release(self, primary_registry: &mut Registry<P>, fallback_registry: &mut Registry<F>)
        requires
            old(primary_registry).wf(),
            old(fallback_registry).wf(),
        ensures
            final(primary_registry).wf(),
            final(fallback_registry).wf(),
            forall|k: P::V|
                #![trigger final(primary_registry).subscribers_of(k)]
                final(primary_registry).subscribers_of(k) == if k == self.primary_key() {
                    old(primary_registry).subscribers_of(k).filter(
                        crate::registry::buckets::other_than(self.primary_id()),
                    )
                } else {
                    old(primary_registry).subscribers_of(k)
                },
            forall|k: F::V|
                #![trigger final(fallback_registry).subscribers_of(k)]
                final(fallback_registry).subscribers_of(k) == if k == self.fallback_key() {
                    old(fallback_registry).subscribers_of(k).filter(
                        crate::registry::buckets::other_than(self.fallback_id()),
                    )
                } else {
                    old(fallback_registry).subscribers_of(k)
                },
            forall|k: P::V|
                final(primary_registry).providers_of(k) == old(primary_registry).providers_of(k),
            forall|k: F::V|
                final(fallback_registry).providers_of(k) == old(fallback_registry).providers_of(k),
    {
        primary_registry.unsubscribe(self.primary);
        fallback_registry.unsubscribe(self.fallback);
    }
}

/// True iff `id` is among `ids`.
fn contains_subscription(ids: &Vec<SubscriptionId>, id: SubscriptionId) -> (b: bool)
    ensures
        b == ids@.contains(id),
{
    let mut i: usize = 0;
    while i < ids.len()
        invariant
            i <= ids@.len(),
            forall|j: int| 0 <= j < i ==> ids@[j] != id,
        decreases ids.len() - i,
    {
        if ids[i] == id {
            return true;
        }
        i += 1;
    }
    false
}

fn copy_ids(v: &Vec<NodeId>) -> (r: Vec<NodeId>)
    ensures
        r@ == v@,
{
    let mut r: Vec<NodeId> = Vec::new();
    let mut i: usize = 0;
    while i < v.len()
        invariant
            i <= v.len(),
            r@ == v@.take(i as int),
        decreases v.len() - i,
    {
        r.push(v[i]);
        i += 1;
        proof {
            assert(r@ =~= v@.take(i as int));
        }
    }
    proof {
        assert(v@.take(v@.len() as int) =~= v@);
    }
    r
}

fn copy_watchers(v: &Vec<u64>) -> (r: Vec<u64>)
    ensures
        r@ == v@,
{
    let mut r: Vec<u64> = Vec::new();
    let mut i: usize = 0;
    while i < v.len()
        invariant
            i <= v.len(),
            r@ == v@.take(i as int),
        decreases v.len() - i,
    {
        r.push(v[i]);
        i += 1;
        proof {
            assert(r@ =~= v@.take(i as int));
        }
    }
    proof {
        assert(v@.take(v@.len() as int) =~= v@);
    }
    r
}

} // verus!
