//! Cross-registry queries: a registry answers every query shape it can
//! translate into its own key (its native key, or a model such as
//! [`ByFqn`]), and [`first_match`] / [`all_matches`] consult a
//! caller-named list of registries in priority order.
use vstd::prelude::*;

use crate::graph::arena::NodeId;
use crate::jvm::fqn::Fqn;
use crate::jvm::keys::JvmTypeKey;
use crate::languages::java::keys::JavaSymbolKey;
use crate::registry::{Registry, RegistryKey};

pub use crate::registry::query::QueryResult;

verus! {

/// A registry that can answer a query of shape `M`.
pub trait Queryable<M> {
    /// The matches `query` lists for `model`.
    spec fn answer(&self, model: &M) -> Seq<NodeId>;

    /// The registry is in a state it can be queried in.
    spec fn ready(&self) -> bool;

    fn query(&self, model: &M) -> (r: QueryResult)
        requires
            self.ready(),
        ensures
            r.canonical(),
            r@ == self.answer(model),
    ;
}

/// Native-key queries: every registry answers its own key.
impl<K: RegistryKey> Queryable<K> for Registry<K> {
    open spec fn answer(&self, key: &K) -> Seq<NodeId> {
        self.providers_of(key@)
    }

    open spec fn ready(&self) -> bool {
        self.wf()
    }

    fn query(&self, key: &K) -> (r: QueryResult) {
        let v = self.providers(key);
        proof {
            crate::registry::query::lemma_result_of(v);
        }
        QueryResult::from(v)
    }
}

/// Cross-registry "anything with this fully-qualified name" query.
#[derive(Debug, Clone)]
pub struct ByFqn(pub Fqn);

impl Queryable<ByFqn> for Registry<JvmTypeKey> {
    open spec fn answer(&self, m: &ByFqn) -> Seq<NodeId> {
        self.providers_of(m.0@)
    }

    open spec fn ready(&self) -> bool {
        self.wf()
    }

    fn query(&self, m: &ByFqn) -> (r: QueryResult) {
        let v = self.providers(&JvmTypeKey::new(m.0.duplicate()));
        proof {
            crate::registry::query::lemma_result_of(v);
        }
        QueryResult::from(v)
    }
}

impl Queryable<ByFqn> for Registry<JavaSymbolKey> {
    open spec fn answer(&self, m: &ByFqn) -> Seq<NodeId> {
        self.providers_of(m.0@)
    }

    open spec fn ready(&self) -> bool {
        self.wf()
    }

    fn query(&self, m: &ByFqn) -> (r: QueryResult) {
        let v = self.providers(&JavaSymbolKey::new(m.0.duplicate()));
        proof {
            crate::registry::query::lemma_result_of(v);
        }
        QueryResult::from(v)
    }
}

/// The first match of the first registry in `qs` that has one.
pub open spec fn first_hit<M>(model: &M, qs: Seq<&dyn Queryable<M>>) -> Option<NodeId>
    decreases qs.len(),
{
    if qs.len() == 0 {
        None
    } else if qs[0].answer(model).len() > 0 {
        Some(qs[0].answer(model)[0])
    } else {
        first_hit(model, qs.subrange(1, qs.len() as int))
    }
}

/// Every match of every registry in `qs`, registry by registry.
pub open spec fn all_hits<M>(model: &M, qs: Seq<&dyn Queryable<M>>) -> Seq<NodeId>
    decreases qs.len(),
{
    if qs.len() == 0 {
        Seq::empty()
    } else {
        all_hits(model, qs.drop_last()) + qs.last().answer(model)
    }
}

/// First match across `consult`, in priority order; later registries are
/// not consulted once one has answered.
pub fn first_match<M>(model: &M, consult: &[&dyn Queryable<M>]) -> (r: Option<NodeId>)
    requires
        forall|i: int| 0 <= i < consult@.len() ==> (#[trigger] consult@[i]).ready(),
    ensures
        r == first_hit(model, consult@),
{
    let mut i: usize = 0;
    assert(consult@.subrange(0, consult@.len() as int) =~= consult@);
    while i < consult.len()
        invariant
            i <= consult@.len(),
            forall|j: int| 0 <= j < consult@.len() ==> (#[trigger] consult@[j]).ready(),
            first_hit(model, consult@) == first_hit(model, consult@.subrange(i as int, consult@.len() as int)),
        decreases consult.len() - i,
    {
        let q: &&dyn Queryable<M> = &consult[i];
        assert(*q == consult@[i as int]);
        let r = (*q).query(model);
        let f = r.first();
        proof {
            let rest = consult@.subrange(i as int, consult@.len() as int);
            assert(rest[0] == consult@[i as int]);
            assert(rest.subrange(1, rest.len() as int) =~= consult@.subrange(i + 1, consult@.len() as int));
        }
        if f.is_some() {
            return f;
        }
        i += 1;
    }
    None
}

/// Every match across `consult`, registry by registry in order, with no
/// de-duplication.
pub fn all_matches<M>(model: &M, consult: &[&dyn Queryable<M>]) -> (r: Vec<NodeId>)
    requires
        forall|i: int| 0 <= i < consult@.len() ==> (#[trigger] consult@[i]).ready(),
    ensures
        r@ == all_hits(model, consult@),
{
    let mut out: Vec<NodeId> = Vec::new();
    let mut i: usize = 0;
    while i < consult.len()
        invariant
            i <= consult@.len(),
            forall|j: int| 0 <= j < consult@.len() ==> (#[trigger] consult@[j]).ready(),
            out@ == all_hits(model, consult@.take(i as int)),
        decreases consult.len() - i,
    {
        let q: &&dyn Queryable<M> = &consult[i];
        assert(*q == consult@[i as int]);
        let mut v = (*q).query(model).all();
        out.append(&mut v);
        proof {
            assert(consult@.take(i + 1).drop_last() =~= consult@.take(i as int));
        }
        i += 1;
    }
    proof {
        assert(consult@.take(consult@.len() as int) =~= consult@);
    }
    out
}

} // verus!
