//! Cross-registry queries: a use-site stores the question, not the
//! answer, and asks it again against the current registries whenever it
//! needs the answer, so nothing it holds can dangle across edits.
use vstd::prelude::*;

use crate::graph::arena::NodeId;

verus! {

/// A registry query that can be resolved against a context of registries.
pub trait RegistryQuery {
    /// The bag of registries the consumer threads through resolution.
    type Ctx;

    /// The context is in a state queries can be answered in.
    spec fn ctx_ready(ctx: &Self::Ctx) -> bool;

    /// What the query finds in `ctx`, in the registry's own provider order.
    spec fn resolves(&self, ctx: &Self::Ctx) -> Seq<NodeId>;

    /// Run the query against `ctx` and return every matching node.
    fn resolve(&self, ctx: &Self::Ctx) -> (r: Vec<NodeId>)
        requires
            Self::ctx_ready(ctx),
        ensures
            r@ == self.resolves(ctx),
    ;
}

} // verus!
