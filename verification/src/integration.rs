//! The parse-to-commit handoff: a job is one file's self-contained parse
//! output; committing it inserts its nodes into the graph and files them
//! in the registries, serially, on the graph's side.
use vstd::prelude::*;

use crate::graph::arena::{Graph, NodeId};
use crate::graph::behavior::NodeBehavior;
use crate::interner::Interner;

verus! {

/// One file's parsed output, ready to be committed into a graph whose
/// payload union is `P`.
pub trait IntegrationJob<P: NodeBehavior>: Sized {
    /// How many nodes committing the job inserts.
    spec fn node_count(&self) -> nat;

    /// The source file this job was parsed from.
    fn path(&self) -> &str;

    /// Consume the job: insert its nodes into `graph`, file them against
    /// `ctx`, and return the inserted ids in insertion order with the
    /// registrations made.
    fn integrate(self, graph: &mut Graph<P>, ctx: &mut P::Ctx, interner: &Interner) -> (r: (
        Vec<NodeId>,
        Vec<P::Handle>,
    ))
        requires
            old(graph).wf(),
            P::ctx_ready(old(ctx)),
            old(graph).generations().len() + self.node_count() < u32::MAX,
        ensures
            final(graph).wf(),
            P::ctx_ready(final(ctx)),
            r.0@.len() == self.node_count(),
    ;
}

} // verus!
