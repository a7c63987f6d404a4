//! Payload-driven lifecycle hooks: once a node is in the arena and has
//! its id, its payload registers itself in the consumer's registries and
//! hands back the registration handles, which the node's owner keeps and
//! releases when the node is destroyed.
use vstd::prelude::*;

use crate::graph::arena::NodeId;

verus! {

pub trait NodeBehavior {
    /// The registries the consumer threads through lifecycle calls.
    type Ctx;

    /// What a registration hands back, to be released later.
    type Handle;

    /// The context is in a state registrations can be made in.
    spec fn ctx_ready(ctx: &Self::Ctx) -> bool;

    /// Register the node `id` carrying this payload; an empty list for
    /// payloads that register nowhere.
    fn on_created(&self, id: NodeId, ctx: &mut Self::Ctx) -> (handles: Vec<Self::Handle>)
        requires
            Self::ctx_ready(old(ctx)),
        ensures
            Self::ctx_ready(final(ctx)),
    ;
}

} // verus!
