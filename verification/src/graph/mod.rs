//! Graph engine: a typed arena with a hard-link forest and generational
//! ids, the per-node cache state, and the payload lifecycle hook.

pub mod arena;
pub mod behavior;
pub mod cache_state;
pub mod dynamic_link;
pub mod registry;

pub use arena::{Descendants, Graph, NodeData, NodeHandle, NodeId, NodeView};
pub use behavior::NodeBehavior;
pub use cache_state::{CacheState, Generation};
