//! Cache state for graph nodes: `Fresh` with the generation it was
//! computed at, `Stale` (recompute on next pull), or `Computing`
//! (recompute in flight; used for cycle detection).
use vstd::prelude::*;

verus! {

/// Monotonically increasing counter, bumped each time the graph
/// invalidates any node.
#[derive(Debug, Clone, Copy, PartialEq, Eq, PartialOrd, Ord, Hash, Default, Structural)]
pub struct Generation(pub(crate) u64);

impl Generation {
    /// The first generation.
    pub fn zero() -> (r: Generation)
        ensures
            r.value() == 0,
    {
        Generation(0)
    }

    pub closed spec fn value(self) -> nat {
        self.0 as nat
    }

    /// The next generation.
    pub fn bump(self) -> (r: Generation)
        requires
            self.value() < u64::MAX,
        ensures
            r.value() == self.value() + 1,
    {
        Generation(self.0 + 1)
    }

    /// The underlying counter, for logging and snapshots.
    pub fn raw(self) -> (r: u64)
        ensures
            r == self.value(),
    {
        self.0
    }

    /// The generation with counter `raw`.
    pub(crate) fn from_raw(raw: u64) -> (r: Self)
        ensures
            r.value() == raw,
    {
        Generation(raw)
    }
}

/// Bumping is strictly increasing: every bump gives a later generation.
pub proof fn lemma_bump_increases(g: Generation, h: Generation)
    requires
        h.value() == g.value() + 1,
    ensures
        h.value() > g.value(),
        h != g,
{
}

#[derive(Debug, Clone, Copy, PartialEq, Eq, Structural)]
pub enum CacheState {
    Fresh(Generation),
    Stale,
    Computing,
}

impl CacheState {
    pub fn is_fresh(self) -> (b: bool)
        ensures
            b == (self is Fresh),
    {
        match self {
            CacheState::Fresh(_) => true,
            _ => false,
        }
    }

    pub fn is_stale(self) -> (b: bool)
        ensures
            b == (self is Stale),
    {
        match self {
            CacheState::Stale => true,
            _ => false,
        }
    }
}

} // verus!
