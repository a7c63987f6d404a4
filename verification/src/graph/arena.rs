//! Graph arena: a flat vector of generational slots with a free list,
//! holding a hard-link forest (each node owns its children).
//!
//! A `NodeId` pairs a slot index with the generation the slot had when
//! the id was minted. Freeing a slot bumps its generation, so an id held
//! across a destroy no longer matches its slot and resolves to `None`
//! instead of silently aliasing the slot's next occupant.
use vstd::prelude::*;

verus! {

/// Marker for registration handles that a node's owner keeps next to the
/// node and releases when the node is destroyed.
pub trait NodeHandle {}

/// Opaque, generational arena handle: a slot index paired with the
/// generation the slot had when the id was minted.
#[derive(Debug, Clone, Copy, PartialEq, Eq, PartialOrd, Ord, Hash, Structural)]
pub struct NodeId {
    pub slot: u32,
    pub generation: u32,
}

impl NodeId {
    /// A stand-in id for slot `slot` at generation zero (used where a
    /// registry only stores and compares ids).
    pub fn placeholder(slot: u32) -> (r: NodeId)
        ensures
            r.slot == slot,
            r.generation == 0,
    {
        NodeId { slot, generation: 0 }
    }
}

/// Per-node storage: the payload plus its hard links.
pub struct NodeData<P> {
    pub payload: P,
    pub parent: Option<NodeId>,
    pub children: Vec<NodeId>,
}

/// The mathematical content of a live node.
pub struct NodeView<P> {
    pub payload: P,
    pub parent: Option<NodeId>,
    pub children: Seq<NodeId>,
}

pub open spec fn node_view<P>(d: NodeData<P>) -> NodeView<P> {
    NodeView { payload: d.payload, parent: d.parent, children: d.children@ }
}

/// The live-node map after inserting `id` (a fresh leaf) under `parent`.
pub open spec fn view_after_insert<P>(
    nodes: Map<NodeId, NodeView<P>>,
    id: NodeId,
    payload: P,
    parent: Option<NodeId>,
) -> Map<NodeId, NodeView<P>> {
    let with_node = nodes.insert(
        id,
        NodeView { payload: payload, parent: parent, children: Seq::empty() },
    );
    match parent {
        None => with_node,
        Some(p) => with_node.insert(
            p,
            NodeView {
                payload: nodes[p].payload,
                parent: nodes[p].parent,
                children: nodes[p].children.push(id),
            },
        ),
    }
}

/// Parent/child links of a live-node map agree in both directions and
/// no child is listed twice.
pub open spec fn well_linked<P>(nodes: Map<NodeId, NodeView<P>>) -> bool {
    &&& forall|n: NodeId, i: int|
        #![trigger nodes[n].children[i]]
        nodes.contains_key(n) && 0 <= i < nodes[n].children.len() ==> {
            &&& nodes.contains_key(nodes[n].children[i])
            &&& nodes[nodes[n].children[i]].parent == Some(n)
        }
    &&& forall|n: NodeId|
        #![trigger nodes[n]]
        nodes.contains_key(n) && nodes[n].parent is Some ==> {
            &&& nodes.contains_key(nodes[n].parent->0)
            &&& nodes[nodes[n].parent->0].children.contains(n)
        }
    &&& forall|n: NodeId|
        #![trigger nodes[n]]
        nodes.contains_key(n) ==> nodes[n].children.no_duplicates()
}

/// Generation a slot moves to when it is freed.
pub open spec fn next_generation(g: u32) -> u32 {
    if g == u32::MAX {
        0
    } else {
        (g + 1) as u32
    }
}

/// `s` with every occurrence of `x` removed, order kept.
pub open spec fn seq_without(s: Seq<NodeId>, x: NodeId) -> Seq<NodeId>
    decreases s.len(),
{
    if s.len() == 0 {
        s
    } else if s.last() == x {
        seq_without(s.drop_last(), x)
    } else {
        seq_without(s.drop_last(), x).push(s.last())
    }
}

struct Slot<P> {
    generation: u32,
    data: Option<NodeData<P>>,
}

/// Single-payload graph arena with free-list slot reuse.
pub struct Graph<P> {
    slots: Vec<Slot<P>>,
    free: Vec<usize>,
    /// Insertion time of each slot's current occupant; a child is always
    /// younger than its parent, which makes the forest acyclic.
    births: Ghost<Seq<nat>>,
    clock: Ghost<nat>,
}

/// The link structure of one slot, without its payload.
pub struct SlotShape {
    pub generation: u32,
    pub links: Option<(Option<NodeId>, Seq<NodeId>)>,
}

spec fn shape_of<P>(s: Slot<P>) -> SlotShape {
    SlotShape {
        generation: s.generation,
        links: match s.data {
            Some(d) => Some((d.parent, d.children@)),
            None => None,
        },
    }
}

spec fn s_live(sh: Seq<SlotShape>, id: NodeId) -> bool {
    &&& (id.slot as int) < sh.len()
    &&& sh[id.slot as int].generation == id.generation
    &&& sh[id.slot as int].links is Some
}

spec fn s_parent(sh: Seq<SlotShape>, id: NodeId) -> Option<NodeId> {
    (sh[id.slot as int].links->0).0
}

spec fn s_children(sh: Seq<SlotShape>, id: NodeId) -> Seq<NodeId> {
    (sh[id.slot as int].links->0).1
}

spec fn s_birth(births: Seq<nat>, id: NodeId) -> nat {
    births[id.slot as int]
}

spec fn wf_shape(sh: Seq<SlotShape>, births: Seq<nat>, clock: nat, free: Seq<usize>) -> bool {
    &&& sh.len() <= u32::MAX
    &&& births.len() == sh.len()
    &&& forall|i: int|
        #![trigger free[i]]
        0 <= i < free.len() ==> {
            &&& (free[i] as int) < sh.len()
            &&& sh[free[i] as int].links is None
        }
    &&& free.no_duplicates()
    &&& forall|id: NodeId| #[trigger] s_live(sh, id) ==> s_birth(births, id) < clock
    &&& forall|id: NodeId, i: int|
        #![trigger s_children(sh, id)[i]]
        s_live(sh, id) && 0 <= i < s_children(sh, id).len() ==> {
            &&& s_live(sh, s_children(sh, id)[i])
            &&& s_parent(sh, s_children(sh, id)[i]) == Some(id)
            &&& s_birth(births, s_children(sh, id)[i]) > s_birth(births, id)
        }
    &&& forall|id: NodeId|
        #[trigger] s_live(sh, id) && s_parent(sh, id) is Some ==> {
            &&& s_live(sh, s_parent(sh, id)->0)
            &&& s_children(sh, s_parent(sh, id)->0).contains(id)
        }
    &&& forall|id: NodeId| #[trigger] s_live(sh, id) ==> s_children(sh, id).no_duplicates()
}

impl<P> Graph<P> {
    closed spec fn shape(&self) -> Seq<SlotShape> {
        self.slots@.map_values(|s: Slot<P>| shape_of(s))
    }

    #[verifier::inline]
    spec fn live(&self, id: NodeId) -> bool {
        s_live(self.shape(), id)
    }

    spec fn node(&self, id: NodeId) -> NodeView<P> {
        NodeView {
            payload: (self.slots@[id.slot as int].data->Some_0).payload,
            parent: s_parent(self.shape(), id),
            children: s_children(self.shape(), id),
        }
    }

    /// Every live node, by id.
    pub closed spec fn nodes(&self) -> Map<NodeId, NodeView<P>> {
        Map::new(|id: NodeId| self.live(id), |id: NodeId| self.node(id))
    }

    /// Current generation of every slot, by slot index.
    pub closed spec fn generations(&self) -> Seq<u32> {
        self.slots@.map_values(|s: Slot<P>| s.generation)
    }

    /// Freed slots awaiting reuse; the last one is reused first.
    pub closed spec fn free_slots(&self) -> Seq<usize> {
        self.free@
    }

    #[verifier::inline]
    closed spec fn birth(&self, id: NodeId) -> nat {
        s_birth(self.births@, id)
    }

    pub closed spec fn wf(&self) -> bool {
        wf_shape(self.shape(), self.births@, self.clock@, self.free@)
    }

    proof fn lemma_live_slot(&self, a: NodeId, b: NodeId)
        requires
            self.live(a),
            self.live(b),
            a.slot == b.slot,
        ensures
            a == b,
    {
    }

    /// The links of a well-formed graph agree in both directions.
    pub proof fn lemma_well_linked(&self)
        requires
            self.wf(),
        ensures
            well_linked(self.nodes()),
    {
        let nodes = self.nodes();
        assert forall|n: NodeId, i: int|
            nodes.contains_key(n) && 0 <= i < nodes[n].children.len() implies {
            &&& nodes.contains_key(nodes[n].children[i])
            &&& nodes[nodes[n].children[i]].parent == Some(n)
        } by {
            assert(self.live(n));
            let c = self.node(n).children[i];
            assert(self.live(c));
        }
        assert forall|n: NodeId| nodes.contains_key(n) && nodes[n].parent is Some implies {
            &&& nodes.contains_key(nodes[n].parent->0)
            &&& nodes[nodes[n].parent->0].children.contains(n)
        } by {
            assert(self.live(n));
        }
        assert forall|n: NodeId| nodes.contains_key(n) implies nodes[n].children.no_duplicates() by {
            assert(self.live(n));
        }
    }

    /// `id` names a slot whose generation has moved on from `id`'s: the
    /// node it named is gone.
    pub open spec fn is_stale(&self, id: NodeId) -> bool {
        (id.slot as int) < self.generations().len() && self.generations()[id.slot as int] != id.generation
    }

    /// A stale id never resolves: no live node answers to it.
    pub proof fn lemma_stale_never_resolves(&self, id: NodeId)
        requires
            self.is_stale(id),
        ensures
            !self.nodes().contains_key(id),
    {
        assert(self.generations()[id.slot as int] == self.shape()[id.slot as int].generation);
    }

    /// A stale id stays unresolvable through any run of graph states in
    /// which every step keeps stale ids stale (as `insert` does, and
    /// `destroy` does for the slots it does not free).
    pub proof fn lemma_stale_through(states: Seq<Self>, id: NodeId)
        requires
            states.len() > 0,
            states[0].is_stale(id),
            forall|i: int|
                0 <= i < states.len() - 1 ==> (#[trigger] states[i]).is_stale(id) ==> states[i + 1].is_stale(id),
        ensures
            forall|i: int| 0 <= i < states.len() ==> (#[trigger] states[i]).is_stale(id) && !states[i].nodes().contains_key(id),
    {
        assert forall|i: int| 0 <= i < states.len() implies (#[trigger] states[i]).is_stale(id) && !states[i].nodes().contains_key(id) by {
            Self::lemma_stale_prefix(states, id, i);
            states[i].lemma_stale_never_resolves(id);
        }
    }

    proof fn lemma_stale_prefix(states: Seq<Self>, id: NodeId, n: int)
        requires
            0 <= n < states.len(),
            states[0].is_stale(id),
            forall|i: int|
                0 <= i < states.len() - 1 ==> (#[trigger] states[i]).is_stale(id) ==> states[i + 1].is_stale(id),
        ensures
            states[n].is_stale(id),
        decreases n,
    {
        if n > 0 {
            Self::lemma_stale_prefix(states, id, n - 1);
        }
    }

    pub fn new() -> (g: Self)
        ensures
            g.wf(),
            g.nodes() == Map::<NodeId, NodeView<P>>::empty(),
            g.generations() == Seq::<u32>::empty(),
            g.free_slots() == Seq::<usize>::empty(),
    {
        let g = Graph {
            slots: Vec::new(),
            free: Vec::new(),
            births: Ghost(Seq::empty()),
            clock: Ghost(0),
        };
        assert(g.nodes() =~= Map::<NodeId, NodeView<P>>::empty());
        assert(g.generations() =~= Seq::<u32>::empty());
        g
    }

    /// The node referenced by `id`, or `None` if the slot is empty or its
    /// generation does not match `id`.
    pub fn get(&self, id: NodeId) -> (r: Option<&NodeData<P>>)
        ensures
            r is Some <==> self.nodes().contains_key(id),
            r matches Some(d) ==> node_view(*d) == self.nodes()[id],
    {
        let idx = id.slot as usize;
        if idx >= self.slots.len() {
            return None;
        }
        let slot = &self.slots[idx];
        if slot.generation != id.generation {
            return None;
        }
        slot.data.as_ref()
    }

    /// True iff `id` names a live node.
    pub fn contains(&self, id: NodeId) -> (b: bool)
        ensures
            b == self.nodes().contains_key(id),
    {
        self.get(id).is_some()
    }

    /// Allocate a slot for `payload`, reusing the most recently freed slot
    /// (at its bumped generation) when there is one. With a parent, the new
    /// node is appended to the parent's children (a hard link).
    pub fn insert(&mut self, payload: P, parent: Option<NodeId>) -> (id: NodeId)
        requires
            old(self).wf(),
            parent matches Some(p) ==> old(self).nodes().contains_key(p),
            old(self).free_slots().len() > 0 || old(self).generations().len() < u32::MAX,
        ensures
            final(self).wf(),
            !old(self).nodes().contains_key(id),
            final(self).nodes() == view_after_insert(old(self).nodes(), id, payload, parent),
            old(self).free_slots().len() > 0 ==> {
                &&& id.slot as int == old(self).free_slots().last() as int
                &&& id.generation == old(self).generations()[id.slot as int]
                &&& final(self).free_slots() == old(self).free_slots().drop_last()
                &&& final(self).generations() == old(self).generations()
            },
            old(self).free_slots().len() == 0 ==> {
                &&& id.slot as int == old(self).generations().len()
                &&& id.generation == 0
                &&& final(self).free_slots() == old(self).free_slots()
                &&& final(self).generations() == old(self).generations().push(0)
            },
            forall|x: NodeId| #[trigger] old(self).is_stale(x) ==> final(self).is_stale(x),
    {
        let ghost old_self = *self;
        let data = NodeData { payload, parent, children: Vec::new() };
        let popped = self.free.pop();
        let (slot_index, generation) = match popped {
            Some(idx) => {
                assert(old_self.free@[old_self.free@.len() - 1] == idx);
                let g = self.slots[idx].generation;
                self.slots.set(idx, Slot { generation: g, data: Some(data) });
                (idx, g)
            },
            None => {
                let idx = self.slots.len();
                self.slots.push(Slot { generation: 0, data: Some(data) });
                (idx, 0)
            },
        };
        let id = NodeId { slot: slot_index as u32, generation };
        proof {
            self.births@ = if slot_index < old_self.slots@.len() {
                old_self.births@.update(slot_index as int, old_self.clock@)
            } else {
                old_self.births@.push(old_self.clock@)
            };
            self.clock@ = old_self.clock@ + 1;
            assert(!old_self.live(id));
            // the new id is in no children list: all listed children are live
            assert forall|n: NodeId, i: int|
                old_self.live(n) && 0 <= i < old_self.node(n).children.len() implies
                old_self.node(n).children[i] != id by {
                assert(old_self.live(old_self.node(n).children[i]));
            }
        }
        let ghost mid = *self;
        if let Some(p) = parent {
            let pidx = p.slot as usize;
            match &mut self.slots[pidx].data {
                Some(d) => {
                    d.children.push(id);
                },
                None => {},
            }
        }
        proof {
            let expected = view_after_insert(old_self.nodes(), id, payload, parent);
            assert forall|k: NodeId| #[trigger] self.live(k) <==> (old_self.live(k) || k == id) by {
                if k.slot == id.slot && k != id {
                    assert(k.generation != id.generation);
                }
            }
            assert forall|k: NodeId| self.live(k) implies #[trigger] self.node(k)
                == expected[k] by {
                if k == id {
                    if parent == Some(id) {
                        assert(false);
                    }
                } else if parent == Some(k) {
                } else {
                    assert(k.slot != id.slot);
                    if let Some(p) = parent {
                        assert(k.slot != p.slot);
                    }
                }
            }
            assert(self.nodes() =~= expected);
            assert(self.generations() =~= if slot_index < old_self.slots@.len() {
                old_self.generations()
            } else {
                old_self.generations().push(0)
            });
            // well-formedness
            assert forall|i: int| 0 <= i < self.free@.len() implies {
                &&& (self.free@[i] as int) < self.shape().len()
                &&& self.shape()[self.free@[i] as int].links is None
            } by {
                assert(self.free@[i] == old_self.free@[i]);
                if popped is Some {
                    assert(old_self.free@[i] != old_self.free@[old_self.free@.len() - 1]);
                }
            }
            assert forall|k: NodeId| #[trigger] self.live(k) implies self.birth(k)
                < self.clock@ by {
                if k != id {
                    assert(old_self.live(k));
                    assert(k.slot != id.slot);
                }
            }
            assert forall|k: NodeId, i: int|
                self.live(k) && 0 <= i < self.node(k).children.len() implies {
                &&& self.live(self.node(k).children[i])
                &&& self.node(self.node(k).children[i]).parent == Some(k)
                &&& self.birth(self.node(k).children[i]) > self.birth(k)
            } by {
                if k == id {
                } else {
                    assert(old_self.live(k));
                    assert(k.slot != id.slot);
                    if parent == Some(k) && i == self.node(k).children.len() - 1 {
                        assert(self.node(k).children[i] == id);
                    } else {
                        let c = old_self.node(k).children[i];
                        assert(self.node(k).children[i] == c);
                        assert(old_self.live(c));
                        assert(c != id);
                        assert(c.slot != id.slot);
                    }
                }
            }
            assert forall|k: NodeId| #[trigger]
                self.live(k) && self.node(k).parent is Some implies {
                &&& self.live(self.node(k).parent->0)
                &&& self.node(self.node(k).parent->0).children.contains(k)
            } by {
                if k == id {
                    let p = parent->0;
                    assert(self.node(p).children[self.node(p).children.len() - 1] == id);
                } else {
                    assert(old_self.live(k));
                    let p = old_self.node(k).parent->0;
                    assert(old_self.live(p));
                    let j = choose|j: int|
                        0 <= j < old_self.node(p).children.len() && old_self.node(p).children[j]
                            == k;
                    assert(self.node(p).children[j] == k);
                }
            }
            assert forall|k: NodeId| #[trigger] self.live(k) implies self.node(
                k,
            ).children.no_duplicates() by {
                if k != id {
                    assert(old_self.live(k));
                    if parent == Some(k) {
                        let s = old_self.node(k).children;
                        assert(!s.contains(id)) by {
                            if s.contains(id) {
                                let j = choose|j: int| 0 <= j < s.len() && s[j] == id;
                                assert(old_self.node(k).children[j] != id);
                            }
                        }
                        assert(self.node(k).children == s.push(id));
                    }
                }
            }
        }
        id
    }

    /// Mutable access to the payload of a live node; the links stay
    /// under the graph's control.
    pub fn get_mut(&mut self, id: NodeId) -> (r: Option<&mut P>)
        requires
            old(self).wf(),
        ensures
            final(self).wf(),
            r is Some <==> old(self).nodes().contains_key(id),
            r matches Some(p) ==> {
                &&& *p == old(self).nodes()[id].payload
                &&& final(self).nodes() == old(self).nodes().insert(
                    id,
                    NodeView {
                        payload: *final(p),
                        parent: old(self).nodes()[id].parent,
                        children: old(self).nodes()[id].children,
                    },
                )
            },
            r is None ==> final(self).nodes() == old(self).nodes(),
            final(self).generations() == old(self).generations(),
            final(self).free_slots() == old(self).free_slots(),
    {
        self.payload_mut(id)
    }
}

impl<P> Graph<P> {
    fn payload_mut(&mut self, id: NodeId) -> (r: Option<&mut P>)
        requires
            old(self).wf(),
        ensures
            final(self).shape() == old(self).shape(),
            final(self).births == old(self).births,
            final(self).clock == old(self).clock,
            final(self).free == old(self).free,
            r is Some <==> old(self).nodes().contains_key(id),
            r matches Some(p) ==> {
                &&& *p == old(self).nodes()[id].payload
                &&& final(self).nodes() == old(self).nodes().insert(
                    id,
                    NodeView {
                        payload: *final(p),
                        parent: old(self).nodes()[id].parent,
                        children: old(self).nodes()[id].children,
                    },
                )
            },
            r is None ==> final(self).nodes() == old(self).nodes(),
            final(self).generations() == old(self).generations(),
            final(self).free_slots() == old(self).free_slots(),
    {
        let idx = id.slot as usize;
        if idx >= self.slots.len() {
            return None;
        }
        if self.slots[idx].generation != id.generation {
            return None;
        }
        match &mut self.slots[idx].data {
            Some(d) => Some(&mut d.payload),
            None => None,
        }
    }
}


// ---------------------------------------------------------------------
// Hard-link subtrees: post-order (destroy) and pre-order (descendants)
// ---------------------------------------------------------------------
impl<P> Graph<P> {
    /// `c` is a child younger than `pb` that the traversal descends into.
    #[verifier::inline]
    spec fn enters(&self, c: NodeId, pb: nat) -> bool {
        self.live(c) && pb < self.birth(c) && self.birth(c) < self.clock@
    }

    /// Post-order listing of the subtree rooted at `id`: every child's
    /// subtree in child order, then `id` itself.
    spec fn post_of(&self, id: NodeId) -> Seq<NodeId>
        decreases (self.clock@ - self.birth(id)) as nat, self.node(id).children.len() + 1,
    {
        if !self.live(id) || self.birth(id) >= self.clock@ {
            Seq::empty()
        } else {
            self.post_list(self.node(id).children, self.birth(id)).push(id)
        }
    }

    spec fn post_list(&self, ids: Seq<NodeId>, pb: nat) -> Seq<NodeId>
        decreases (self.clock@ - pb) as nat, ids.len(),
    {
        if ids.len() == 0 {
            Seq::empty()
        } else {
            let rest = self.post_list(ids.drop_last(), pb);
            if self.enters(ids.last(), pb) {
                rest + self.post_of(ids.last())
            } else {
                rest
            }
        }
    }

    /// Pre-order listing of the subtree rooted at `id`.
    spec fn pre_of(&self, id: NodeId) -> Seq<NodeId>
        decreases (self.clock@ - self.birth(id)) as nat, self.node(id).children.len() + 1,
    {
        if !self.live(id) || self.birth(id) >= self.clock@ {
            Seq::empty()
        } else {
            seq![id] + self.pre_list(self.node(id).children, self.birth(id))
        }
    }

    spec fn pre_list(&self, ids: Seq<NodeId>, pb: nat) -> Seq<NodeId>
        decreases (self.clock@ - pb) as nat, ids.len(),
    {
        if ids.len() == 0 {
            Seq::empty()
        } else {
            let rest = self.pre_list(ids.drop_last(), pb);
            if self.enters(ids.last(), pb) {
                rest + self.pre_of(ids.last())
            } else {
                rest
            }
        }
    }

    /// The hard-link subtree of `id` in post-order (children before
    /// parents); empty when `id` is not live.
    pub closed spec fn subtree_postorder(&self, id: NodeId) -> Seq<NodeId> {
        self.post_of(id)
    }

    /// The hard-link subtree of `id` in pre-order (a node, then each
    /// child's subtree in child order); empty when `id` is not live. See
    /// [`Self::lemma_subtree_preorder`].
    pub closed spec fn subtree_preorder(&self, id: NodeId) -> Seq<NodeId> {
        self.pre_of(id)
    }

    /// The pre-order subtrees of `ids`, one after the other.
    pub open spec fn preorder_of_list(&self, ids: Seq<NodeId>) -> Seq<NodeId>
        decreases ids.len(),
    {
        if ids.len() == 0 {
            Seq::empty()
        } else {
            self.preorder_of_list(ids.drop_last()) + self.subtree_preorder(ids.last())
        }
    }

    /// Pre-order walk of the subtrees rooted at `roots`, in root order;
    /// roots that are not live contribute nothing.
    pub open spec fn preorder_of_roots(&self, roots: Seq<NodeId>) -> Seq<NodeId> {
        self.preorder_of_list(roots)
    }

    proof fn lemma_pre_list_all_enter(&self, ids: Seq<NodeId>, pb: nat)
        requires
            forall|j: int| 0 <= j < ids.len() ==> self.enters(#[trigger] ids[j], pb),
        ensures
            self.pre_list(ids, pb) == self.preorder_of_list(ids),
        decreases ids.len(),
    {
        if ids.len() > 0 {
            self.lemma_pre_list_all_enter(ids.drop_last(), pb);
            assert(self.enters(ids[ids.len() - 1], pb));
        }
    }

    /// The pre-order of a subtree: nothing for an id that is not live;
    /// otherwise the node itself, then its children's subtrees in child
    /// order.
    pub proof fn lemma_subtree_preorder(&self, id: NodeId)
        requires
            self.wf(),
        ensures
            !self.nodes().contains_key(id) ==> self.subtree_preorder(id) == Seq::<NodeId>::empty(),
            self.nodes().contains_key(id) ==> self.subtree_preorder(id) == seq![id]
                + self.preorder_of_list(self.nodes()[id].children),
    {
        if self.live(id) {
            assert forall|j: int| 0 <= j < self.node(id).children.len() implies self.enters(
                #[trigger] self.node(id).children[j],
                self.birth(id),
            ) by {
                self.lemma_child_enters(id, j);
            }
            self.lemma_pre_list_all_enter(self.node(id).children, self.birth(id));
        }
    }

    proof fn lemma_child_enters(&self, id: NodeId, i: int)
        requires
            self.wf(),
            self.live(id),
            0 <= i < self.node(id).children.len(),
        ensures
            self.enters(self.node(id).children[i], self.birth(id)),
    {
        let c = self.node(id).children[i];
        assert(self.live(c));
    }

    /// Membership in a post-order list: exactly the members of the
    /// entered children's subtrees.
    proof fn lemma_post_list_member(&self, ids: Seq<NodeId>, pb: nat, x: NodeId)
        ensures
            self.post_list(ids, pb).contains(x) <==> exists|j: int|
                0 <= j < ids.len() && self.enters(ids[j], pb) && #[trigger] self.post_of(
                    ids[j],
                ).contains(x),
        decreases ids.len(),
    {
        if ids.len() > 0 {
            self.lemma_post_list_member(ids.drop_last(), pb, x);
            let rest = self.post_list(ids.drop_last(), pb);
            if self.post_list(ids, pb).contains(x) {
                if rest.contains(x) {
                    let j = choose|j: int|
                        0 <= j < ids.drop_last().len() && self.enters(ids.drop_last()[j], pb)
                            && #[trigger] self.post_of(ids.drop_last()[j]).contains(x);
                    assert(ids[j] == ids.drop_last()[j]);
                } else {
                    assert(self.enters(ids.last(), pb));
                    assert(self.post_of(ids[ids.len() - 1]).contains(x));
                }
            }
            if exists|j: int|
                0 <= j < ids.len() && self.enters(ids[j], pb) && #[trigger] self.post_of(
                    ids[j],
                ).contains(x) {
                let j = choose|j: int|
                    0 <= j < ids.len() && self.enters(ids[j], pb) && #[trigger] self.post_of(
                        ids[j],
                    ).contains(x);
                if j < ids.len() - 1 {
                    assert(ids.drop_last()[j] == ids[j]);
                    assert(rest.contains(x));
                    let k = choose|k: int| 0 <= k < rest.len() && rest[k] == x;
                    assert((rest + self.post_of(ids.last()))[k] == x);
                } else {
                    let k = choose|k: int|
                        0 <= k < self.post_of(ids.last()).len() && self.post_of(ids.last())[k]
                            == x;
                    assert((rest + self.post_of(ids.last()))[rest.len() + k] == x);
                }
            }
        }
    }

    /// Facts about a member `x` of the post-order subtree of `n`.
    proof fn lemma_post_of_member(&self, n: NodeId, x: NodeId)
        requires
            self.wf(),
            self.post_of(n).contains(x),
        ensures
            self.live(n),
            self.live(x),
            self.birth(x) >= self.birth(n),
            x != n ==> (self.node(x).parent matches Some(p) && self.post_of(n).contains(p)),
            forall|i: int|
                0 <= i < self.node(x).children.len() ==> self.post_of(n).contains(
                    #[trigger] self.node(x).children[i],
                ),
        decreases (self.clock@ - self.birth(n)) as nat,
    {
        let ch = self.node(n).children;
        let pl = self.post_list(ch, self.birth(n));
        assert(self.post_of(n) == pl.push(n));
        assert forall|y: NodeId| #[trigger] pl.contains(y) implies self.post_of(n).contains(y) by {
            let k = choose|k: int| 0 <= k < pl.len() && pl[k] == y;
            assert(pl.push(n)[k] == y);
        }
        assert forall|i: int| 0 <= i < ch.len() implies self.post_of(n).contains(
            #[trigger] ch[i],
        ) by {
            self.lemma_child_enters(n, i);
            let c = ch[i];
            assert(self.post_of(c).last() == c);
            assert(self.post_of(c).contains(c));
            self.lemma_post_list_member(ch, self.birth(n), c);
            assert(pl.contains(c));
        }
        if x != n {
            assert(pl.contains(x)) by {
                let k = choose|k: int| 0 <= k < pl.push(n).len() && pl.push(n)[k] == x;
                assert(k < pl.len());
                assert(pl[k] == x);
            }
            self.lemma_post_list_member(ch, self.birth(n), x);
            let j = choose|j: int|
                0 <= j < ch.len() && self.enters(ch[j], self.birth(n)) && #[trigger] self.post_of(
                    ch[j],
                ).contains(x);
            let c = ch[j];
            self.lemma_post_of_member(c, x);
            if x == c {
                assert(self.node(c).parent == Some(n));
                assert(self.post_of(n).last() == n);
            } else {
                let p = self.node(x).parent->0;
                self.lemma_post_list_member(ch, self.birth(n), p);
                assert(pl.contains(p));
            }
            assert forall|i: int| 0 <= i < self.node(x).children.len() implies self.post_of(
                n,
            ).contains(#[trigger] self.node(x).children[i]) by {
                let y = self.node(x).children[i];
                assert(self.post_of(c).contains(y));
                self.lemma_post_list_member(ch, self.birth(n), y);
                assert(pl.contains(y));
            }
        }
    }

    /// Two subtrees that share a member are nested.
    proof fn lemma_post_nested(&self, a: NodeId, b: NodeId, x: NodeId)
        requires
            self.wf(),
            self.post_of(a).contains(x),
            self.post_of(b).contains(x),
        ensures
            self.post_of(a).contains(b) || self.post_of(b).contains(a),
        decreases self.birth(x),
    {
        self.lemma_post_of_member(a, x);
        self.lemma_post_of_member(b, x);
        if x == a {
        } else if x == b {
        } else {
            let p = self.node(x).parent->0;
            assert(self.live(p));
            let pc = self.node(p).children;
            let k = choose|k: int| 0 <= k < pc.len() && pc[k] == x;
            assert(self.birth(pc[k]) > self.birth(p));
            self.lemma_post_nested(a, b, p);
        }
    }

    /// Distinct children of one node have disjoint subtrees.
    proof fn lemma_siblings_disjoint(&self, n: NodeId, i: int, j: int, x: NodeId)
        requires
            self.wf(),
            self.live(n),
            0 <= i < self.node(n).children.len(),
            0 <= j < self.node(n).children.len(),
            i != j,
            self.post_of(self.node(n).children[i]).contains(x),
        ensures
            !self.post_of(self.node(n).children[j]).contains(x),
    {
        let ci = self.node(n).children[i];
        let cj = self.node(n).children[j];
        self.lemma_child_enters(n, i);
        self.lemma_child_enters(n, j);
        assert(ci != cj);
        if self.post_of(cj).contains(x) {
            self.lemma_post_nested(ci, cj, x);
            if self.post_of(ci).contains(cj) {
                self.lemma_post_of_member(ci, cj);
                assert(self.node(cj).parent == Some(n));
                self.lemma_post_of_member(ci, n);
            } else {
                self.lemma_post_of_member(cj, ci);
                assert(self.node(ci).parent == Some(n));
                self.lemma_post_of_member(cj, n);
            }
        }
    }

    proof fn lemma_post_list_prefix_no_dup(&self, n: NodeId, len: int)
        requires
            self.wf(),
            self.live(n),
            0 <= len <= self.node(n).children.len(),
        ensures
            self.post_list(self.node(n).children.take(len), self.birth(n)).no_duplicates(),
        decreases (self.clock@ - self.birth(n)) as nat, len,
    {
        let ch = self.node(n).children;
        if len > 0 {
            let pre = ch.take(len);
            assert(pre.drop_last() == ch.take(len - 1));
            self.lemma_post_list_prefix_no_dup(n, len - 1);
            self.lemma_child_enters(n, len - 1);
            let c = ch[len - 1];
            self.lemma_post_no_dup(c);
            let rest = self.post_list(ch.take(len - 1), self.birth(n));
            let tail = self.post_of(c);
            assert forall|a: int, b: int|
                0 <= a < rest.len() && 0 <= b < tail.len() implies rest[a] != tail[b] by {
                let x = rest[a];
                assert(rest.contains(x));
                self.lemma_post_list_member(ch.take(len - 1), self.birth(n), x);
                let j = choose|j: int|
                    0 <= j < ch.take(len - 1).len() && self.enters(
                        ch.take(len - 1)[j],
                        self.birth(n),
                    ) && #[trigger] self.post_of(ch.take(len - 1)[j]).contains(x);
                assert(ch.take(len - 1)[j] == ch[j]);
                self.lemma_siblings_disjoint(n, j, len - 1, x);
                assert(tail.contains(tail[b]));
            }
            assert(self.post_list(pre, self.birth(n)) == rest + tail);
        } else {
            assert(ch.take(0).len() == 0);
        }
    }

    proof fn lemma_post_no_dup(&self, n: NodeId)
        requires
            self.wf(),
            self.live(n),
        ensures
            self.post_of(n).no_duplicates(),
        decreases (self.clock@ - self.birth(n)) as nat, self.node(n).children.len() + 1,
    {
        let ch = self.node(n).children;
        assert(ch.take(ch.len() as int) == ch);
        self.lemma_post_list_prefix_no_dup(n, ch.len() as int);
        let pl = self.post_list(ch, self.birth(n));
        assert(!pl.contains(n)) by {
            if pl.contains(n) {
                self.lemma_post_list_member(ch, self.birth(n), n);
                let j = choose|j: int|
                    0 <= j < ch.len() && self.enters(ch[j], self.birth(n))
                        && #[trigger] self.post_of(ch[j]).contains(n);
                self.lemma_post_of_member(ch[j], n);
            }
        }
    }

    /// Appends the post-order subtree of `id` to `out`.
    fn collect_post(&self, id: NodeId, out: &mut Vec<NodeId>)
        requires
            self.wf(),
            self.live(id),
        ensures
            final(out)@ == old(out)@ + self.post_of(id),
        decreases (self.clock@ - self.birth(id)) as nat, self.node(id).children.len() + 1,
    {
        let idx = id.slot as usize;
        let d = match &self.slots[idx].data {
            Some(d) => d,
            None => {
                return ;
            },
        };
        let n = d.children.len();
        let ghost ch = self.node(id).children;
        assert(d.children@ == ch);
        let mut i: usize = 0;
        while i < n
            invariant
                self.wf(),
                self.live(id),
                d.children@ == ch,
                ch == self.node(id).children,
                n == ch.len(),
                0 <= i <= n,
                out@ == old(out)@ + self.post_list(ch.take(i as int), self.birth(id)),
            decreases n - i,
        {
            let c = d.children[i];
            proof {
                self.lemma_child_enters(id, i as int);
                assert(ch.take(i + 1).drop_last() == ch.take(i as int));
                assert(ch.take(i + 1).last() == c);
            }
            self.collect_post(c, out);
            i += 1;
            proof {
                assert(out@ == old(out)@ + self.post_list(ch.take(i as int), self.birth(id)));
            }
        }
        proof {
            assert(ch.take(n as int) == ch);
        }
        out.push(id);
    }

    /// Appends the pre-order subtree of `id` to `out`.
    fn collect_pre(&self, id: NodeId, out: &mut Vec<NodeId>)
        requires
            self.wf(),
            self.live(id),
        ensures
            final(out)@ == old(out)@ + self.pre_of(id),
        decreases (self.clock@ - self.birth(id)) as nat, self.node(id).children.len() + 1,
    {
        let idx = id.slot as usize;
        let d = match &self.slots[idx].data {
            Some(d) => d,
            None => {
                return ;
            },
        };
        out.push(id);
        let ghost base = out@;
        let n = d.children.len();
        let ghost ch = self.node(id).children;
        assert(d.children@ == ch);
        let mut i: usize = 0;
        while i < n
            invariant
                self.wf(),
                self.live(id),
                d.children@ == ch,
                ch == self.node(id).children,
                n == ch.len(),
                0 <= i <= n,
                out@ == base + self.pre_list(ch.take(i as int), self.birth(id)),
            decreases n - i,
        {
            let c = d.children[i];
            proof {
                self.lemma_child_enters(id, i as int);
                assert(ch.take(i + 1).drop_last() == ch.take(i as int));
                assert(ch.take(i + 1).last() == c);
            }
            self.collect_pre(c, out);
            i += 1;
            proof {
                assert(out@ == base + self.pre_list(ch.take(i as int), self.birth(id)));
            }
        }
        proof {
            assert(ch.take(n as int) == ch);
            assert(base == old(out)@.push(id));
        }
    }
}

/// Ids of a destroy result, in the order they were freed.
pub open spec fn removed_ids<P>(removed: Seq<(NodeId, P)>) -> Seq<NodeId> {
    removed.map_values(|e: (NodeId, P)| e.0)
}

/// The live-node map after freeing the nodes `gone` and unlinking `id`
/// from its parent.
pub open spec fn view_after_destroy<P>(
    nodes: Map<NodeId, NodeView<P>>,
    gone: Set<NodeId>,
    id: NodeId,
) -> Map<NodeId, NodeView<P>> {
    let kept = nodes.remove_keys(gone);
    match nodes[id].parent {
        None => kept,
        Some(p) => kept.insert(
            p,
            NodeView {
                payload: nodes[p].payload,
                parent: nodes[p].parent,
                children: seq_without(nodes[p].children, id),
            },
        ),
    }
}

proof fn lemma_seq_without(s: Seq<NodeId>, x: NodeId)
    ensures
        forall|y: NodeId| #[trigger]
            seq_without(s, x).contains(y) <==> (s.contains(y) && y != x),
        s.no_duplicates() ==> seq_without(s, x).no_duplicates(),
    decreases s.len(),
{
    if s.len() > 0 {
        lemma_seq_without(s.drop_last(), x);
        let r = seq_without(s.drop_last(), x);
        assert forall|y: NodeId| s.contains(y) <==> (s.drop_last().contains(y) || s.last() == y) by {
            if s.contains(y) {
                let k = choose|k: int| 0 <= k < s.len() && s[k] == y;
                if k < s.len() - 1 {
                    assert(s.drop_last()[k] == y);
                }
            }
            if s.drop_last().contains(y) {
                let k = choose|k: int| 0 <= k < s.drop_last().len() && s.drop_last()[k] == y;
                assert(s[k] == y);
            }
        }
        if s.last() != x {
            assert forall|y: NodeId| r.push(s.last()).contains(y) <==> (r.contains(y) || y
                == s.last()) by {
                if r.push(s.last()).contains(y) {
                    let k = choose|k: int| 0 <= k < r.push(s.last()).len() && r.push(s.last())[k] == y;
                    if k < r.len() {
                        assert(r[k] == y);
                    }
                }
                if r.contains(y) {
                    let k = choose|k: int| 0 <= k < r.len() && r[k] == y;
                    assert(r.push(s.last())[k] == y);
                }
                assert(r.push(s.last())[r.len() as int] == s.last());
            }
            if s.no_duplicates() {
                assert(!s.drop_last().contains(s.last())) by {
                    if s.drop_last().contains(s.last()) {
                        let k = choose|k: int|
                            0 <= k < s.drop_last().len() && s.drop_last()[k] == s.last();
                        assert(s[k] == s[s.len() - 1]);
                    }
                }
                assert(s.drop_last().no_duplicates());
                assert(!r.contains(s.last()));
            }
        } else {
            if s.no_duplicates() {
                assert(s.drop_last().no_duplicates());
            }
        }
        assert forall|y: NodeId|
            seq_without(s, x).contains(y) <==> (s.contains(y) && y != x) by {
            assert(s.contains(y) <==> (s.drop_last().contains(y) || s.last() == y));
            assert(r.contains(y) <==> (s.drop_last().contains(y) && y != x));
        }
    }
}

/// `v` with every occurrence of `x` removed.
fn without(v: &Vec<NodeId>, x: NodeId) -> (r: Vec<NodeId>)
    ensures
        r@ == seq_without(v@, x),
{
    let mut r: Vec<NodeId> = Vec::new();
    let mut i: usize = 0;
    while i < v.len()
        invariant
            0 <= i <= v@.len(),
            r@ == seq_without(v@.take(i as int), x),
        decreases v@.len() - i,
    {
        proof {
            assert(v@.take(i + 1).drop_last() == v@.take(i as int));
            assert(v@.take(i + 1).last() == v@[i as int]);
        }
        if v[i] != x {
            r.push(v[i]);
        }
        i += 1;
    }
    proof {
        assert(v@.take(v@.len() as int) == v@);
    }
    r
}

impl<P> Graph<P> {
    /// Post-order destroy: every descendant is freed before the node
    /// itself, each freed slot's generation is bumped and the slot joins
    /// the free list, and `id` is unlinked from its parent. Destroying a
    /// stale or unknown id is a no-op. Returns the freed nodes' ids and
    /// payloads in the order they were freed, so the caller can release
    /// whatever registrations the payloads hold.
    pub fn destroy(&mut self, id: NodeId) -> (removed: Vec<(NodeId, P)>)
        requires
            old(self).wf(),
        ensures
            final(self).wf(),
            !old(self).nodes().contains_key(id) ==> {
                &&& removed@.len() == 0
                &&& final(self).nodes() == old(self).nodes()
                &&& final(self).generations() == old(self).generations()
                &&& final(self).free_slots() == old(self).free_slots()
            },
            old(self).nodes().contains_key(id) ==> ({
                let ids = removed_ids(removed@);
                let old_nodes = old(self).nodes();
                &&& ids == old(self).subtree_postorder(id)
                &&& ids.no_duplicates()
                &&& ids.len() > 0 && ids.last() == id
                &&& forall|j: int| 0 <= j < ids.len() ==> old_nodes.contains_key(#[trigger] ids[j])
                &&& forall|j: int, i: int|
                    0 <= j < ids.len() && 0 <= i < old_nodes[ids[j]].children.len()
                        ==> ids.contains(#[trigger] old_nodes[ids[j]].children[i])
                &&& forall|j: int|
                    0 <= j < ids.len() && #[trigger] ids[j] != id ==> (
                    old_nodes[ids[j]].parent matches Some(p) && ids.contains(p))
                &&& forall|j: int|
                    0 <= j < ids.len() ==> (#[trigger] removed@[j]).1 == old_nodes[ids[j]].payload
                &&& final(self).nodes() == view_after_destroy(old_nodes, ids.to_set(), id)
                &&& final(self).free_slots() == old(self).free_slots() + ids.map_values(
                    |n: NodeId| n.slot as usize,
                )
                &&& final(self).generations().len() == old(self).generations().len()
                &&& forall|j: int|
                    0 <= j < ids.len() ==> final(self).generations()[(#[trigger] ids[j]).slot as int]
                        == next_generation(old(self).generations()[ids[j].slot as int])
                &&& forall|s: int|
                    0 <= s < old(self).generations().len() && (forall|j: int|
                        0 <= j < ids.len() ==> (#[trigger] ids[j]).slot != s) ==> final(self).generations()[s] == old(self).generations()[s]
            }),
            forall|j: int|
                0 <= j < removed@.len() ==> final(self).is_stale(#[trigger] removed_ids(removed@)[j]),
            forall|x: NodeId|
                #[trigger] old(self).is_stale(x) && (forall|j: int|
                    0 <= j < removed@.len() ==> (#[trigger] removed_ids(removed@)[j]).slot != x.slot)
                    ==> final(self).is_stale(x),
    {
        if !self.contains(id) {
            return Vec::new();
        }
        let ghost old_self = *self;
        let mut order: Vec<NodeId> = Vec::new();
        self.collect_post(id, &mut order);
        proof {
            self.lemma_post_no_dup(id);
            assert(order@ == self.post_of(id));
            assert forall|j: int| 0 <= j < order@.len() implies old_self.live(#[trigger] order@[j]) by {
                assert(order@.contains(order@[j]));
                self.lemma_post_of_member(id, order@[j]);
            }
        }
        let parent = match &self.slots[id.slot as usize].data {
            Some(d) => d.parent,
            None => None,
        };
        let mut removed: Vec<(NodeId, P)> = Vec::new();
        let mut k: usize = 0;
        while k < order.len()
            invariant
                order@ == old_self.post_of(id),
                order@.no_duplicates(),
                forall|j: int| 0 <= j < order@.len() ==> old_self.live(#[trigger] order@[j]),
                0 <= k <= order@.len(),
                self.slots@.len() == old_self.slots@.len(),
                self.births == old_self.births,
                self.clock == old_self.clock,
                forall|j: int|
                    0 <= j < k ==> self.slots@[(#[trigger] order@[j]).slot as int] == (Slot::<P> {
                        generation: next_generation(old_self.slots@[order@[j].slot as int].generation),
                        data: None,
                    }),
                forall|s: int|
                    0 <= s < self.slots@.len() && (forall|j: int|
                        0 <= j < k ==> (#[trigger] order@[j]).slot != s) ==> self.slots@[s]
                        == old_self.slots@[s],
                self.free@ == old_self.free@ + order@.take(k as int).map_values(
                    |n: NodeId| n.slot as usize,
                ),
                removed@.len() == k,
                forall|j: int|
                    0 <= j < k ==> (#[trigger] removed@[j]).0 == order@[j] && removed@[j].1
                        == old_self.node(order@[j]).payload,
            decreases order@.len() - k,
        {
            let n = order[k];
            let sidx = n.slot as usize;
            proof {
                assert(old_self.live(n));
                assert forall|j: int| 0 <= j < k implies (#[trigger] order@[j]).slot != n.slot by {
                    if order@[j].slot == n.slot {
                        old_self.lemma_live_slot(order@[j], n);
                        assert(order@[j] == order@[k as int]);
                    }
                }
                assert(self.slots@[sidx as int] == old_self.slots@[sidx as int]);
            }
            let g = self.slots[sidx].generation;
            let ng = if g == u32::MAX {
                0
            } else {
                g + 1
            };
            let mut tmp = Slot { generation: ng, data: None };
            std::mem::swap(&mut self.slots[sidx], &mut tmp);
            match tmp.data {
                Some(d) => {
                    removed.push((n, d.payload));
                },
                None => {},
            }
            self.free.push(sidx);
            proof {
                let t = order@.take(k + 1).map_values(|m: NodeId| m.slot as usize);
                let t0 = order@.take(k as int).map_values(|m: NodeId| m.slot as usize);
                assert(t == t0.push(sidx));
            }
            k += 1;
            proof {
                assert forall|s: int|
                    0 <= s < self.slots@.len() && (forall|j: int|
                        0 <= j < k ==> (#[trigger] order@[j]).slot != s) implies self.slots@[s]
                    == old_self.slots@[s] by {
                    assert(order@[k - 1].slot != s);
                }
            }
        }
        let ghost freed = *self;
        proof {
            assert(order@.take(order@.len() as int) == order@);
        }
        if let Some(p) = parent {
            let pidx = p.slot as usize;
            match &mut self.slots[pidx].data {
                Some(pd) => {
                    let kept = without(&pd.children, id);
                    pd.children = kept;
                },
                None => {},
            }
        }
        proof {
            self.lemma_destroy_final(old_self, freed, id, order@, removed@);
        }
        removed
    }

    proof fn lemma_destroy_final(
        &self,
        old_self: Self,
        freed: Self,
        id: NodeId,
        order: Seq<NodeId>,
        removed: Seq<(NodeId, P)>,
    )
        requires
            old_self.wf(),
            old_self.live(id),
            order == old_self.post_of(id),
            order.no_duplicates(),
            forall|j: int| 0 <= j < order.len() ==> old_self.live(#[trigger] order[j]),
            freed.slots@.len() == old_self.slots@.len(),
            freed.births == old_self.births,
            freed.clock == old_self.clock,
            forall|j: int|
                0 <= j < order.len() ==> freed.slots@[(#[trigger] order[j]).slot as int] == (Slot::<
                    P,
                > {
                    generation: next_generation(old_self.slots@[order[j].slot as int].generation),
                    data: None,
                }),
            forall|s: int|
                0 <= s < freed.slots@.len() && (forall|j: int|
                    0 <= j < order.len() ==> (#[trigger] order[j]).slot != s) ==> freed.slots@[s]
                    == old_self.slots@[s],
            freed.free@ == old_self.free@ + order.map_values(|n: NodeId| n.slot as usize),
            removed.len() == order.len(),
            forall|j: int|
                0 <= j < order.len() ==> (#[trigger] removed[j]).0 == order[j] && removed[j].1
                    == old_self.node(order[j]).payload,
            self.births == freed.births,
            self.clock == freed.clock,
            self.free == freed.free,
            self.slots@.len() == freed.slots@.len(),
            match old_self.node(id).parent {
                None => self.slots@ == freed.slots@,
                Some(p) => {
                    &&& forall|s: int|
                        0 <= s < self.slots@.len() && s != p.slot ==> self.slots@[s]
                            == freed.slots@[s]
                    &&& self.slots@[p.slot as int].generation == freed.slots@[p.slot as int].generation
                    &&& (freed.slots@[p.slot as int].data is Some ==> {
                        &&& self.slots@[p.slot as int].data is Some
                        &&& self.slots@[p.slot as int].data->0.payload == freed.slots@[p.slot as int].data->0.payload
                        &&& self.slots@[p.slot as int].data->0.parent == freed.slots@[p.slot as int].data->0.parent
                        &&& self.slots@[p.slot as int].data->0.children@ == seq_without(
                            freed.slots@[p.slot as int].data->0.children@,
                            id,
                        )
                    })
                    &&& (freed.slots@[p.slot as int].data is None ==> self.slots@[p.slot as int]
                        == freed.slots@[p.slot as int])
                },
            },
        ensures
            self.wf(),
            removed_ids(removed) == order,
            order.len() > 0 && order.last() == id,
            forall|j: int|
                0 <= j < order.len() ==> old_self.nodes().contains_key(#[trigger] order[j]),
            forall|j: int, i: int|
                0 <= j < order.len() && 0 <= i < old_self.nodes()[order[j]].children.len()
                    ==> order.contains(#[trigger] old_self.nodes()[order[j]].children[i]),
            forall|j: int|
                0 <= j < order.len() && #[trigger] order[j] != id ==> (old_self.nodes()[order[j]].parent matches Some(
                    p,
                ) && order.contains(p)),
            forall|j: int|
                0 <= j < order.len() ==> (#[trigger] removed[j]).1 == old_self.nodes()[order[j]].payload,
            self.nodes() == view_after_destroy(old_self.nodes(), order.to_set(), id),
            self.free_slots() == old_self.free_slots() + order.map_values(
                |n: NodeId| n.slot as usize,
            ),
            self.generations().len() == old_self.generations().len(),
            forall|j: int|
                0 <= j < order.len() ==> self.generations()[(#[trigger] order[j]).slot as int]
                    == next_generation(old_self.generations()[order[j].slot as int]),
            forall|s: int|
                0 <= s < old_self.generations().len() && (forall|j: int|
                    0 <= j < order.len() ==> (#[trigger] order[j]).slot != s) ==> self.generations()[s]
                    == old_self.generations()[s],
    {
        let old_nodes = old_self.nodes();
        let ids = order;
        let pid = old_self.node(id).parent;
        // shape of the post-order list
        let ch = old_self.node(id).children;
        assert(order == old_self.post_list(ch, old_self.birth(id)).push(id));
        assert(removed_ids(removed) =~= order);
        assert forall|x: NodeId| #[trigger] order.contains(x) implies {
            &&& old_self.live(x)
            &&& old_self.birth(x) >= old_self.birth(id)
            &&& (x != id ==> (old_self.node(x).parent matches Some(q) && order.contains(q)))
            &&& forall|i: int|
                0 <= i < old_self.node(x).children.len() ==> order.contains(
                    #[trigger] old_self.node(x).children[i],
                )
        } by {
            old_self.lemma_post_of_member(id, x);
        }
        assert forall|j: int| 0 <= j < order.len() implies old_nodes.contains_key(
            #[trigger] order[j],
        ) by {
            assert(old_self.live(order[j]));
        }
        assert forall|j: int, i: int|
            0 <= j < order.len() && 0 <= i < old_nodes[order[j]].children.len() implies order.contains(
            #[trigger] old_nodes[order[j]].children[i],
        ) by {
            assert(order.contains(order[j]));
        }
        assert forall|j: int|
            0 <= j < order.len() && #[trigger] order[j] != id implies (old_nodes[order[j]].parent matches Some(
            q,
        ) && order.contains(q)) by {
            assert(order.contains(order[j]));
        }
        // slot bookkeeping
        assert forall|k: NodeId, j: int|
            #[trigger] old_self.live(k) && 0 <= j < order.len() && #[trigger] order[j].slot == k.slot implies k
            == order[j] by {
            old_self.lemma_live_slot(k, order[j]);
        }
        if let Some(p) = pid {
            assert(old_self.live(p));
            assert(!order.contains(p)) by {
                if order.contains(p) {
                    let cc = old_self.node(p).children;
                    let m = choose|m: int| 0 <= m < cc.len() && cc[m] == id;
                    assert(old_self.birth(cc[m]) > old_self.birth(p));
                }
            }
            assert forall|j: int| 0 <= j < order.len() implies (#[trigger] order[j]).slot != p.slot by {
                if order[j].slot == p.slot {
                    old_self.lemma_live_slot(p, order[j]);
                    assert(order.contains(order[j]));
                }
            }
        }
        let freed_slot = |s: int| exists|j: int| 0 <= j < order.len() && (#[trigger] order[j]).slot == s;
        // every slot is either freed (and empty) or has its old shape, up to p's children
        assert forall|s: int| 0 <= s < self.slots@.len() && !freed_slot(s) implies {
            &&& self.slots@[s].generation == old_self.slots@[s].generation
            &&& (self.slots@[s].data is Some <==> old_self.slots@[s].data is Some)
            &&& (pid != Some(NodeId { slot: s as u32, generation: self.slots@[s].generation })
                ==> self.slots@[s] == old_self.slots@[s])
        } by {
            assert forall|j: int| 0 <= j < order.len() implies (#[trigger] order[j]).slot != s by {}
            assert(freed.slots@[s] == old_self.slots@[s]);
            if let Some(p) = pid {
                if s != p.slot {
                    assert(self.slots@[s] == freed.slots@[s]);
                } else {
                    assert(old_self.slots@[s].data is Some);
                }
            }
        }
        assert forall|j: int| 0 <= j < order.len() implies #[trigger] self.slots@[order[j].slot as int] == (Slot::<P> {
            generation: next_generation(old_self.slots@[order[j].slot as int].generation),
            data: None,
        }) by {
            if let Some(p) = pid {
                assert(order[j].slot != p.slot);
            }
        }
        // liveness
        assert forall|k: NodeId| #[trigger] self.live(k) <==> (old_self.live(k) && !order.contains(k)) by {
            if (k.slot as int) < self.slots@.len() {
                if freed_slot(k.slot as int) {
                    let j = choose|j: int| 0 <= j < order.len() && (#[trigger] order[j]).slot == k.slot;
                    assert(self.slots@[order[j].slot as int].data is None);
                    if old_self.live(k) {
                        assert(k == order[j]);
                        assert(order.contains(k));
                    }
                } else {
                    if order.contains(k) {
                        let j = choose|j: int| 0 <= j < order.len() && order[j] == k;
                        assert(order[j].slot == k.slot);
                    }
                }
            }
        }
        // node values
        assert forall|k: NodeId| #[trigger] self.live(k) && pid != Some(k) implies self.node(k)
            == old_self.node(k) by {
            assert(!freed_slot(k.slot as int)) by {
                if freed_slot(k.slot as int) {
                    let j = choose|j: int| 0 <= j < order.len() && (#[trigger] order[j]).slot == k.slot;
                    assert(self.slots@[order[j].slot as int].data is None);
                }
            }
            if let Some(p) = pid {
                if k.slot == p.slot {
                    assert(k.generation == p.generation);
                }
            }
        }
        if let Some(p) = pid {
            assert(self.live(p));
            lemma_seq_without(old_self.node(p).children, id);
            assert(self.node(p).children == seq_without(old_self.node(p).children, id));
            assert(self.node(p).payload == old_self.node(p).payload);
            assert(self.node(p).parent == old_self.node(p).parent);
        }
        assert(self.nodes() =~= view_after_destroy(old_nodes, order.to_set(), id)) by {
            assert forall|k: NodeId| #[trigger] self.nodes().contains_key(k) <==> view_after_destroy(
                old_nodes,
                order.to_set(),
                id,
            ).contains_key(k) by {
                if let Some(p) = pid {
                    if k == p {
                        assert(!order.contains(p));
                    }
                }
            }
        }
        // generations
        assert(self.generations().len() == old_self.generations().len());
        assert forall|j: int| 0 <= j < order.len() implies self.generations()[(#[trigger] order[j]).slot as int]
            == next_generation(old_self.generations()[order[j].slot as int]) by {
            assert(self.slots@[order[j].slot as int].generation == next_generation(old_self.slots@[order[j].slot as int].generation));
        }
        assert forall|s: int|
            0 <= s < old_self.generations().len() && (forall|j: int|
                0 <= j < order.len() ==> (#[trigger] order[j]).slot != s) implies self.generations()[s]
            == old_self.generations()[s] by {
            assert(!freed_slot(s));
        }
        // well-formedness of the result
        let fresh = order.map_values(|n: NodeId| n.slot as usize);
        assert forall|i: int| 0 <= i < self.free@.len() implies {
            &&& (self.free@[i] as int) < self.shape().len()
            &&& self.shape()[self.free@[i] as int].links is None
        } by {
            if i < old_self.free@.len() {
                assert(self.free@[i] == old_self.free@[i]);
                let s = self.free@[i] as int;
                assert(old_self.shape()[s].links is None);
                if freed_slot(s) {
                } else {
                }
            } else {
                let j = i - old_self.free@.len();
                assert(self.free@[i] == fresh[j]);
                assert(fresh[j] == order[j].slot as usize);
            }
        }
        assert(self.free@.no_duplicates()) by {
            assert forall|a: int, b: int| 0 <= a < b < self.free@.len() implies self.free@[a]
                != self.free@[b] by {
                let ol = old_self.free@.len() as int;
                if b < ol {
                } else if a < ol {
                    let jb = b - ol;
                    assert(self.free@[b] == order[jb].slot as usize);
                    assert(old_self.live(order[jb]));
                    assert(self.free@[a] == old_self.free@[a]);
                    assert(old_self.shape()[old_self.free@[a] as int].links is None);
                } else {
                    let ja = a - ol;
                    let jb = b - ol;
                    assert(self.free@[a] == order[ja].slot as usize);
                    assert(self.free@[b] == order[jb].slot as usize);
                    if order[ja].slot == order[jb].slot {
                        old_self.lemma_live_slot(order[ja], order[jb]);
                    }
                }
            }
        }
        assert forall|k: NodeId| #[trigger] self.live(k) implies self.birth(k) < self.clock@ by {
            assert(old_self.live(k));
        }
        assert forall|k: NodeId, i: int|
            self.live(k) && 0 <= i < self.node(k).children.len() implies {
            &&& self.live(self.node(k).children[i])
            &&& self.node(self.node(k).children[i]).parent == Some(k)
            &&& self.birth(self.node(k).children[i]) > self.birth(k)
        } by {
            let c = self.node(k).children[i];
            assert(old_self.live(k));
            if pid == Some(k) {
                lemma_seq_without(old_self.node(k).children, id);
                assert(self.node(k).children.contains(c));
                assert(old_self.node(k).children.contains(c) && c != id);
                let m = choose|m: int| 0 <= m < old_self.node(k).children.len() && old_self.node(k).children[m] == c;
                assert(old_self.live(c));
                if order.contains(c) {
                    assert(order.contains(k));
                }
                assert(self.live(c));
                assert(pid != Some(c));
            } else {
                assert(self.node(k) == old_self.node(k));
                assert(old_self.live(c));
                if order.contains(c) {
                    if c == id {
                        assert(old_self.node(c).parent == Some(k));
                    } else {
                        assert(order.contains(k));
                    }
                }
                assert(self.live(c));
                if pid == Some(c) {
                } else {
                    assert(self.node(c) == old_self.node(c));
                }
            }
        }
        assert forall|k: NodeId| #[trigger]
            self.live(k) && self.node(k).parent is Some implies {
            &&& self.live(self.node(k).parent->0)
            &&& self.node(self.node(k).parent->0).children.contains(k)
        } by {
            assert(old_self.live(k));
            let q = old_self.node(k).parent->0;
            if pid != Some(k) {
                assert(self.node(k) == old_self.node(k));
            }
            assert(old_self.live(q));
            if order.contains(q) {
                let cc = old_self.node(q).children;
                let m = choose|m: int| 0 <= m < cc.len() && cc[m] == k;
                assert(order.contains(cc[m]));
            }
            assert(self.live(q));
            if pid == Some(q) {
                lemma_seq_without(old_self.node(q).children, id);
                assert(order[order.len() - 1] == id);
                assert(order.contains(id));
                assert(k != id);
            } else {
                assert(self.node(q) == old_self.node(q));
            }
        }
        assert forall|k: NodeId| #[trigger] self.live(k) implies self.node(k).children.no_duplicates() by {
            assert(old_self.live(k));
            if pid == Some(k) {
                lemma_seq_without(old_self.node(k).children, id);
            } else {
                assert(self.node(k) == old_self.node(k));
            }
        }
    }
}

impl<P> Graph<P> {
    proof fn lemma_pre_list_member(&self, ids: Seq<NodeId>, pb: nat, x: NodeId)
        ensures
            self.pre_list(ids, pb).contains(x) <==> exists|j: int|
                0 <= j < ids.len() && self.enters(ids[j], pb) && #[trigger] self.pre_of(
                    ids[j],
                ).contains(x),
        decreases ids.len(),
    {
        if ids.len() > 0 {
            self.lemma_pre_list_member(ids.drop_last(), pb, x);
            let rest = self.pre_list(ids.drop_last(), pb);
            if self.pre_list(ids, pb).contains(x) {
                if rest.contains(x) {
                    let j = choose|j: int|
                        0 <= j < ids.drop_last().len() && self.enters(ids.drop_last()[j], pb)
                            && #[trigger] self.pre_of(ids.drop_last()[j]).contains(x);
                    assert(ids[j] == ids.drop_last()[j]);
                } else {
                    assert(self.enters(ids.last(), pb));
                    assert(self.pre_of(ids[ids.len() - 1]).contains(x));
                }
            }
            if exists|j: int|
                0 <= j < ids.len() && self.enters(ids[j], pb) && #[trigger] self.pre_of(
                    ids[j],
                ).contains(x) {
                let j = choose|j: int|
                    0 <= j < ids.len() && self.enters(ids[j], pb) && #[trigger] self.pre_of(
                        ids[j],
                    ).contains(x);
                if j < ids.len() - 1 {
                    assert(ids.drop_last()[j] == ids[j]);
                    assert(rest.contains(x));
                    let k = choose|k: int| 0 <= k < rest.len() && rest[k] == x;
                    assert((rest + self.pre_of(ids.last()))[k] == x);
                } else {
                    let k = choose|k: int|
                        0 <= k < self.pre_of(ids.last()).len() && self.pre_of(ids.last())[k]
                            == x;
                    assert((rest + self.pre_of(ids.last()))[rest.len() + k] == x);
                }
            }
        }
    }

    /// Pre-order and post-order list the same nodes.
    proof fn lemma_pre_post_same(&self, n: NodeId, x: NodeId)
        ensures
            self.pre_of(n).contains(x) <==> self.post_of(n).contains(x),
        decreases (self.clock@ - self.birth(n)) as nat,
    {
        if self.live(n) && self.birth(n) < self.clock@ {
            let ch = self.node(n).children;
            let pb = self.birth(n);
            let pre = self.pre_list(ch, pb);
            let post = self.post_list(ch, pb);
            self.lemma_pre_list_member(ch, pb, x);
            self.lemma_post_list_member(ch, pb, x);
            assert forall|j: int| 0 <= j < ch.len() && self.enters(ch[j], pb) implies (
            #[trigger] self.pre_of(ch[j]).contains(x) <==> self.post_of(ch[j]).contains(x)) by {
                self.lemma_pre_post_same(ch[j], x);
            }
            assert(self.pre_of(n) == seq![n] + pre);
            assert(self.post_of(n) == post.push(n));
            if pre.contains(x) {
                let j = choose|j: int|
                    0 <= j < ch.len() && self.enters(ch[j], pb) && #[trigger] self.pre_of(ch[j]).contains(x);
                assert(self.post_of(ch[j]).contains(x));
                assert(post.contains(x));
            }
            if post.contains(x) {
                let j = choose|j: int|
                    0 <= j < ch.len() && self.enters(ch[j], pb) && #[trigger] self.post_of(ch[j]).contains(x);
                assert(self.pre_of(ch[j]).contains(x));
                assert(pre.contains(x));
            }
            assert(self.pre_of(n).contains(x) <==> (x == n || pre.contains(x))) by {
                if self.pre_of(n).contains(x) && x != n {
                    let k = choose|k: int| 0 <= k < self.pre_of(n).len() && self.pre_of(n)[k] == x;
                    assert(pre[k - 1] == x);
                }
                if pre.contains(x) {
                    let k = choose|k: int| 0 <= k < pre.len() && pre[k] == x;
                    assert(self.pre_of(n)[k + 1] == x);
                }
                assert(self.pre_of(n)[0] == n);
            }
            assert(self.post_of(n).contains(x) <==> (x == n || post.contains(x))) by {
                if self.post_of(n).contains(x) && x != n {
                    let k = choose|k: int| 0 <= k < self.post_of(n).len() && self.post_of(n)[k] == x;
                    assert(post[k] == x);
                }
                if post.contains(x) {
                    let k = choose|k: int| 0 <= k < post.len() && post[k] == x;
                    assert(self.post_of(n)[k] == x);
                }
                assert(self.post_of(n)[post.len() as int] == n);
            }
        }
    }

    proof fn lemma_roots_member(&self, roots: Seq<NodeId>, x: NodeId)
        ensures
            self.preorder_of_roots(roots).contains(x) <==> exists|j: int|
                0 <= j < roots.len() && #[trigger] self.post_of(roots[j]).contains(x),
        decreases roots.len(),
    {
        if roots.len() > 0 {
            self.lemma_roots_member(roots.drop_last(), x);
            self.lemma_pre_post_same(roots.last(), x);
            let rest = self.preorder_of_roots(roots.drop_last());
            let tail = self.pre_of(roots.last());
            assert((rest + tail).contains(x) <==> (rest.contains(x) || tail.contains(x))) by {
                if (rest + tail).contains(x) {
                    let k = choose|k: int| 0 <= k < (rest + tail).len() && (rest + tail)[k] == x;
                    if k < rest.len() {
                        assert(rest[k] == x);
                    } else {
                        assert(tail[k - rest.len()] == x);
                    }
                }
                if rest.contains(x) {
                    let k = choose|k: int| 0 <= k < rest.len() && rest[k] == x;
                    assert((rest + tail)[k] == x);
                }
                if tail.contains(x) {
                    let k = choose|k: int| 0 <= k < tail.len() && tail[k] == x;
                    assert((rest + tail)[rest.len() + k] == x);
                }
            }
            if exists|j: int| 0 <= j < roots.len() && #[trigger] self.post_of(roots[j]).contains(x) {
                let j = choose|j: int| 0 <= j < roots.len() && #[trigger] self.post_of(roots[j]).contains(x);
                if j < roots.len() - 1 {
                    assert(roots.drop_last()[j] == roots[j]);
                }
            }
            if rest.contains(x) {
                let j = choose|j: int|
                    0 <= j < roots.drop_last().len() && #[trigger] self.post_of(roots.drop_last()[j]).contains(x);
                assert(roots[j] == roots.drop_last()[j]);
            }
        }
    }

    /// Closure facts of a hard-link subtree: it holds `id` (last), only
    /// live nodes, every child of a member, and the parent of every
    /// member other than `id`; no node is listed twice.
    pub proof fn lemma_subtree_postorder(&self, id: NodeId)
        requires
            self.wf(),
            self.nodes().contains_key(id),
        ensures
            ({
                let ids = self.subtree_postorder(id);
                let nodes = self.nodes();
                &&& ids.no_duplicates()
                &&& ids.len() > 0 && ids.last() == id
                &&& forall|x: NodeId| #[trigger] ids.contains(x) ==> nodes.contains_key(x)
                &&& forall|x: NodeId, i: int|
                    ids.contains(x) && 0 <= i < nodes[x].children.len() ==> ids.contains(
                        #[trigger] nodes[x].children[i],
                    )
                &&& forall|x: NodeId|
                    #[trigger] ids.contains(x) && x != id ==> (nodes[x].parent matches Some(p)
                        && ids.contains(p))
            }),
    {
        let ids = self.post_of(id);
        self.lemma_post_no_dup(id);
        assert(ids == self.post_list(self.node(id).children, self.birth(id)).push(id));
        assert forall|x: NodeId| #[trigger] ids.contains(x) implies {
            &&& self.live(x)
            &&& (x != id ==> (self.node(x).parent matches Some(q) && ids.contains(q)))
            &&& forall|i: int|
                0 <= i < self.node(x).children.len() ==> ids.contains(
                    #[trigger] self.node(x).children[i],
                )
        } by {
            self.lemma_post_of_member(id, x);
        }
    }

    /// Pre-order traversal of the hard-link subtrees rooted at `roots`,
    /// visiting one file's nodes without touching the rest of the arena.
    /// Stale roots are skipped.
    pub fn descendants<'a>(&'a self, roots: &[NodeId]) -> (d: Descendants<'a, P>)
        requires
            self.wf(),
        ensures
            d.wf(),
            d.graph_nodes() == self.nodes(),
            d.remaining() == self.preorder_of_roots(roots@),
            forall|x: NodeId| #[trigger]
                d.remaining().contains(x) <==> exists|j: int|
                    0 <= j < roots@.len() && #[trigger] self.subtree_postorder(roots@[j]).contains(x),
    {
        let mut order: Vec<NodeId> = Vec::new();
        let mut i: usize = 0;
        while i < roots.len()
            invariant
                self.wf(),
                0 <= i <= roots@.len(),
                order@ == self.preorder_of_roots(roots@.take(i as int)),
            decreases roots@.len() - i,
        {
            let r = roots[i];
            proof {
                assert(roots@.take(i + 1).drop_last() == roots@.take(i as int));
                assert(roots@.take(i + 1).last() == r);
            }
            if self.contains(r) {
                self.collect_pre(r, &mut order);
            } else {
                proof {
                    assert(self.pre_of(r) == Seq::<NodeId>::empty());
                }
            }
            i += 1;
        }
        proof {
            assert(roots@.take(roots@.len() as int) == roots@);
            assert forall|k: int| 0 <= k < order@.len() implies self.live(#[trigger] order@[k]) by {
                let x = order@[k];
                assert(order@.contains(x));
                self.lemma_roots_member(roots@, x);
                let j = choose|j: int| 0 <= j < roots@.len() && #[trigger] self.post_of(roots@[j]).contains(x);
                self.lemma_post_of_member(roots@[j], x);
            }
            assert forall|x: NodeId| #[trigger] order@.contains(x) <==> exists|j: int|
                0 <= j < roots@.len() && #[trigger] self.subtree_postorder(roots@[j]).contains(x) by {
                self.lemma_roots_member(roots@, x);
                if order@.contains(x) {
                    let j = choose|j: int| 0 <= j < roots@.len() && #[trigger] self.post_of(roots@[j]).contains(x);
                    assert(self.subtree_postorder(roots@[j]).contains(x));
                }
                if exists|j: int| 0 <= j < roots@.len() && #[trigger] self.subtree_postorder(roots@[j]).contains(x) {
                    let j = choose|j: int| 0 <= j < roots@.len() && #[trigger] self.subtree_postorder(roots@[j]).contains(x);
                    assert(self.post_of(roots@[j]).contains(x));
                }
            }
        }
        Descendants { graph: self, order, pos: 0 }
    }

    /// Every live node with its data, by ascending slot index. For
    /// inspection and debugging; semantic lookups go through registries.
    pub fn iter(&self) -> (r: Vec<(NodeId, &NodeData<P>)>)
        requires
            self.wf(),
        ensures
            forall|j: int|
                0 <= j < r@.len() ==> #[trigger] self.nodes().contains_key(r@[j].0) && node_view(
                    *r@[j].1,
                ) == self.nodes()[r@[j].0],
            forall|j: int, k: int| 0 <= j < k < r@.len() ==> r@[j].0.slot < r@[k].0.slot,
            forall|id: NodeId|
                #[trigger] self.nodes().contains_key(id) ==> exists|j: int|
                    0 <= j < r@.len() && r@[j].0 == id,
    {
        let mut r: Vec<(NodeId, &NodeData<P>)> = Vec::new();
        let mut i: usize = 0;
        let n = self.slots.len();
        while i < n
            invariant
                n == self.slots@.len(),
                self.wf(),
                0 <= i <= n,
                forall|j: int| 0 <= j < r@.len() ==> self.live(#[trigger] r@[j].0),
                forall|j: int| 0 <= j < r@.len() ==> node_view(*(#[trigger] r@[j]).1) == self.node(r@[j].0),
                forall|j: int| 0 <= j < r@.len() ==> ((#[trigger] r@[j]).0.slot as int) < i,
                forall|j: int, k: int| 0 <= j < k < r@.len() ==> r@[j].0.slot < r@[k].0.slot,
                forall|id: NodeId|
                    #[trigger] self.live(id) && (id.slot as int) < i ==> exists|j: int|
                        0 <= j < r@.len() && r@[j].0 == id,
            decreases n - i,
        {
            let slot = &self.slots[i];
            let ghost r_old = r@;
            match &slot.data {
                Some(d) => {
                    let id = NodeId { slot: i as u32, generation: slot.generation };
                    assert(id.slot as int == i);
                    proof {
                        assert(self.live(id));
                        assert(node_view(*d) == self.node(id));
                    }
                    r.push((id, d));
                    proof {
                        assert(r@[r@.len() - 1] == (id, d));
                        assert forall|j: int| 0 <= j < r_old.len() implies r@[j] == r_old[j] by {}
                        assert forall|j: int, k: int| 0 <= j < k < r@.len() implies r@[j].0.slot
                            < r@[k].0.slot by {
                            assert(r@[j] == r_old[j]);
                            if k < r_old.len() {
                                assert(r@[k] == r_old[k]);
                            }
                        }
                    }
                },
                None => {},
            }
            proof {
                assert forall|id: NodeId|
                    #[trigger] self.live(id) && (id.slot as int) < i + 1 implies exists|j: int|
                        0 <= j < r@.len() && r@[j].0 == id by {
                    if id.slot as int == i {
                        assert(r@[r@.len() - 1].0 == id);
                    } else {
                        let j = choose|j: int| 0 <= j < r_old.len() && r_old[j].0 == id;
                        assert(r@[j] == r_old[j]);
                    }
                }
            }
            i += 1;
        }
        proof {
            assert forall|j: int| 0 <= j < r@.len() implies #[trigger] self.nodes().contains_key(r@[j].0)
                && node_view(*r@[j].1) == self.nodes()[r@[j].0] by {
                assert(self.live(r@[j].0));
            }
        }
        r
    }
}

/// Pre-order iterator over hard-link subtrees (see [`Graph::descendants`]).
pub struct Descendants<'a, P> {
    graph: &'a Graph<P>,
    order: Vec<NodeId>,
    pos: usize,
}

impl<'a, P> Descendants<'a, P> {
    pub closed spec fn wf(&self) -> bool {
        &&& self.pos <= self.order@.len()
        &&& forall|k: int| 0 <= k < self.order@.len() ==> self.graph.live(#[trigger] self.order@[k])
    }

    pub closed spec fn graph_nodes(&self) -> Map<NodeId, NodeView<P>> {
        self.graph.nodes()
    }

    /// Ids still to be visited, in visit order.
    pub closed spec fn remaining(&self) -> Seq<NodeId> {
        self.order@.skip(self.pos as int)
    }

    /// The next node of the walk, if any.
    pub fn next(&mut self) -> (r: Option<(NodeId, &'a NodeData<P>)>)
        requires
            old(self).wf(),
        ensures
            final(self).wf(),
            final(self).graph_nodes() == old(self).graph_nodes(),
            old(self).remaining().len() == 0 ==> r is None && final(self).remaining() == old(
                self,
            ).remaining(),
            old(self).remaining().len() > 0 ==> {
                &&& final(self).remaining() == old(self).remaining().drop_first()
                &&& r matches Some(e) && e.0 == old(self).remaining()[0] && node_view(*e.1)
                    == old(self).graph_nodes()[e.0]
            },
    {
        if self.pos >= self.order.len() {
            return None;
        }
        let id = self.order[self.pos];
        self.pos = self.pos + 1;
        proof {
            assert(self.order@.skip(self.pos as int) == old(self).order@.skip(old(self).pos as int).drop_first());
        }
        match self.graph.get(id) {
            Some(d) => Some((id, d)),
            None => None,
        }
    }
}
} // verus!
