//! The whole-world facade: one graph of union payloads and the registries
//! that index it.
use vstd::prelude::*;

use crate::graph::arena::{removed_ids, view_after_destroy, Graph, NodeId, NodeView};
use crate::multi_query::{changed_along, changed_at, changed_through, slot_providers};
use crate::payload::{providers_after, KeySlot, NodePayload, Registration};
use crate::registries::Registries;

verus! {

/// The slots of a list of registrations.
pub open spec fn slots_of_regs(regs: Seq<Registration>) -> Seq<KeySlot> {
    regs.map_values(|r: Registration| r.slot())
}

/// The test "is a registration of one of `ids`".
pub open spec fn of_nodes(ids: Seq<NodeId>) -> spec_fn(Registration) -> bool {
    |r: Registration| ids.contains(r.node())
}

/// The test "is a registration of none of `ids`".
pub open spec fn not_of_nodes(ids: Seq<NodeId>) -> spec_fn(Registration) -> bool {
    |r: Registration| !ids.contains(r.node())
}

pub struct Beans {
    pub graph: Graph<NodePayload>,
    pub registries: Registries,
}

impl Beans {
    pub open spec fn wf(&self) -> bool {
        self.graph.wf() && self.registries.wf()
    }

    /// An empty graph and empty registries.
    pub fn new() -> (b: Beans)
        ensures
            b.wf(),
            b.graph.nodes() == Map::<NodeId, NodeView<NodePayload>>::empty(),
            forall|k: Seq<char>| b.registries.jvm_types.providers_of(k) == Seq::<NodeId>::empty(),
            forall|k: Seq<char>| b.registries.java_symbols.providers_of(k) == Seq::<NodeId>::empty(),
    {
        Beans { graph: Graph::new(), registries: Registries::new() }
    }

    /// Destroy the hard-link subtree of `id` and release, out of `held`,
    /// every registration made for one of the destroyed nodes, in `held`'s
    /// order; the other registrations stay in `held`, in order. Returns
    /// the destroyed nodes and their payloads, as [`Graph::destroy`] does.
    pub fn destroy(&mut self, id: NodeId, held: &mut Vec<Registration>) -> (removed: Vec<(NodeId, NodePayload)>)
        requires
            old(self).wf(),
        ensures
            final(self).wf(),
            !old(self).graph.nodes().contains_key(id) ==> removed@.len() == 0 && final(self).graph.nodes()
                == old(self).graph.nodes(),
            old(self).graph.nodes().contains_key(id) ==> {
                &&& removed_ids(removed@) == old(self).graph.subtree_postorder(id)
                &&& final(self).graph.nodes() == view_after_destroy(
                    old(self).graph.nodes(),
                    removed_ids(removed@).to_set(),
                    id,
                )
            },
            final(held)@ == old(held)@.filter(not_of_nodes(removed_ids(removed@))),
            forall|s: KeySlot|
                #![trigger slot_providers(final(self).registries, s)]
                slot_providers(final(self).registries, s) == providers_after(
                    slot_providers(old(self).registries, s),
                    old(held)@.filter(of_nodes(removed_ids(removed@))),
                    s,
                ),
            changed_along(
                old(self).registries,
                final(self).registries,
                slots_of_regs(old(held)@.filter(of_nodes(removed_ids(removed@)))),
            ),
    {
        let removed = self.graph.destroy(id);
        let ghost ids = removed_ids(removed@);
        let mut gone: Vec<NodeId> = Vec::new();
        let mut i: usize = 0;
        while i < removed.len()
            invariant
                i <= removed@.len(),
                ids == removed_ids(removed@),
                gone@ == ids.take(i as int),
            decreases removed.len() - i,
        {
            gone.push(removed[i].0);
            i += 1;
            proof {
                assert(gone@ =~= ids.take(i as int));
            }
        }
        proof {
            assert(gone@ =~= ids);
        }
        let ghost all = held@;
        let ghost start = self.registries;
        let ghost rel = of_nodes(ids);
        let ghost keep = not_of_nodes(ids);
        let ghost g_after = self.graph;
        let mut regs: Vec<Registration> = Vec::new();
        std::mem::swap(&mut regs, held);
        let mut kept: Vec<Registration> = Vec::new();
        let ghost mut states: Seq<Registries> = seq![start];
        proof {
            reveal(Seq::filter);
            assert(all.take(0) =~= Seq::<Registration>::empty());
            assert forall|s: KeySlot| #[trigger] slot_providers(self.registries, s) == providers_after(slot_providers(start, s), all.take(0).filter(rel), s) by {}
            assert(slots_of_regs(all.take(0).filter(rel)) =~= Seq::<KeySlot>::empty());
            assert(changed_through(states, slots_of_regs(all.take(0).filter(rel))));
        }
        for r in it: regs.into_iter()
            invariant
                it.seq() == all,
                gone@ == ids,
                ids == removed_ids(removed@),
                rel == of_nodes(ids),
                keep == not_of_nodes(ids),
                self.registries.wf(),
                self.graph == g_after,
                g_after.wf(),
                kept@ == all.take(it.index() as int).filter(keep),
                forall|s: KeySlot|
                    #![trigger slot_providers(self.registries, s)]
                    slot_providers(self.registries, s) == providers_after(
                        slot_providers(start, s),
                        all.take(it.index() as int).filter(rel),
                        s,
                    ),
                changed_through(states, slots_of_regs(all.take(it.index() as int).filter(rel))),
                states[0] == start,
                states.last() == self.registries,
        {
            let ghost n = it.index() as int;
            let ghost before = self.registries;
            proof {
                reveal(Seq::filter);
                assert(all.take(n + 1).drop_last() =~= all.take(n));
                assert(all.take(n + 1).last() == r);
            }
            let node = r.node_id();
            let mut hit = false;
            let mut j: usize = 0;
            while j < gone.len()
                invariant
                    j <= gone@.len(),
                    hit == gone@.take(j as int).contains(node),
                decreases gone.len() - j,
            {
                proof {
                    assert(gone@.take(j + 1) =~= gone@.take(j as int).push(gone@[j as int]));
                }
                if gone[j] == node {
                    hit = true;
                }
                proof {
                    if gone@[j as int] == node {
                        assert(gone@.take(j + 1)[j as int] == node);
                    }
                    if gone@.take(j + 1).contains(node) && gone@[j as int] != node {
                        let q = choose|q: int| 0 <= q < j + 1 && #[trigger] gone@.take(j + 1)[q] == node;
                        assert(gone@.take(j as int)[q] == node);
                    }
                }
                j += 1;
            }
            proof {
                assert(gone@.take(gone@.len() as int) =~= gone@);
            }
            proof {
                assert(rel(r) == hit);
                assert(keep(r) == !hit);
            }
            if hit {
                let ghost done = all.take(n).filter(rel);
                self.registries.release(r);
                proof {
                    let sl = slots_of_regs(done);
                    let sl2 = slots_of_regs(done.push(r));
                    assert(sl2 =~= sl.push(r.slot()));
                    let states2 = states.push(self.registries);
                    assert forall|i: int| 0 <= i < sl2.len() implies changed_at(states2[i], states2[i + 1], #[trigger] sl2[i]) by {
                        if i < sl.len() {
                            assert(sl2[i] == sl[i]);
                            assert(changed_at(states[i], states[i + 1], sl[i]));
                        }
                    }
                    states = states2;
                    let t = all.take(n + 1).filter(rel);
                    assert(t == all.take(n).filter(rel).push(r));
                    assert(t.drop_last() =~= all.take(n).filter(rel));
                    assert(all.take(n + 1).filter(keep) == all.take(n).filter(keep));
                }
            } else {
                kept.push(r);
                proof {
                    assert(all.take(n + 1).filter(rel) == all.take(n).filter(rel));
                    assert(all.take(n + 1).filter(keep) == all.take(n).filter(keep).push(r));
                }
            }
        }
        proof {
            assert(all.take(all.len() as int) =~= all);
            assert(changed_through(states, slots_of_regs(all.filter(rel))));
        }
        *held = kept;
        removed
    }
}

impl Default for Beans {
    fn default() -> (b: Beans)
        ensures
            b.wf(),
    {
        Beans::new()
    }
}

} // verus!
