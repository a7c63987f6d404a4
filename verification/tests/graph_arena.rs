use beans_core::graph::{Graph, NodeId};

struct TestNode {
    name: &'static str,
}

impl TestNode {
    fn new(name: &'static str) -> Self {
        Self { name }
    }
}

#[test]
fn arena_insert_and_lookup() {
    let mut graph: Graph<TestNode> = Graph::new();
    let id = graph.insert(TestNode::new("alpha"), None);

    let node = graph.get(id).expect("node should exist");
    assert_eq!(node.payload.name, "alpha");
    assert_eq!(node.parent, None);
    assert!(node.children.is_empty());

    assert_eq!(graph.get(id).unwrap().payload.name, "alpha");
    assert_eq!(id.slot, 0);
    assert_eq!(id.generation, 0);
}

#[test]
fn arena_hard_link_cascade() {
    let mut graph: Graph<TestNode> = Graph::new();
    let parent = graph.insert(TestNode::new("parent"), None);
    let child = graph.insert(TestNode::new("child"), Some(parent));
    let grandchild = graph.insert(TestNode::new("grandchild"), Some(child));

    assert_eq!(graph.get(parent).unwrap().children, vec![child]);
    assert_eq!(graph.get(child).unwrap().children, vec![grandchild]);
    assert_eq!(graph.get(grandchild).unwrap().parent, Some(child));

    graph.destroy(parent);

    assert!(!graph.contains(parent));
    assert!(!graph.contains(child));
    assert!(!graph.contains(grandchild));
}

#[test]
fn free_list_reuses_slots_with_bumped_generation() {
    let mut graph: Graph<TestNode> = Graph::new();

    let a = graph.insert(TestNode::new("a"), None);
    let b = graph.insert(TestNode::new("b"), None);
    let c = graph.insert(TestNode::new("c"), None);

    assert_eq!((a.slot, a.generation), (0, 0));
    assert_eq!((b.slot, b.generation), (1, 0));
    assert_eq!((c.slot, c.generation), (2, 0));

    graph.destroy(b);
    assert!(!graph.contains(b));

    let d = graph.insert(TestNode::new("d"), None);
    assert_eq!(d.slot, 1, "slot recycled");
    assert_eq!(d.generation, 1, "generation bumped on reuse");
    assert_eq!(graph.get(d).unwrap().payload.name, "d");

    assert!(graph.get(b).is_none(), "stale NodeId does not alias new occupant");

    assert_eq!(graph.get(a).unwrap().payload.name, "a");
    assert_eq!(graph.get(c).unwrap().payload.name, "c");
}

#[test]
fn arena_destroyed_subtree_detaches_from_parent() {
    let mut graph: Graph<TestNode> = Graph::new();
    let parent = graph.insert(TestNode::new("p"), None);
    let child_a = graph.insert(TestNode::new("a"), Some(parent));
    let child_b = graph.insert(TestNode::new("b"), Some(parent));

    assert_eq!(graph.get(parent).unwrap().children, vec![child_a, child_b]);

    graph.destroy(child_a);

    assert!(graph.contains(parent));
    assert!(!graph.contains(child_a));
    assert_eq!(graph.get(parent).unwrap().children, vec![child_b]);
}

#[test]
fn stale_id_does_not_resolve_after_destroy() {
    let mut graph: Graph<TestNode> = Graph::new();
    let stale = graph.insert(TestNode::new("first"), None);

    graph.destroy(stale);
    assert!(graph.get(stale).is_none());

    let _replacement = graph.insert(TestNode::new("second"), None);
    assert!(graph.get(stale).is_none(), "stale id must not resolve to replacement");
}

#[test]
fn tests_insert_and_lookup() {
    let mut graph: Graph<TestNode> = Graph::new();
    let id = graph.insert(TestNode::new("alpha"), None);

    let node = graph.get(id).expect("node should exist");
    assert_eq!(node.payload.name, "alpha");
    assert_eq!(node.parent, None);
    assert!(node.children.is_empty());

    assert_eq!(graph.get(id).unwrap().payload.name, "alpha");
    assert_eq!(id, NodeId::placeholder(0));
}

#[test]
fn tests_hard_link_cascade() {
    let mut graph: Graph<TestNode> = Graph::new();
    let parent = graph.insert(TestNode::new("parent"), None);
    let child = graph.insert(TestNode::new("child"), Some(parent));
    let grandchild = graph.insert(TestNode::new("grandchild"), Some(child));

    assert_eq!(graph.get(parent).unwrap().children, vec![child]);
    assert_eq!(graph.get(child).unwrap().children, vec![grandchild]);
    assert_eq!(graph.get(grandchild).unwrap().parent, Some(child));

    graph.destroy(parent);

    assert!(!graph.contains(parent));
    assert!(!graph.contains(child));
    assert!(!graph.contains(grandchild));
}

#[test]
fn free_list_reuses_slots() {
    let mut graph: Graph<TestNode> = Graph::new();

    let a = graph.insert(TestNode::new("a"), None);
    let b = graph.insert(TestNode::new("b"), None);
    let c = graph.insert(TestNode::new("c"), None);

    assert_eq!(a, NodeId::placeholder(0));
    assert_eq!(b, NodeId::placeholder(1));
    assert_eq!(c, NodeId::placeholder(2));

    graph.destroy(b);
    assert!(!graph.contains(b));

    let d = graph.insert(TestNode::new("d"), None);
    assert_eq!(d.slot, 1);
    assert_eq!(graph.get(d).unwrap().payload.name, "d");

    assert_eq!(graph.get(a).unwrap().payload.name, "a");
    assert_eq!(graph.get(c).unwrap().payload.name, "c");
}

#[test]
fn tests_destroyed_subtree_detaches_from_parent() {
    let mut graph: Graph<TestNode> = Graph::new();
    let parent = graph.insert(TestNode::new("p"), None);
    let child_a = graph.insert(TestNode::new("a"), Some(parent));
    let child_b = graph.insert(TestNode::new("b"), Some(parent));

    assert_eq!(graph.get(parent).unwrap().children, vec![child_a, child_b]);

    graph.destroy(child_a);

    assert!(graph.contains(parent));
    assert!(!graph.contains(child_a));
    assert_eq!(graph.get(parent).unwrap().children, vec![child_b]);
}

#[test]
fn destroy_hands_back_the_subtree_payloads_in_post_order() {
    let mut graph: Graph<TestNode> = Graph::new();
    let root = graph.insert(TestNode::new("root"), None);
    let a = graph.insert(TestNode::new("a"), Some(root));
    let a1 = graph.insert(TestNode::new("a1"), Some(a));
    let b = graph.insert(TestNode::new("b"), Some(root));

    let freed = graph.destroy(root);
    let order: Vec<(NodeId, &str)> = freed.iter().map(|(id, p)| (*id, p.name)).collect();
    assert_eq!(order, vec![(a1, "a1"), (a, "a"), (b, "b"), (root, "root")]);
    assert!(graph.iter().is_empty());
}

#[test]
fn destroying_a_stale_id_is_a_no_op() {
    let mut graph: Graph<TestNode> = Graph::new();
    let a = graph.insert(TestNode::new("a"), None);
    graph.destroy(a);
    let b = graph.insert(TestNode::new("b"), None);
    assert!(graph.destroy(a).is_empty());
    assert!(graph.contains(b));
}

#[test]
fn descendants_walk_preorder_skipping_stale_roots() {
    let mut graph: Graph<TestNode> = Graph::new();
    let r1 = graph.insert(TestNode::new("r1"), None);
    let c1 = graph.insert(TestNode::new("c1"), Some(r1));
    let c2 = graph.insert(TestNode::new("c2"), Some(r1));
    let g = graph.insert(TestNode::new("g"), Some(c1));
    let gone = graph.insert(TestNode::new("gone"), None);
    let r2 = graph.insert(TestNode::new("r2"), None);
    graph.destroy(gone);

    let mut walk = graph.descendants(&[r1, gone, r2]);
    let mut seen = Vec::new();
    while let Some((id, node)) = walk.next() {
        seen.push((id, node.payload.name));
    }
    assert_eq!(
        seen,
        vec![(r1, "r1"), (c1, "c1"), (g, "g"), (c2, "c2"), (r2, "r2")]
    );
}

#[test]
fn iter_lists_live_nodes_by_slot() {
    let mut graph: Graph<TestNode> = Graph::new();
    let a = graph.insert(TestNode::new("a"), None);
    let b = graph.insert(TestNode::new("b"), None);
    let c = graph.insert(TestNode::new("c"), None);
    graph.destroy(b);
    let ids: Vec<NodeId> = graph.iter().iter().map(|(id, _)| *id).collect();
    assert_eq!(ids, vec![a, c]);
}
