use beans_core::graph::{Graph, NodeId};
use beans_core::jvm::{JvmTypeKey, PackageKey};
use beans_core::registry::{ProviderHandle, Registry, Subscription, SubscriptionId};

fn count(ids: &[SubscriptionId], id: SubscriptionId) -> u32 {
    ids.iter().filter(|x| **x == id).count() as u32
}

struct HandleNode {
    provider: Option<ProviderHandle<JvmTypeKey>>,
    subscription: Option<Subscription<JvmTypeKey>>,
}

impl HandleNode {
    fn new() -> Self {
        Self { provider: None, subscription: None }
    }
}

fn release_subtree(graph: &mut Graph<HandleNode>, registry: &mut Registry<JvmTypeKey>, id: NodeId) {
    for (_, payload) in graph.destroy(id) {
        if let Some(h) = payload.provider {
            registry.unregister(h);
        }
        if let Some(s) = payload.subscription {
            registry.unsubscribe(s);
        }
    }
}

#[test]
fn tests_provider_handle_drop_unregisters() {
    let mut graph: Graph<HandleNode> = Graph::new();
    let mut registry: Registry<JvmTypeKey> = Registry::new();

    let id = graph.insert(HandleNode::new(), None);
    let key = JvmTypeKey::new("foo");
    let h = registry.register(key.clone(), id);
    graph.get_mut(id).unwrap().provider = Some(h);

    assert_eq!(registry.providers(&key), vec![id]);

    release_subtree(&mut graph, &mut registry, id);

    assert!(registry.providers(&key).is_empty());
}

#[test]
fn subscription_handle_drop_unsubscribes() {
    let mut graph: Graph<HandleNode> = Graph::new();
    let mut registry: Registry<JvmTypeKey> = Registry::new();
    let key = JvmTypeKey::new("watch-me");

    let id = graph.insert(HandleNode::new(), None);
    let sub = registry.query(key.clone()).subscribe(&mut registry);
    let sid = sub.id();
    graph.get_mut(id).unwrap().subscription = Some(sub);

    let mut counter = 0;
    registry.notify(&key);
    counter += count(&registry.take_fired(), sid);
    assert_eq!(counter, 1);

    release_subtree(&mut graph, &mut registry, id);

    registry.notify(&key);
    counter += count(&registry.take_fired(), sid);
    assert_eq!(counter, 1);
}

#[test]
fn tests_registering_and_dropping_a_provider_fires_subscribers() {
    let mut registry: Registry<JvmTypeKey> = Registry::new();
    let key = JvmTypeKey::new("fanout");

    let sub = registry.query(key.clone()).subscribe(&mut registry);
    let mut counter = 0;

    let provider = registry.register(key.clone(), NodeId::placeholder(42));
    counter += count(&registry.take_fired(), sub.id());
    assert_eq!(counter, 1, "subscriber fires on provider registration");

    registry.unregister(provider);
    counter += count(&registry.take_fired(), sub.id());
    assert_eq!(counter, 2, "subscriber fires on provider drop");

    registry.notify(&key);
    counter += count(&registry.take_fired(), sub.id());
    assert_eq!(counter, 3);
}

#[test]
fn tests_snapshot_and_release_allows_reentrant_query() {
    let mut registry: Registry<JvmTypeKey> = Registry::new();
    let key = JvmTypeKey::new("reentrant");

    let _provider_a = registry.register(key.clone(), NodeId::placeholder(1));
    let _provider_b = registry.register(key.clone(), NodeId::placeholder(2));

    let sub = registry.query(key.clone()).subscribe(&mut registry);
    registry.notify(&key);

    let mut observed = 0;
    for id in registry.take_fired() {
        if id == sub.id() {
            observed = registry.providers(&key).len();
        }
    }
    assert_eq!(observed, 2);
}

#[test]
fn registry_outliving_handles_does_not_panic() {
    let mut registry: Registry<JvmTypeKey> = Registry::new();
    let key = JvmTypeKey::new("drop-order");

    let provider = registry.register(key.clone(), NodeId::placeholder(7));
    let subscription = registry.query(key.clone()).subscribe(&mut registry);
    let sid = subscription.id();
    let counter = count(&registry.take_fired(), sid);

    drop(registry);
    drop(provider);
    drop(subscription);

    assert_eq!(counter, 0);
}

#[test]
fn tests_duplicate_provider_registration_drops_one_at_a_time() {
    let mut registry: Registry<JvmTypeKey> = Registry::new();
    let key = JvmTypeKey::new("dup");
    let node = NodeId::placeholder(7);

    let h1 = registry.register(key.clone(), node);
    let h2 = registry.register(key.clone(), node);

    assert_eq!(registry.providers(&key), vec![node, node]);

    registry.unregister(h1);
    assert_eq!(registry.providers(&key), vec![node]);

    registry.unregister(h2);
    assert!(registry.providers(&key).is_empty());
}

#[test]
fn tests_notify_callback_can_register_in_a_different_registry() {
    let mut primary: Registry<JvmTypeKey> = Registry::new();
    let mut secondary: Registry<PackageKey> = Registry::new();
    let key_a = JvmTypeKey::new("source");
    let key_b = PackageKey::new("derived");

    let sub = primary.query(key_a.clone()).subscribe(&mut primary);

    assert!(secondary.providers(&key_b).is_empty());

    primary.notify(&key_a);
    let mut derived = None;
    for id in primary.take_fired() {
        if id == sub.id() {
            derived = Some(secondary.register(key_b.clone(), NodeId::placeholder(123)));
        }
    }

    assert_eq!(secondary.providers(&key_b), vec![NodeId::placeholder(123)]);
    let _ = primary.register(key_a.clone(), NodeId::placeholder(7));

    if let Some(h) = derived.take() {
        secondary.unregister(h);
    }
    assert!(secondary.providers(&key_b).is_empty());
}
