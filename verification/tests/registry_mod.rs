use beans_core::graph::{Graph, NodeId};
use beans_core::jvm::JvmTypeKey;
use beans_core::registry::{ProviderHandle, Registry, Subscription, SubscriptionId};

/// How often `id` occurs among the fired subscriptions.
fn fired(ids: &[SubscriptionId], id: SubscriptionId) -> u32 {
    ids.iter().filter(|x| **x == id).count() as u32
}

fn key(name: &str) -> JvmTypeKey {
    JvmTypeKey::new(name)
}

#[test]
fn simple_name_index_tracks_provider_lifecycle() {
    let mut registry: Registry<JvmTypeKey> = Registry::new();
    let a = key("Service");
    let b = key("Repository");

    let ha = registry.register(a, NodeId::placeholder(1));
    let _hb = registry.register(b, NodeId::placeholder(2));

    assert_eq!(registry.query_simple_name("Service"), vec![NodeId::placeholder(1)]);
    assert_eq!(registry.query_simple_name("Repository"), vec![NodeId::placeholder(2)]);
    assert!(registry.query_simple_name("Missing").is_empty());

    registry.unregister(ha);
    assert!(registry.query_simple_name("Service").is_empty());
}

struct HandleNode {
    provider: Option<ProviderHandle<JvmTypeKey>>,
    subscription: Option<Subscription<JvmTypeKey>>,
}

impl HandleNode {
    fn new() -> Self {
        Self { provider: None, subscription: None }
    }
}

/// Destroy `id` and release every handle its subtree held.
fn destroy_and_release(
    graph: &mut Graph<HandleNode>,
    registry: &mut Registry<JvmTypeKey>,
    id: NodeId,
) {
    for (_, payload) in graph.destroy(id) {
        if let Some(h) = payload.provider {
            registry.unregister(h);
        }
        if let Some(s) = payload.subscription {
            registry.unsubscribe(s);
        }
    }
}

#[test]
fn mod_provider_handle_drop_unregisters() {
    let mut graph: Graph<HandleNode> = Graph::new();
    let mut registry: Registry<JvmTypeKey> = Registry::new();

    let id = graph.insert(HandleNode::new(), None);
    let k = key("foo");
    let h = registry.register(k.clone(), id);
    graph.get_mut(id).unwrap().provider = Some(h);

    assert_eq!(registry.providers(&k), vec![id]);

    destroy_and_release(&mut graph, &mut registry, id);

    assert!(registry.providers(&k).is_empty());
}

#[test]
fn subscription_drop_unsubscribes() {
    let mut graph: Graph<HandleNode> = Graph::new();
    let mut registry: Registry<JvmTypeKey> = Registry::new();
    let k = key("watch-me");

    let id = graph.insert(HandleNode::new(), None);
    let sub = registry.query(k.clone()).subscribe(&mut registry);
    let sid = sub.id();
    graph.get_mut(id).unwrap().subscription = Some(sub);

    let mut counter = 0;
    registry.notify(&k);
    counter += fired(&registry.take_fired(), sid);
    assert_eq!(counter, 1);

    destroy_and_release(&mut graph, &mut registry, id);

    registry.notify(&k);
    counter += fired(&registry.take_fired(), sid);
    assert_eq!(counter, 1);
}

#[test]
fn mod_registering_and_dropping_a_provider_fires_subscribers() {
    let mut registry: Registry<JvmTypeKey> = Registry::new();
    let k = key("fanout");

    let sub = registry.query(k.clone()).subscribe(&mut registry);
    let mut counter = 0;

    let provider = registry.register(k.clone(), NodeId::placeholder(42));
    counter += fired(&registry.take_fired(), sub.id());
    assert_eq!(counter, 1, "subscriber fires on provider registration");

    registry.unregister(provider);
    counter += fired(&registry.take_fired(), sub.id());
    assert_eq!(counter, 2, "subscriber fires on provider drop");

    registry.notify(&k);
    counter += fired(&registry.take_fired(), sub.id());
    assert_eq!(counter, 3);
}

#[test]
fn mod_snapshot_and_release_allows_reentrant_query() {
    let mut registry: Registry<JvmTypeKey> = Registry::new();
    let k = key("reentrant");

    let _provider_a = registry.register(k.clone(), NodeId::placeholder(1));
    let _provider_b = registry.register(k.clone(), NodeId::placeholder(2));

    let sub = registry.query(k.clone()).subscribe(&mut registry);
    registry.notify(&k);

    let mut observed = 0;
    for id in registry.take_fired() {
        if id == sub.id() {
            observed = registry.providers(&k).len();
        }
    }
    assert_eq!(observed, 2);
}

#[test]
fn provider_handle_outliving_registry_does_not_panic() {
    let mut registry: Registry<JvmTypeKey> = Registry::new();
    let k = key("drop-order");

    let provider = registry.register(k.clone(), NodeId::placeholder(7));

    drop(registry);
    drop(provider);
}

#[test]
fn mod_duplicate_provider_registration_drops_one_at_a_time() {
    let mut registry: Registry<JvmTypeKey> = Registry::new();
    let k = key("dup");
    let node = NodeId::placeholder(7);

    let h1 = registry.register(k.clone(), node);
    let h2 = registry.register(k.clone(), node);

    assert_eq!(registry.providers(&k), vec![node, node]);

    registry.unregister(h1);
    assert_eq!(registry.providers(&k), vec![node]);

    registry.unregister(h2);
    assert!(registry.providers(&k).is_empty());
}

#[test]
fn mod_notify_callback_can_register_in_a_different_registry() {
    let mut primary: Registry<JvmTypeKey> = Registry::new();
    let mut secondary: Registry<JvmTypeKey> = Registry::new();
    let key_a = key("source");
    let key_b = key("derived");

    let sub = primary.query(key_a.clone()).subscribe(&mut primary);

    assert!(secondary.providers(&key_b).is_empty());

    primary.notify(&key_a);
    let mut derived_handle = None;
    for id in primary.take_fired() {
        if id == sub.id() {
            derived_handle = Some(secondary.register(key_b.clone(), NodeId::placeholder(123)));
        }
    }

    assert_eq!(secondary.providers(&key_b), vec![NodeId::placeholder(123)]);
    let _ = primary.register(key_a.clone(), NodeId::placeholder(7));

    if let Some(h) = derived_handle.take() {
        secondary.unregister(h);
    }
    assert!(secondary.providers(&key_b).is_empty());
}

#[test]
fn register_during_batch_defers_until_commit() {
    let mut registry: Registry<JvmTypeKey> = Registry::new();
    let k = key("Batched");
    let sub = registry.query(k.clone()).subscribe(&mut registry);
    let mut counter = 0;

    registry.begin_batch();
    let _h = registry.register(k.clone(), NodeId::placeholder(1));
    counter += fired(&registry.take_fired(), sub.id());
    assert_eq!(counter, 0, "register inside a batch must not fire subscribers");

    registry.commit_batch();
    counter += fired(&registry.take_fired(), sub.id());
    assert_eq!(counter, 1, "the deferred notification fires at commit");
}

#[test]
fn provider_drop_during_batch_defers_until_commit() {
    let mut registry: Registry<JvmTypeKey> = Registry::new();
    let k = key("DropBatched");
    let handle = registry.register(k.clone(), NodeId::placeholder(1));
    let sub = registry.query(k.clone()).subscribe(&mut registry);
    let mut counter = 0;

    registry.begin_batch();
    registry.unregister(handle);
    counter += fired(&registry.take_fired(), sub.id());
    assert_eq!(counter, 0, "a provider drop inside a batch defers its notification");

    registry.commit_batch();
    counter += fired(&registry.take_fired(), sub.id());
    assert_eq!(counter, 1, "the deferred drop notification fires at commit");
}

#[test]
fn repeated_mutations_to_a_key_fire_once_per_batch() {
    let mut registry: Registry<JvmTypeKey> = Registry::new();
    let k = key("Coalesced");
    let sub = registry.query(k.clone()).subscribe(&mut registry);
    let mut counter = 0;

    registry.begin_batch();
    let h1 = registry.register(k.clone(), NodeId::placeholder(1));
    let h2 = registry.register(k.clone(), NodeId::placeholder(2));
    registry.unregister(h1);
    registry.notify(&k);
    counter += fired(&registry.take_fired(), sub.id());
    assert_eq!(counter, 0, "nothing fires mid-batch");

    registry.commit_batch();
    counter += fired(&registry.take_fired(), sub.id());
    assert_eq!(counter, 1, "four touches to one key coalesce into a single notification");
    registry.unregister(h2);
}

#[test]
fn queries_see_provider_changes_before_commit() {
    let mut registry: Registry<JvmTypeKey> = Registry::new();
    let k = key("Visible");

    registry.begin_batch();
    let _h = registry.register(k.clone(), NodeId::placeholder(7));
    assert_eq!(registry.providers(&k), vec![NodeId::placeholder(7)]);
    assert_eq!(registry.query_simple_name("Visible"), vec![NodeId::placeholder(7)]);
    registry.commit_batch();
}

#[test]
fn nested_batches_fire_only_on_outermost_commit() {
    let mut registry: Registry<JvmTypeKey> = Registry::new();
    let k = key("Nested");
    let sub = registry.query(k.clone()).subscribe(&mut registry);
    let mut counter = 0;

    registry.begin_batch();
    registry.begin_batch();
    let _h = registry.register(k.clone(), NodeId::placeholder(1));

    registry.commit_batch();
    counter += fired(&registry.take_fired(), sub.id());
    assert_eq!(counter, 0, "an inner commit must not fire — still inside the outer batch");

    registry.commit_batch();
    counter += fired(&registry.take_fired(), sub.id());
    assert_eq!(counter, 1, "the outermost commit fires the deferred notification once");
}

#[test]
fn manual_notify_is_batch_aware() {
    let mut registry: Registry<JvmTypeKey> = Registry::new();
    let k = key("ManualNotify");
    let sub = registry.query(k.clone()).subscribe(&mut registry);
    let mut counter = 0;

    registry.notify(&k);
    counter += fired(&registry.take_fired(), sub.id());
    assert_eq!(counter, 1);

    registry.begin_batch();
    registry.notify(&k);
    registry.notify(&k);
    counter += fired(&registry.take_fired(), sub.id());
    assert_eq!(counter, 1, "manual notify inside a batch does not fan out immediately");

    registry.commit_batch();
    counter += fired(&registry.take_fired(), sub.id());
    assert_eq!(counter, 2, "the coalesced manual notify fires once at commit");
}

#[test]
fn commit_flush_is_one_observer_boundary() {
    let mut registry: Registry<JvmTypeKey> = Registry::new();
    let key_a = key("A");
    let key_b = key("B");

    let sub_b = registry.query(key_b.clone()).subscribe(&mut registry);
    let sub_a = registry.query(key_a.clone()).subscribe(&mut registry);
    let mut b_count = 0;
    let mut late_count = 0;
    let mut late: Option<Subscription<JvmTypeKey>> = None;

    registry.begin_batch();
    let _ha = registry.register(key_a.clone(), NodeId::placeholder(1));
    let _hb = registry.register(key_b.clone(), NodeId::placeholder(2));
    registry.commit_batch();

    // Run the callbacks of this flush: A's subscribes a late watcher on B.
    for id in registry.take_fired() {
        if id == sub_a.id() {
            late = Some(registry.query(key_b.clone()).subscribe(&mut registry));
        }
        if id == sub_b.id() {
            b_count += 1;
        }
        if let Some(l) = &late {
            if id == l.id() {
                late_count += 1;
            }
        }
    }

    assert_eq!(b_count, 1, "B's pre-existing subscriber fires once");
    assert_eq!(
        late_count, 0,
        "a subscriber added during the flush does not fire within the same flush"
    );

    registry.notify(&key_b);
    let late_id = late.as_ref().unwrap().id();
    late_count += fired(&registry.take_fired(), late_id);
    assert_eq!(late_count, 1, "the late subscriber fires on the next notification");
}

#[test]
fn simple_names_are_shared_across_keys() {
    let mut registry: Registry<JvmTypeKey> = Registry::new();
    let h1 = registry.register(key("com.a.Service"), NodeId::placeholder(1));
    let _h2 = registry.register(key("com.b.Service"), NodeId::placeholder(2));
    let mut found = registry.query_simple_name("Service");
    found.sort();
    assert_eq!(found, vec![NodeId::placeholder(1), NodeId::placeholder(2)]);
    registry.unregister(h1);
    assert_eq!(registry.query_simple_name("Service"), vec![NodeId::placeholder(2)]);
}

#[test]
fn subscription_ids_count_up_per_registry() {
    let mut registry: Registry<JvmTypeKey> = Registry::new();
    let s0 = registry.query(key("x")).subscribe(&mut registry);
    let s1 = registry.query(key("y")).subscribe(&mut registry);
    assert_eq!(s0.id(), SubscriptionId(0));
    assert_eq!(s1.id(), SubscriptionId(1));
}

#[test]
fn providers_keep_insertion_order_after_a_removal() {
    let mut registry: Registry<JvmTypeKey> = Registry::new();
    let k = key("k");
    let h1 = registry.register(k.clone(), NodeId::placeholder(1));
    let _h2 = registry.register(k.clone(), NodeId::placeholder(2));
    let _h3 = registry.register(k.clone(), NodeId::placeholder(3));
    registry.unregister(h1);
    assert_eq!(registry.providers(&k), vec![NodeId::placeholder(2), NodeId::placeholder(3)]);
    assert!(registry.providers(&key("other")).is_empty());
}
