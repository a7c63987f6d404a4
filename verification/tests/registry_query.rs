use beans_core::graph::NodeId;
use beans_core::jvm::{Fqn, JvmMethodKey, JvmTypeKey, TypeRef};
use beans_core::languages::java::JavaSymbolKey;
use beans_core::registry::{FallbackSubscription, QueryResult, Registry, RegistryKey};

/// Deliver the subscriptions `registry` fired to `fb`, collecting what
/// its consumer watches are told.
fn deliver<P: RegistryKey, F: RegistryKey, K: RegistryKey>(
    fb: &mut FallbackSubscription<P, F>,
    registry: &mut Registry<K>,
    primary_side: bool,
) -> Vec<u64> {
    let mine = if primary_side { fb.primary_subscription() } else { fb.fallback_subscription() };
    let mut told = Vec::new();
    for id in registry.take_fired() {
        if id == mine {
            told.extend(fb.invalidate());
        }
    }
    told
}

#[test]
fn query_query_result_from_vec() {
    let r: QueryResult = Vec::<NodeId>::new().into();
    assert!(matches!(r, QueryResult::NoMatch));

    let r: QueryResult = vec![NodeId::placeholder(1)].into();
    assert!(matches!(r, QueryResult::One(_)));

    let r: QueryResult = vec![NodeId::placeholder(1), NodeId::placeholder(2)].into();
    assert!(matches!(r, QueryResult::Many(_)));
}

#[test]
fn query_query_result_count_and_first() {
    let r = QueryResult::NoMatch;
    assert_eq!(r.count(), 0);
    assert_eq!(r.first(), None);

    let r = QueryResult::One(NodeId::placeholder(7));
    assert_eq!(r.count(), 1);
    assert_eq!(r.first(), Some(NodeId::placeholder(7)));

    let r = QueryResult::Many(vec![NodeId::placeholder(7), NodeId::placeholder(8)]);
    assert_eq!(r.count(), 2);
    assert_eq!(r.first(), Some(NodeId::placeholder(7)));
}

#[test]
fn query_resolve_against_empty_and_filled_registry() {
    let mut registry: Registry<JvmTypeKey> = Registry::new();
    let key = JvmTypeKey::new("com.example.Foo");

    let q = registry.query(key.clone());
    assert!(matches!(q.resolve(&registry), QueryResult::NoMatch));

    let _h = registry.register(key.clone(), NodeId::placeholder(1));
    let q = registry.query(key.clone());
    assert!(matches!(q.resolve(&registry), QueryResult::One(_)));

    let _h2 = registry.register(key.clone(), NodeId::placeholder(2));
    let q = registry.query(key);
    assert!(matches!(q.resolve(&registry), QueryResult::Many(_)));
}

#[test]
fn subscription_drop_unsubscribes_via_query() {
    let mut registry: Registry<JvmTypeKey> = Registry::new();
    let key = JvmTypeKey::new("com.example.Watched");

    let sub = registry.query(key.clone()).subscribe(&mut registry);
    let sid = sub.id();
    let mut counter = 0;

    let _h = registry.register(key.clone(), NodeId::placeholder(1));
    counter += registry.take_fired().iter().filter(|x| **x == sid).count();
    assert_eq!(counter, 1);

    registry.unsubscribe(sub);

    let _h2 = registry.register(key.clone(), NodeId::placeholder(2));
    counter += registry.take_fired().iter().filter(|x| **x == sid).count();
    assert_eq!(counter, 1, "dropped Subscription stops receiving notifications");
}

#[test]
fn subscription_resolve_reflects_current_state() {
    let mut registry: Registry<JvmTypeKey> = Registry::new();
    let key = JvmTypeKey::new("com.example.X");

    let sub = registry.query(key.clone()).subscribe(&mut registry);

    assert!(matches!(sub.resolve(&registry), QueryResult::NoMatch));

    let _h = registry.register(key, NodeId::placeholder(1));
    assert!(matches!(sub.resolve(&registry), QueryResult::One(_)));
}

fn service_method() -> JvmMethodKey {
    JvmMethodKey::new("com.example.Service", "process", vec![])
}

#[test]
fn fallback_resolves_primary_when_present() {
    let mut primary: Registry<JvmTypeKey> = Registry::new();
    let mut fallback: Registry<JvmMethodKey> = Registry::new();
    let primary_id = NodeId::placeholder(7);
    let _h = primary.register(JvmTypeKey::new("com.example.Service"), primary_id);

    let mut fb = FallbackSubscription::new(
        &mut primary,
        JvmTypeKey::new("com.example.Service"),
        &mut fallback,
        service_method(),
    );

    match fb.resolve(&primary, &fallback) {
        QueryResult::One(id) => assert_eq!(id, primary_id),
        other => panic!("expected One from primary, got {:?}", other),
    }
}

#[test]
fn fallback_falls_through_when_primary_misses() {
    let mut primary: Registry<JvmTypeKey> = Registry::new();
    let mut fallback: Registry<JvmMethodKey> = Registry::new();
    let fallback_id = NodeId::placeholder(99);
    let _h = fallback.register(service_method(), fallback_id);

    let mut fb = FallbackSubscription::new(
        &mut primary,
        JvmTypeKey::new("com.example.Service"),
        &mut fallback,
        service_method(),
    );

    match fb.resolve(&primary, &fallback) {
        QueryResult::One(id) => assert_eq!(id, fallback_id),
        other => panic!("expected One from fallback, got {:?}", other),
    }
}

#[test]
fn fallback_observes_primary_arrival_after_construction() {
    let mut primary: Registry<JvmTypeKey> = Registry::new();
    let mut fallback: Registry<JvmMethodKey> = Registry::new();
    let mut fb = FallbackSubscription::new(
        &mut primary,
        JvmTypeKey::new("com.example.Service"),
        &mut fallback,
        service_method(),
    );
    assert!(fb.resolve(&primary, &fallback).is_empty());

    let new_id = NodeId::placeholder(42);
    let _h = primary.register(JvmTypeKey::new("com.example.Service"), new_id);
    deliver(&mut fb, &mut primary, true);

    match fb.resolve(&primary, &fallback) {
        QueryResult::One(id) => assert_eq!(id, new_id),
        other => panic!("expected One after registration, got {:?}", other),
    }
}

#[test]
fn fallback_subscriber_fires_on_underlying_change() {
    let mut primary: Registry<JvmTypeKey> = Registry::new();
    let mut fallback: Registry<JvmMethodKey> = Registry::new();
    let mut fb = FallbackSubscription::new(
        &mut primary,
        JvmTypeKey::new("com.example.Service"),
        &mut fallback,
        service_method(),
    );

    let watch = fb.subscribe();
    let mut counter = 0;

    let _h = primary.register(JvmTypeKey::new("com.example.Service"), NodeId::placeholder(1));
    counter += deliver(&mut fb, &mut primary, true).iter().filter(|w| **w == watch.id()).count();
    assert!(counter > 0, "consumer's callback should fire");
}

#[test]
fn fallback_watch_drop_stops_notifications() {
    let mut primary: Registry<JvmTypeKey> = Registry::new();
    let mut fallback: Registry<JvmMethodKey> = Registry::new();
    let mut fb = FallbackSubscription::new(
        &mut primary,
        JvmTypeKey::new("com.example.Service"),
        &mut fallback,
        service_method(),
    );

    let watch = fb.subscribe();
    let wid = watch.id();
    let mut counter = 0;

    let _h = primary.register(JvmTypeKey::new("com.example.Service"), NodeId::placeholder(1));
    counter += deliver(&mut fb, &mut primary, true).iter().filter(|w| **w == wid).count();
    let after_first = counter;
    assert!(after_first > 0);

    fb.unwatch(watch);

    let _h2 = primary.register(JvmTypeKey::new("com.example.Service"), NodeId::placeholder(2));
    counter += deliver(&mut fb, &mut primary, true).iter().filter(|w| **w == wid).count();
    assert_eq!(counter, after_first, "dropped Watch stops notifications");
}

#[test]
fn fallback_with_java_native_and_jvm_keys() {
    let mut java: Registry<JavaSymbolKey> = Registry::new();
    let mut jvm: Registry<JvmMethodKey> = Registry::new();

    let java_id = NodeId::placeholder(1);
    let jvm_id = NodeId::placeholder(2);
    let _hj = java.register(JavaSymbolKey::new(Fqn::new("com.example.Service.process")), java_id);
    let _hv = jvm.register(
        JvmMethodKey::new("com.example.Service", "process", vec![TypeRef::Void]),
        jvm_id,
    );

    let mut fb: FallbackSubscription<JavaSymbolKey, JvmMethodKey> = FallbackSubscription::new(
        &mut java,
        JavaSymbolKey::new(Fqn::new("com.example.Service.process")),
        &mut jvm,
        JvmMethodKey::new("com.example.Service", "process", vec![TypeRef::Void]),
    );

    match fb.resolve(&java, &jvm) {
        QueryResult::One(id) => assert_eq!(id, java_id, "primary (Java) wins"),
        other => panic!("expected One, got {:?}", other),
    }
}

#[test]
fn fallback_cache_holds_until_invalidated() {
    let mut primary: Registry<JvmTypeKey> = Registry::new();
    let mut fallback: Registry<JvmMethodKey> = Registry::new();
    let mut fb = FallbackSubscription::new(
        &mut primary,
        JvmTypeKey::new("com.example.Service"),
        &mut fallback,
        service_method(),
    );
    assert!(fb.resolve(&primary, &fallback).is_empty());
    let _h = fallback.register(service_method(), NodeId::placeholder(5));
    // Not yet delivered: the cached answer stands.
    assert!(fb.resolve(&primary, &fallback).is_empty());
    deliver(&mut fb, &mut fallback, false);
    assert_eq!(fb.resolve(&primary, &fallback).first(), Some(NodeId::placeholder(5)));
    fb.release(&mut primary, &mut fallback);
}

#[test]
fn registration_on_the_primary_refreshes_the_fallback_answer() {
    let mut primary: Registry<JvmTypeKey> = Registry::new();
    let mut fallback: Registry<JvmMethodKey> = Registry::new();
    let mut fb = FallbackSubscription::new(
        &mut primary,
        JvmTypeKey::new("com.example.Service"),
        &mut fallback,
        service_method(),
    );
    assert!(fb.resolve(&primary, &fallback).is_empty());
    let w = fb.subscribe();

    let (h, told) = fb.register_primary(&mut primary, JvmTypeKey::new("com.example.Service"), NodeId::placeholder(42));
    assert_eq!(told, vec![w.id()]);
    assert_eq!(fb.resolve(&primary, &fallback), QueryResult::One(NodeId::placeholder(42)));

    fb.unwatch(w);
    let (_h2, told) = fb.register_primary(&mut primary, JvmTypeKey::new("com.example.Service"), NodeId::placeholder(2));
    assert!(told.is_empty());
    let told = fb.unregister_primary(&mut primary, h);
    assert!(told.is_empty());
    assert_eq!(fb.resolve(&primary, &fallback), QueryResult::One(NodeId::placeholder(2)));

    let (_h3, _) = fb.register_fallback(&mut fallback, service_method(), NodeId::placeholder(5));
    assert_eq!(fb.resolve(&primary, &fallback), QueryResult::One(NodeId::placeholder(2)));
}

#[test]
fn a_change_on_another_key_is_not_delivered() {
    let mut primary: Registry<JvmTypeKey> = Registry::new();
    let mut fallback: Registry<JvmMethodKey> = Registry::new();
    let mut fb = FallbackSubscription::new(
        &mut primary,
        JvmTypeKey::new("com.example.Service"),
        &mut fallback,
        service_method(),
    );
    assert!(fb.resolve(&primary, &fallback).is_empty());
    let _w = fb.subscribe();
    let (_h, told) = fb.register_primary(&mut primary, JvmTypeKey::new("com.example.Other"), NodeId::placeholder(1));
    assert!(told.is_empty());
    assert!(fb.resolve(&primary, &fallback).is_empty());
}

#[test]
fn a_plain_registration_reaches_the_fallback_answer_once_delivered() {
    let mut primary: Registry<JvmTypeKey> = Registry::new();
    let mut fallback: Registry<JvmMethodKey> = Registry::new();
    let mut fb = FallbackSubscription::new(
        &mut primary,
        JvmTypeKey::new("com.example.Service"),
        &mut fallback,
        service_method(),
    );
    assert!(fb.resolve(&primary, &fallback).is_empty());
    let w = fb.subscribe();
    let _h = primary.register(JvmTypeKey::new("com.example.Service"), NodeId::placeholder(42));
    let fired_primary = primary.take_fired();
    let fired_fallback = fallback.take_fired();
    let told = fb.deliver(&fired_primary, &fired_fallback);
    assert_eq!(told, vec![w.id()]);
    assert_eq!(fb.resolve(&primary, &fallback), QueryResult::One(NodeId::placeholder(42)));
}
