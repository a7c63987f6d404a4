use beans_core::graph::NodeId;
use beans_core::jvm::JvmTypeKey;
use beans_core::languages::java::JavaSymbolKey;
use beans_core::multi_query::RegistryName;
use beans_core::{Beans, MultiQuery, QueryResult, RegistryQuery};

/// Hand every subscription the JVM-type registry fired to the query;
/// returns the consumer watches it told.
fn deliver(beans: &mut Beans, mq: &mut MultiQuery) -> Vec<u64> {
    let mut told = Vec::new();
    for id in beans.registries.jvm_types.take_fired() {
        if mq.handles(RegistryName::JvmTypes, id) {
            told.extend(mq.invalidate());
        }
    }
    told
}

#[test]
fn multi_query_returns_first_match() {
    let mut beans = Beans::new();
    let id = NodeId::placeholder(7);
    let _h = beans.registries.jvm_types.register(JvmTypeKey::new("com.example.Service"), id);
    let mut mq = MultiQuery::new(
        &mut beans,
        vec![RegistryQuery::JvmType(JvmTypeKey::new("com.example.Service"))],
    );
    match mq.query(&beans) {
        QueryResult::One(found) => assert_eq!(found, id),
        other => panic!("expected One, got {:?}", other),
    }
}

#[test]
fn multi_query_falls_through_priority_order() {
    let mut beans = Beans::new();
    let kotlin_id = NodeId::placeholder(1);
    let _h = beans.registries.jvm_types.register(JvmTypeKey::new("com.example.Service"), kotlin_id);
    let queries = vec![
        RegistryQuery::JavaSymbol(JavaSymbolKey::new("com.example.Service")),
        RegistryQuery::JvmType(JvmTypeKey::new("com.example.Service")),
    ];
    let mut mq = MultiQuery::new(&mut beans, queries);
    assert_eq!(mq.query(&beans).first(), Some(kotlin_id));
}

#[test]
fn multi_query_observes_provider_change() {
    let mut beans = Beans::new();
    let mut mq = MultiQuery::new(
        &mut beans,
        vec![RegistryQuery::JvmType(JvmTypeKey::new("com.example.Service"))],
    );
    assert!(mq.query(&beans).is_empty());
    let new_id = NodeId::placeholder(42);
    let _h = beans.registries.jvm_types.register(JvmTypeKey::new("com.example.Service"), new_id);
    deliver(&mut beans, &mut mq);
    match mq.query(&beans) {
        QueryResult::One(id) => assert_eq!(id, new_id),
        other => panic!("expected One after registration, got {:?}", other),
    }
}

#[test]
fn multi_query_subscribe_fires_on_underlying_change() {
    let mut beans = Beans::new();
    let mut mq = MultiQuery::new(
        &mut beans,
        vec![RegistryQuery::JvmType(JvmTypeKey::new("com.example.Service"))],
    );
    let watch = mq.subscribe();
    let _h = beans.registries.jvm_types.register(JvmTypeKey::new("com.example.Service"), NodeId::placeholder(1));
    let told = deliver(&mut beans, &mut mq);
    assert!(told.contains(&watch.id()), "consumer's watch should be told");
}

#[test]
fn multi_query_subscribe_drop_stops_notifications() {
    let mut beans = Beans::new();
    let mut mq = MultiQuery::new(
        &mut beans,
        vec![RegistryQuery::JvmType(JvmTypeKey::new("com.example.Service"))],
    );
    let watch = mq.subscribe();
    let id = watch.id();
    let _h = beans.registries.jvm_types.register(JvmTypeKey::new("com.example.Service"), NodeId::placeholder(1));
    let first = deliver(&mut beans, &mut mq);
    assert_eq!(first.iter().filter(|w| **w == id).count(), 1);
    mq.unwatch(watch);
    let _h2 = beans.registries.jvm_types.register(JvmTypeKey::new("com.example.Service"), NodeId::placeholder(2));
    let second = deliver(&mut beans, &mut mq);
    assert!(!second.contains(&id), "an unwatched handle is no longer told");
}

#[test]
fn multi_query_caches_until_invalidated_and_merges_all() {
    let mut beans = Beans::new();
    let a = NodeId::placeholder(1);
    let b = NodeId::placeholder(2);
    let _ha = beans.registries.java_symbols.register(JavaSymbolKey::new("p.A"), a);
    let _hb = beans.registries.jvm_types.register(JvmTypeKey::new("p.A"), b);
    let mut mq = MultiQuery::new(
        &mut beans,
        vec![
            RegistryQuery::JavaSymbol(JavaSymbolKey::new("p.A")),
            RegistryQuery::JvmType(JvmTypeKey::new("p.A")),
        ],
    );
    assert_eq!(mq.query(&beans).first(), Some(a));
    assert_eq!(mq.providers_all(&beans), vec![a, b]);
    // A change that is not delivered leaves the cached answer in place.
    let c = NodeId::placeholder(3);
    let _hc = beans.registries.java_symbols.register(JavaSymbolKey::new("p.A"), c);
    assert_eq!(mq.query(&beans).all(), vec![a]);
    mq.invalidate();
    assert_eq!(mq.query(&beans).all(), vec![a, c]);
    mq.release(&mut beans);
}

#[test]
fn registering_through_the_query_tells_its_watchers() {
    let mut beans = Beans::new();
    let mut mq = MultiQuery::new(
        &mut beans,
        vec![RegistryQuery::JvmType(JvmTypeKey::new("com.example.Service"))],
    );
    assert!(mq.query(&beans).is_empty());
    let w = mq.subscribe();
    let (r, told) = mq.register_provider(
        &mut beans,
        RegistryQuery::JvmType(JvmTypeKey::new("com.example.Service")),
        NodeId::placeholder(1),
    );
    assert_eq!(told, vec![w.id()]);
    assert_eq!(mq.query(&beans), QueryResult::One(NodeId::placeholder(1)));

    mq.unwatch(w);
    let told = mq.unregister_provider(&mut beans, r);
    assert!(told.is_empty());
    assert!(mq.query(&beans).is_empty());
}

#[test]
fn a_plain_registration_reaches_the_query_once_delivered() {
    let mut beans = Beans::new();
    let mut mq = MultiQuery::new(
        &mut beans,
        vec![RegistryQuery::JvmType(JvmTypeKey::new("com.example.Service"))],
    );
    assert!(mq.query(&beans).is_empty());
    let w = mq.subscribe();
    let _h = beans.registries.jvm_types.register(JvmTypeKey::new("com.example.Service"), NodeId::placeholder(1));
    let fired = beans.registries.jvm_types.take_fired();
    let told = mq.deliver(RegistryName::JvmTypes, &fired);
    assert_eq!(told, vec![w.id()]);
    assert_eq!(mq.query(&beans), QueryResult::One(NodeId::placeholder(1)));
}
