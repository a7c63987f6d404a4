use beans_core::graph::registry::Registry;
use beans_core::graph::NodeId;
use beans_core::jvm::JvmTypeKey;

#[test]
fn legacy_registry_keeps_every_provider_and_retains_on_unregister() {
    let mut registry: Registry<JvmTypeKey> = Registry::new();
    let a = NodeId::placeholder(1);
    let b = NodeId::placeholder(2);
    let h1 = registry.register(JvmTypeKey::new("p.A"), a);
    let _h2 = registry.register(JvmTypeKey::new("p.A"), b);
    let h3 = registry.register(JvmTypeKey::new("p.A"), a);
    assert_eq!(registry.query(&JvmTypeKey::new("p.A")), vec![a, b, a]);
    assert_eq!(h1.node(), a);
    // Handing one registration back drops every registration of that node.
    registry.unregister(h1);
    assert_eq!(registry.query(&JvmTypeKey::new("p.A")), vec![b]);
    registry.unregister(h3);
    assert_eq!(registry.query(&JvmTypeKey::new("p.A")), vec![b]);
    assert!(registry.query(&JvmTypeKey::new("p.B")).is_empty());
}

#[test]
fn legacy_registry_notifies_subscribers_in_order_until_unsubscribed() {
    let mut registry: Registry<JvmTypeKey> = Registry::default();
    let s1 = registry.subscribe(JvmTypeKey::new("p.A"));
    let s2 = registry.subscribe(JvmTypeKey::new("p.A"));
    let other = registry.subscribe(JvmTypeKey::new("p.B"));
    assert_eq!(s1.id().raw(), 0);
    assert_eq!(s2.id().raw(), 1);
    assert_eq!(other.id().raw(), 2);
    // Registering does not notify by itself.
    let _h = registry.register(JvmTypeKey::new("p.A"), NodeId::placeholder(1));
    assert_eq!(registry.notify(&JvmTypeKey::new("p.A")), vec![s1.id(), s2.id()]);
    let first = s1.id();
    registry.unsubscribe(s1);
    assert_eq!(registry.notify(&JvmTypeKey::new("p.A")), vec![s2.id()]);
    assert!(!registry.notify(&JvmTypeKey::new("p.A")).contains(&first));
    assert_eq!(registry.notify(&JvmTypeKey::new("p.C")), vec![]);
}
