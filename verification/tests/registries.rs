use beans_core::graph::{NodeBehavior, NodeId};
use beans_core::jvm::{Fqn, JvmTypeKey};
use beans_core::languages::java::JavaSymbolKey;
use beans_core::{all_matches, first_match, ByFqn, Registries};

#[test]
fn unresolved_when_neither_registry_has_provider() {
    let registries = Registries::new();

    let resolved = first_match::<ByFqn>(
        &ByFqn(Fqn::new("missing.Type")),
        &[&registries.java_symbols, &registries.jvm_types],
    );
    assert_eq!(resolved, None);
}

#[test]
fn fqn_round_trips_through_keys() {
    let key1 = JvmTypeKey::new("com.example.Service");
    let key2 = JvmTypeKey::new(Fqn::new("com.example.Service"));
    let key3 = JvmTypeKey::new("com.example.Service".to_string());
    assert_eq!(key1, key2);
    assert_eq!(key2, key3);
}

#[test]
fn by_fqn_prefers_the_java_registry_and_merges_in_order() {
    let mut registries = Registries::new();
    let java_id = NodeId::placeholder(1);
    let jvm_id = NodeId::placeholder(2);
    let _hj = registries.java_symbols.register(JavaSymbolKey::new("com.example.Service"), java_id);
    let _ht = registries.jvm_types.register(JvmTypeKey::new("com.example.Service"), jvm_id);

    let model = ByFqn(Fqn::new("com.example.Service"));
    let consult: [&dyn beans_core::Queryable<ByFqn>; 2] =
        [&registries.java_symbols, &registries.jvm_types];
    assert_eq!(first_match(&model, &consult), Some(java_id));
    assert_eq!(all_matches(&model, &consult), vec![java_id, jvm_id]);
}

use beans_core::graph::Graph;
use beans_core::jvm::{
    JvmDeclHeader, JvmEnrichments, JvmFieldKey, JvmFieldNode, JvmMethodKey, JvmMethodNode,
    JvmNodePayload, JvmPackageNode, JvmParameter, JvmTypeKind, JvmTypeNode, NullabilityInfo,
    PackageKey, TypeRef,
};
use beans_core::languages::java::{JavaDeclHeader, JavaMethodNode, JavaNodePayload, JavaTypeKind, JavaTypeNode};
use beans_core::{Beans, NodePayload, PrimitiveKind, RegistryQuery};

fn java_class(name: &str, fqn: &str) -> NodePayload {
    NodePayload::Java(JavaNodePayload::Type(JavaTypeNode {
        header: JavaDeclHeader::new(name, fqn),
        kind: JavaTypeKind::Class,
        type_parameters: vec![],
        record_components: vec![],
    }))
}

fn java_method(name: &str, fqn: &str) -> NodePayload {
    NodePayload::Java(JavaNodePayload::Method(JavaMethodNode {
        header: JavaDeclHeader::new(name, fqn),
        return_type: TypeRef::Void,
        parameters: vec![],
        type_parameters: vec![],
        throws: vec![],
        has_body: false,
    }))
}

fn jvm_type(name: &str, fqn: &str, kind: JvmTypeKind) -> NodePayload {
    NodePayload::Jvm(JvmNodePayload::Type(JvmTypeNode {
        header: JvmDeclHeader::new(name, fqn),
        kind,
        type_parameters: vec![],
        record_components: vec![],
        enrichments: JvmEnrichments::default(),
    }))
}

fn jvm_method(name: &str, fqn: &str, owner: &str, return_type: TypeRef) -> NodePayload {
    NodePayload::Jvm(JvmNodePayload::Method(JvmMethodNode {
        header: JvmDeclHeader::new(name, fqn),
        owner: Fqn::new(owner),
        return_type,
        parameters: vec![],
        type_parameters: vec![],
        throws: vec![],
        enrichments: JvmEnrichments::default(),
    }))
}

fn jvm_field(name: &str, fqn: &str, owner: &str, field_type: TypeRef) -> NodePayload {
    NodePayload::Jvm(JvmNodePayload::Field(JvmFieldNode {
        header: JvmDeclHeader::new(name, fqn),
        owner: Fqn::new(owner),
        field_type,
        constant_value: None,
        initialized: false,
        enrichments: JvmEnrichments::default(),
    }))
}

#[test]
fn java_type_resolves_through_java_registry_first() {
    let mut graph: Graph<NodePayload> = Graph::new();
    let mut registries = Registries::new();
    let java_id = graph.insert(java_class("Service", "com.example.Service"), None);
    let _java_h = registries.java_symbols.register(JavaSymbolKey::new("com.example.Service"), java_id);
    let jvm_id = graph.insert(jvm_type("Service", "com.example.Service", JvmTypeKind::Class), Some(java_id));
    let _jvm_h = registries.jvm_types.register(JvmTypeKey::new("com.example.Service"), jvm_id);
    let resolved = first_match::<ByFqn>(
        &ByFqn(Fqn::new("com.example.Service")),
        &[&registries.java_symbols, &registries.jvm_types],
    );
    assert_eq!(resolved, Some(java_id));
}

#[test]
fn falls_through_to_jvm_when_no_java_provider_exists() {
    let mut graph: Graph<NodePayload> = Graph::new();
    let mut registries = Registries::new();
    let jvm_id = graph.insert(jvm_type("Service", "com.example.Service", JvmTypeKind::Class), None);
    let _jvm_h = registries.jvm_types.register(JvmTypeKey::new("com.example.Service"), jvm_id);
    let resolved = first_match::<ByFqn>(
        &ByFqn(Fqn::new("com.example.Service")),
        &[&registries.java_symbols, &registries.jvm_types],
    );
    assert_eq!(resolved, Some(jvm_id));
}

#[test]
fn method_overload_keys_distinguish_by_param_types() {
    let mut graph: Graph<NodePayload> = Graph::new();
    let mut registries = Registries::new();
    let owner = "com.example.Service";
    let int_id = graph.insert(jvm_method("process", "com.example.Service.process", owner, TypeRef::Void), None);
    let str_id = graph.insert(jvm_method("process", "com.example.Service.process", owner, TypeRef::Void), None);
    let int_key = JvmMethodKey::new(owner, "process", vec![TypeRef::Primitive(PrimitiveKind::Int)]);
    let str_key = JvmMethodKey::new(owner, "process", vec![TypeRef::simple("java.lang.String")]);
    let _hi = registries.jvm_methods.register(int_key.clone(), int_id);
    let _hs = registries.jvm_methods.register(str_key.clone(), str_id);
    assert_eq!(registries.jvm_methods.providers(&int_key), vec![int_id]);
    assert_eq!(registries.jvm_methods.providers(&str_key), vec![str_id]);
}

#[test]
fn merge_all_unions_java_and_jvm_completions_in_priority_order() {
    let mut beans = Beans::new();
    let owner = "com.example.Service";
    let java_id = beans.graph.insert(java_method("process", "com.example.Service.process"), None);
    let _java_h = beans.registries.java_symbols.register(JavaSymbolKey::new("com.example.Service.process"), java_id);
    let jvm_method_id = beans.graph.insert(
        jvm_method("process", "com.example.Service.process", owner, TypeRef::Void),
        Some(java_id),
    );
    let _jvm_h = beans.registries.jvm_methods.register(JvmMethodKey::new(owner, "process", vec![]), jvm_method_id);
    let field_id = beans.graph.insert(
        jvm_field("name", "com.example.Service.name", owner, TypeRef::simple("java.lang.String")),
        None,
    );
    let _field_h = beans.registries.jvm_fields.register(JvmFieldKey::new(owner, "name"), field_id);
    let queries = [
        RegistryQuery::JavaSymbol(JavaSymbolKey::new("com.example.Service.process")),
        RegistryQuery::JvmMethod(JvmMethodKey::new(owner, "process", vec![])),
        RegistryQuery::JvmField(JvmFieldKey::new(owner, "name")),
    ];
    let results: Vec<NodeId> = queries.iter().flat_map(|q| q.providers(&beans)).collect();
    assert_eq!(results, vec![java_id, jvm_method_id, field_id]);
}

#[test]
fn package_registry_isolated_from_type_registry() {
    let mut graph: Graph<NodePayload> = Graph::new();
    let mut registries = Registries::new();
    let pkg_payload = NodePayload::Jvm(JvmNodePayload::Package(JvmPackageNode {
        header: JvmDeclHeader::new("com.example", "com.example"),
    }));
    let pkg_id = graph.insert(pkg_payload, None);
    let _hp = registries.jvm_packages.register(PackageKey::new("com.example"), pkg_id);
    assert_eq!(registries.jvm_packages.providers(&PackageKey::new("com.example")), vec![pkg_id]);
    assert!(registries.jvm_types.providers(&JvmTypeKey::new("com.example")).is_empty());
}

#[test]
fn enrichments_default_to_none_for_java_sources() {
    let payload = jvm_method("process", "com.example.Service.process", "com.example.Service", TypeRef::Void);
    if let NodePayload::Jvm(JvmNodePayload::Method(node)) = payload {
        assert!(node.enrichments.nullability.is_none());
    } else {
        panic!("expected JvmNodePayload::Method");
    }
    let param = JvmParameter {
        name: "input".to_string(),
        param_type: TypeRef::simple("java.lang.String"),
        is_varargs: false,
        enrichments: JvmEnrichments { nullability: Some(NullabilityInfo::NonNull) },
    };
    assert_eq!(param.enrichments.nullability, Some(NullabilityInfo::NonNull));
}

#[test]
fn all_matches_returns_duplicates_when_same_node_hits_multiple_queries() {
    let mut graph: Graph<NodePayload> = Graph::new();
    let mut registries = Registries::new();
    let id = graph.insert(java_class("Shared", "com.example.Shared"), None);
    let _hj = registries.java_symbols.register(JavaSymbolKey::new("com.example.Shared"), id);
    let _ht = registries.jvm_types.register(JvmTypeKey::new("com.example.Shared"), id);
    let merged = all_matches::<ByFqn>(
        &ByFqn(Fqn::new("com.example.Shared")),
        &[&registries.java_symbols, &registries.jvm_types],
    );
    assert_eq!(merged, vec![id, id]);
}

#[test]
fn releasing_a_nodes_registration_restores_the_registry() {
    let mut registries = Registries::new();
    let earlier = NodeId::placeholder(3);
    let _h = registries.java_symbols.register(JavaSymbolKey::new("a.B"), earlier);
    let payload = java_class("B", "a.B");
    let id = NodeId::placeholder(9);
    let made = payload.on_created(id, &mut registries);
    assert_eq!(made.len(), 1);
    assert_eq!(registries.java_symbols.providers(&JavaSymbolKey::new("a.B")), vec![earlier, id]);
    for r in made {
        registries.release(r);
    }
    assert_eq!(registries.java_symbols.providers(&JavaSymbolKey::new("a.B")), vec![earlier]);
}

#[test]
fn destroying_a_node_releases_its_subtrees_registrations() {
    let mut beans = Beans::new();
    let class = beans.graph.insert(java_class("B", "a.B"), None);
    let method = beans.graph.insert(java_method("run", "a.B.run"), Some(class));
    let other = beans.graph.insert(java_class("C", "a.C"), None);
    let mut held = Vec::new();
    for id in [class, method, other] {
        let payload = &beans.graph.get(id).unwrap().payload;
        held.extend(payload.on_created(id, &mut beans.registries));
    }
    assert_eq!(held.len(), 3);
    let removed = beans.destroy(class, &mut held);
    assert_eq!(removed.len(), 2);
    assert_eq!(held.len(), 1);
    assert!(beans.registries.java_symbols.providers(&JavaSymbolKey::new("a.B")).is_empty());
    assert!(beans.registries.java_symbols.providers(&JavaSymbolKey::new("a.B.run")).is_empty());
    assert_eq!(beans.registries.java_symbols.providers(&JavaSymbolKey::new("a.C")), vec![other]);
}
