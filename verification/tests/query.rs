use beans_core::graph::NodeId;
use beans_core::jvm::JvmTypeKey;
use beans_core::registry::Registry;
use beans_core::{all_matches, first_match, QueryResult, Queryable};

#[test]
fn query_result_from_vec() {
    let r: QueryResult = Vec::<NodeId>::new().into();
    assert!(matches!(r, QueryResult::NoMatch));

    let r: QueryResult = vec![NodeId::placeholder(1)].into();
    assert!(matches!(r, QueryResult::One(_)));

    let r: QueryResult = vec![NodeId::placeholder(1), NodeId::placeholder(2)].into();
    assert!(matches!(r, QueryResult::Many(_)));
}

#[test]
fn query_result_count_and_first() {
    let r = QueryResult::NoMatch;
    assert_eq!(r.count(), 0);
    assert_eq!(r.first(), None);

    let r = QueryResult::One(NodeId::placeholder(7));
    assert_eq!(r.count(), 1);
    assert_eq!(r.first(), Some(NodeId::placeholder(7)));

    let r = QueryResult::Many(vec![NodeId::placeholder(7), NodeId::placeholder(8)]);
    assert_eq!(r.count(), 2);
    assert_eq!(r.first(), Some(NodeId::placeholder(7)));
}

#[test]
fn registry_native_queryable() {
    let mut r: Registry<JvmTypeKey> = Registry::new();
    let key = JvmTypeKey::new("com.example.Foo");

    assert!(matches!(Queryable::query(&r, &key), QueryResult::NoMatch));

    let _h = r.register(key.clone(), NodeId::placeholder(1));
    assert!(matches!(Queryable::query(&r, &key), QueryResult::One(_)));

    let _h2 = r.register(key.clone(), NodeId::placeholder(2));
    assert!(matches!(Queryable::query(&r, &key), QueryResult::Many(_)));
}

#[test]
fn first_match_walks_in_priority_order() {
    let mut r1: Registry<JvmTypeKey> = Registry::new();
    let mut r2: Registry<JvmTypeKey> = Registry::new();
    let key = JvmTypeKey::new("com.example.Foo");

    let _h2 = r2.register(key.clone(), NodeId::placeholder(99));

    let result = first_match::<JvmTypeKey>(&key, &[&r1, &r2]);
    assert_eq!(result, Some(NodeId::placeholder(99)));

    let _h1 = r1.register(key.clone(), NodeId::placeholder(7));
    let result = first_match::<JvmTypeKey>(&key, &[&r1, &r2]);
    assert_eq!(result, Some(NodeId::placeholder(7)));
}

#[test]
fn all_matches_concatenates_query_order() {
    let mut r1: Registry<JvmTypeKey> = Registry::new();
    let mut r2: Registry<JvmTypeKey> = Registry::new();
    let key = JvmTypeKey::new("com.example.Foo");

    let _h1 = r1.register(key.clone(), NodeId::placeholder(1));
    let _h2 = r2.register(key.clone(), NodeId::placeholder(2));

    let results = all_matches::<JvmTypeKey>(&key, &[&r1, &r2]);
    assert_eq!(results, vec![NodeId::placeholder(1), NodeId::placeholder(2)]);
}

#[test]
fn query_result_all_and_is_empty() {
    assert!(QueryResult::NoMatch.is_empty());
    assert!(!QueryResult::Many(vec![]).is_empty());
    assert_eq!(QueryResult::One(NodeId::placeholder(3)).all(), vec![NodeId::placeholder(3)]);
    assert_eq!(QueryResult::Many(vec![]).first(), None);
}
