use beans_core::jvm::container::{
    binary_name, class_entry_path, class_names_of, magic_matches, ContainerKind,
};

#[test]
fn binary_name_mapping() {
    assert_eq!(
        binary_name("classes/java/lang/String.class", "classes/"),
        Some("java.lang.String".to_string())
    );
    assert_eq!(
        binary_name("java/util/Map$Entry.class", ""),
        Some("java.util.Map$Entry".to_string())
    );
    assert_eq!(binary_name("lib/libjava.dylib", "classes/"), None);
    assert_eq!(binary_name("java/lang/String.class", "classes/"), None);
    assert_eq!(binary_name("classes/module-info.class", "classes/"), None);
    assert_eq!(binary_name("module-info.class", ""), None);
    assert_eq!(binary_name("META-INF/versions/9/module-info.class", ""), None);
    assert_eq!(binary_name("META-INF/services/foo", ""), None);
}

#[test]
fn class_entry_paths_invert_binary_names() {
    let path = class_entry_path("classes/", "java.util.Map$Entry");
    assert_eq!(path, "classes/java/util/Map$Entry.class");
    assert_eq!(binary_name(&path, "classes/"), Some("java.util.Map$Entry".to_string()));
}

#[test]
fn class_listing_keeps_archive_order_and_skips_other_entries() {
    let entries = vec![
        "META-INF/MANIFEST.MF".to_string(),
        "b/B.class".to_string(),
        "module-info.class".to_string(),
        "a/A$1.class".to_string(),
    ];
    assert_eq!(class_names_of(&entries, ""), vec!["b.B".to_string(), "a.A$1".to_string()]);
}

#[test]
fn magic_bytes_compare_exactly() {
    assert!(magic_matches(*b"JM", *b"JM"));
    assert!(!magic_matches(*b"PK", *b"JM"));
}

#[test]
fn container_kinds_know_their_layout() {
    assert_eq!(ContainerKind::Jmod.magic(), *b"JM");
    assert_eq!(ContainerKind::Jar.magic(), *b"PK");
    assert_eq!(ContainerKind::Jmod.class_prefix(), "classes/");
    assert_eq!(ContainerKind::Jar.class_prefix(), "");
    assert!(magic_matches(*b"PK", ContainerKind::Jar.magic()));
    assert!(!magic_matches(*b"PK", ContainerKind::Jmod.magic()));
}
