use beans_core::modifier::Modifier;
use beans_core::primitives::Location;
use beans_core::symbol::Symbol;
use beans_core::symbol_id::SymbolId;
use beans_core::symbol_kind::SymbolKind;
use beans_core::symbol_table::SymbolTable;

fn make_symbol(fqn: &str, name: &str, kind: SymbolKind, file: &str, parent: Option<SymbolId>, lines: (u32, u32, u32, u32)) -> Symbol {
    Symbol {
        id: SymbolId(0),
        fqn: fqn.to_string(),
        name: name.to_string(),
        kind,
        location: Some(Location {
            file: file.to_string(),
            start_line: lines.0,
            start_col: lines.1,
            end_line: lines.2,
            end_col: lines.3,
        }),
        modifiers: vec![Modifier::Public],
        annotations: vec![],
        parent,
        children: vec![],
        relations: vec![],
        signature: None,
    }
}

fn make_class(fqn: &str, name: &str, file: &str, parent: Option<SymbolId>) -> Symbol {
    make_symbol(fqn, name, SymbolKind::Class, file, parent, (1, 0, 10, 0))
}

fn make_method(fqn: &str, name: &str, file: &str, parent: Option<SymbolId>) -> Symbol {
    make_symbol(fqn, name, SymbolKind::Method, file, parent, (5, 4, 8, 4))
}

#[test]
fn insert_and_lookup_by_fqn() {
    let mut table = SymbolTable::new();
    let id = table.insert(make_class("com.example.MyClass", "MyClass", "src/MyClass.java", None));
    assert_eq!(table.lookup_by_fqn("com.example.MyClass"), Some(id));
    assert_eq!(table.lookup_by_fqn("com.example.Other"), None);
}

#[test]
fn lookup_by_name() {
    let mut table = SymbolTable::new();
    let id = table.insert(make_class("com.example.MyClass", "MyClass", "src/MyClass.java", None));
    let results = table.lookup_by_name("MyClass");
    assert_eq!(results, vec![id]);
    assert!(table.lookup_by_name("Other").is_empty());
}

#[test]
fn lookup_by_package() {
    let mut table = SymbolTable::new();
    let id = table.insert(make_class("com.example.MyClass", "MyClass", "src/MyClass.java", None));
    let results = table.lookup_by_package("com.example");
    assert_eq!(results, vec![id]);
    assert!(table.lookup_by_package("com.other").is_empty());
}

#[test]
fn lookup_by_kind() {
    let mut table = SymbolTable::new();
    let class_id = table.insert(make_class("com.example.MyClass", "MyClass", "src/MyClass.java", None));
    let method_id = table.insert(make_method(
        "com.example.MyClass.doWork",
        "doWork",
        "src/MyClass.java",
        Some(class_id),
    ));
    assert_eq!(table.lookup_by_kind(SymbolKind::Class), vec![class_id]);
    assert_eq!(table.lookup_by_kind(SymbolKind::Method), vec![method_id]);
}

#[test]
fn lookup_by_file() {
    let mut table = SymbolTable::new();
    let id1 = table.insert(make_class("com.example.MyClass", "MyClass", "src/MyClass.java", None));
    let id2 = table.insert(make_method(
        "com.example.MyClass.doWork",
        "doWork",
        "src/MyClass.java",
        Some(id1),
    ));
    let _id3 = table.insert(make_class("com.example.Other", "Other", "src/Other.java", None));
    assert_eq!(table.lookup_by_file("src/MyClass.java"), vec![id1, id2]);
}

#[test]
fn parent_child_relationships() {
    let mut table = SymbolTable::new();
    let class_id = table.insert(make_class("com.example.MyClass", "MyClass", "src/MyClass.java", None));
    let method_id = table.insert(make_method(
        "com.example.MyClass.doWork",
        "doWork",
        "src/MyClass.java",
        Some(class_id),
    ));
    assert_eq!(table.lookup_children(class_id), vec![method_id]);
    let symbol = table.get(method_id).unwrap();
    assert_eq!(symbol.parent, Some(class_id));
}

#[test]
fn remove_by_file_clears_all_indexes() {
    let mut table = SymbolTable::new();
    let class_id = table.insert(make_class("com.example.MyClass", "MyClass", "src/MyClass.java", None));
    let _method_id = table.insert(make_method(
        "com.example.MyClass.doWork",
        "doWork",
        "src/MyClass.java",
        Some(class_id),
    ));
    let other_id = table.insert(make_class("com.example.Other", "Other", "src/Other.java", None));

    table.remove_by_file("src/MyClass.java");

    assert_eq!(table.lookup_by_fqn("com.example.MyClass"), None);
    assert_eq!(table.lookup_by_fqn("com.example.MyClass.doWork"), None);
    assert!(table.lookup_by_name("MyClass").is_empty());
    assert!(table.lookup_by_name("doWork").is_empty());
    assert!(table.lookup_by_kind(SymbolKind::Method).is_empty());
    assert!(table.lookup_by_file("src/MyClass.java").is_empty());
    assert!(table.lookup_children(class_id).is_empty());
    assert!(table.get(class_id).is_none());

    assert_eq!(table.lookup_by_fqn("com.example.Other"), Some(other_id));
    assert!(table.get(other_id).is_some());
}

#[test]
fn reinsert_after_removal() {
    let mut table = SymbolTable::new();
    let _old_id = table.insert(make_class("com.example.MyClass", "MyClass", "src/MyClass.java", None));
    table.remove_by_file("src/MyClass.java");
    let new_id = table.insert(make_class("com.example.MyClass", "MyClass", "src/MyClass.java", None));

    assert_eq!(table.lookup_by_fqn("com.example.MyClass"), Some(new_id));
    assert!(table.get(new_id).is_some());
    assert_eq!(table.lookup_by_name("MyClass"), vec![new_id]);
    assert_eq!(table.lookup_by_file("src/MyClass.java"), vec![new_id]);
}

#[test]
fn table_len_and_is_empty_count_removed_symbols() {
    let mut table = SymbolTable::new();
    assert!(table.is_empty());
    let a = table.insert(make_class("p.A", "A", "A.java", None));
    let _b = table.insert(make_class("p.B", "B", "B.java", None));
    assert_eq!(a, SymbolId(0));
    assert_eq!(table.len(), 2);
    assert!(!table.is_empty());
    table.remove_by_file("A.java");
    table.remove_by_file("B.java");
    assert_eq!(table.len(), 2);
    assert!(table.is_empty());
    // removing a file with no live symbols changes nothing
    table.remove_by_file("A.java");
    assert!(table.is_empty());
}

#[test]
fn fqn_index_keeps_the_latest_insertion() {
    let mut table = SymbolTable::new();
    let first = table.insert(make_class("p.A", "A", "One.java", None));
    let second = table.insert(make_class("p.A", "A", "Two.java", None));
    assert_eq!(table.lookup_by_fqn("p.A"), Some(second));
    assert_eq!(table.lookup_by_name("A"), vec![first, second]);
    // removing the first file takes the FQN out of the index
    table.remove_by_file("One.java");
    assert_eq!(table.lookup_by_fqn("p.A"), None);
    assert_eq!(table.lookup_by_name("A"), vec![second]);
}

#[test]
fn package_needs_a_dot() {
    let mut table = SymbolTable::new();
    let id = table.insert(make_class("Plain", "Plain", "Plain.java", None));
    assert!(table.lookup_by_package("").is_empty());
    assert_eq!(table.lookup_by_fqn("Plain"), Some(id));
    let nested = table.insert(make_class("a.b.C.D", "D", "C.java", None));
    assert_eq!(table.lookup_by_package("a.b.C"), vec![nested]);
}

#[test]
fn get_mut_edits_the_symbol_but_not_the_indices() {
    let mut table = SymbolTable::new();
    let id = table.insert(make_class("p.A", "A", "A.java", None));
    table.get_mut(id).unwrap().name = "Renamed".to_string();
    assert_eq!(table.get(id).unwrap().name, "Renamed");
    assert_eq!(table.lookup_by_name("A"), vec![id]);
    assert!(table.lookup_by_name("Renamed").is_empty());
    table.remove_by_file("A.java");
    assert!(table.get_mut(id).is_none());
}

#[test]
fn insert_parsed_symbols_remaps_local_parents() {
    let mut table = SymbolTable::new();
    let _pre = table.insert(make_class("q.Z", "Z", "Z.java", None));
    let batch = vec![
        make_class("p.A", "A", "A.java", None),
        make_method("p.A.m", "m", "A.java", Some(SymbolId(0))),
        make_method("p.A.n", "n", "A.java", Some(SymbolId(0))),
        // a forward reference becomes no parent
        make_method("p.A.o", "o", "A.java", Some(SymbolId(7))),
    ];
    table.insert_parsed_symbols(batch);
    assert_eq!(table.len(), 5);
    let a = table.get(SymbolId(1)).unwrap();
    assert_eq!(a.id, SymbolId(1));
    assert_eq!(a.children, vec![SymbolId(2), SymbolId(3)]);
    assert_eq!(table.get(SymbolId(2)).unwrap().parent, Some(SymbolId(1)));
    assert_eq!(table.get(SymbolId(4)).unwrap().parent, None);
    assert_eq!(table.lookup_children(SymbolId(1)), vec![SymbolId(2), SymbolId(3)]);
    assert_eq!(table.lookup_by_fqn("p.A.n"), Some(SymbolId(3)));
}
