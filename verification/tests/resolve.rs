use beans_core::jvm::signature::{MethodParam, Signature};
use beans_core::modifier::Modifier;
use beans_core::primitives::Location;
use beans_core::resolve::{
    build_hover_text, find_references_by_name, resolve_compound_name, resolve_name, Import,
};
use beans_core::symbol::Symbol;
use beans_core::symbol_id::SymbolId;
use beans_core::symbol_kind::SymbolKind;
use beans_core::symbol_table::SymbolTable;
use beans_core::type_ref::{PrimitiveKind, TypeParam, TypeRef};

fn class(fqn: &str, name: &str, file: Option<&str>, parent: Option<SymbolId>, kind: SymbolKind) -> Symbol {
    Symbol {
        id: SymbolId(0),
        fqn: fqn.to_string(),
        name: name.to_string(),
        kind,
        location: file.map(|f| Location {
            file: f.to_string(),
            start_line: 2,
            start_col: 0,
            end_line: 10,
            end_col: 0,
        }),
        modifiers: vec![Modifier::Public],
        annotations: vec![],
        parent,
        children: vec![],
        relations: vec![],
        signature: None,
    }
}

type Imports = Vec<(String, Vec<Import>)>;
type Packages = Vec<(String, String)>;

fn make_table_with_classes() -> (SymbolTable, Imports, Packages) {
    let mut table = SymbolTable::new();
    table.insert(class("com.example.MyClass", "MyClass", Some("src/MyClass.java"), None, SymbolKind::Class));
    table.insert(class("com.other.Helper", "Helper", Some("src/Helper.java"), None, SymbolKind::Class));
    let imports = vec![(
        "src/Test.java".to_string(),
        vec![Import::Single("com.other.Helper".to_string())],
    )];
    let packages = vec![("src/Test.java".to_string(), "com.example".to_string())];
    (table, imports, packages)
}

#[test]
fn test_resolve_by_fqn() {
    let (table, imports, packages) = make_table_with_classes();
    let result = resolve_name("com.example.MyClass", "src/Test.java", &imports, &packages, &table);
    assert!(result.is_some());
    assert_eq!(table.get(result.unwrap()).unwrap().fqn, "com.example.MyClass");
}

#[test]
fn test_resolve_by_import() {
    let (table, imports, packages) = make_table_with_classes();
    let result = resolve_name("Helper", "src/Test.java", &imports, &packages, &table);
    assert!(result.is_some());
    assert_eq!(table.get(result.unwrap()).unwrap().fqn, "com.other.Helper");
}

#[test]
fn test_resolve_same_package() {
    let (table, imports, packages) = make_table_with_classes();
    let result = resolve_name("MyClass", "src/Test.java", &imports, &packages, &table);
    assert!(result.is_some());
    assert_eq!(table.get(result.unwrap()).unwrap().fqn, "com.example.MyClass");
}

#[test]
fn test_resolve_wildcard_import() {
    let mut table = SymbolTable::new();
    table.insert(class("java.util.ArrayList", "ArrayList", None, None, SymbolKind::Class));
    let imports = vec![("Test.java".to_string(), vec![Import::Wildcard("java.util".to_string())])];
    let packages: Packages = vec![];
    let result = resolve_name("ArrayList", "Test.java", &imports, &packages, &table);
    assert!(result.is_some());
}

#[test]
fn test_resolve_compound_name() {
    let mut table = SymbolTable::new();
    let class_id = table.insert(class("com.example.MyClass", "MyClass", Some("MyClass.java"), None, SymbolKind::Class));
    table.insert(class("com.example.MyClass.doWork", "doWork", Some("MyClass.java"), Some(class_id), SymbolKind::Method));
    let imports = vec![(
        "Test.java".to_string(),
        vec![Import::Single("com.example.MyClass".to_string())],
    )];
    let packages: Packages = vec![];
    let result = resolve_compound_name("MyClass.doWork", "Test.java", &imports, &packages, &table);
    assert!(result.is_some());
    assert_eq!(table.get(result.unwrap()).unwrap().name, "doWork");
}

#[test]
fn test_build_hover_text_method() {
    let mut sym = class("com.example.MyClass.doWork", "doWork", None, None, SymbolKind::Method);
    sym.signature = Some(Signature::Method {
        return_type: TypeRef::simple("String"),
        parameters: vec![MethodParam {
            name: "input".to_string(),
            param_type: TypeRef::Primitive(PrimitiveKind::Int),
            is_varargs: false,
        }],
        type_parameters: vec![],
        throws: vec![],
    });
    let text = build_hover_text(&sym);
    assert!(text.contains("String"));
    assert!(text.contains("doWork"));
    assert!(text.contains("int input"));
    assert!(text.contains("com.example.MyClass.doWork"));
    assert_eq!(
        text,
        "```java\nString doWork(int input)\n```\n\nmethod `com.example.MyClass.doWork`"
    );
}

#[test]
fn test_build_hover_text_class() {
    let mut sym = class("com.example.Container", "Container", None, None, SymbolKind::Class);
    sym.modifiers = vec![];
    sym.signature = Some(Signature::Class { type_parameters: vec![TypeParam::new("T")] });
    let text = build_hover_text(&sym);
    assert!(text.contains("Container<T>"));
    assert!(text.contains("com.example.Container"));
    assert_eq!(text, "```java\nclass Container<T>\n```\n\n`com.example.Container`");
}

#[test]
fn hover_text_without_signature_and_for_fields() {
    let sym = class("p.pkg", "pkg", None, None, SymbolKind::Package);
    assert_eq!(build_hover_text(&sym), "```java\npackage pkg\n```\n\n`p.pkg`");
    let mut field = class("p.A.count", "count", None, None, SymbolKind::Field);
    field.signature = Some(Signature::Field {
        field_type: TypeRef::parameterized(TypeRef::simple("List"), vec![TypeRef::simple("String")]),
        constant_value: None,
        initialized: false,
    });
    assert_eq!(build_hover_text(&field), "```java\nList<String> count\n```\n\nfield `p.A.count`");
    let mut generic = class("p.A.pick", "pick", None, None, SymbolKind::Method);
    generic.signature = Some(Signature::Method {
        return_type: TypeRef::type_var("K"),
        parameters: vec![
            MethodParam { name: "a".to_string(), param_type: TypeRef::type_var("K"), is_varargs: false },
            MethodParam { name: "b".to_string(), param_type: TypeRef::type_var("V"), is_varargs: false },
        ],
        type_parameters: vec![TypeParam::new("K"), TypeParam::new("V")],
        throws: vec![],
    });
    assert_eq!(build_hover_text(&generic), "```java\n<K, V>K pick(K a, V b)\n```\n\nmethod `p.A.pick`");
}

#[test]
fn resolution_order_and_fallbacks() {
    let mut table = SymbolTable::new();
    let util = table.insert(class("java.util.List", "List", None, None, SymbolKind::Interface));
    let awt = table.insert(class("java.awt.List", "List", None, None, SymbolKind::Class));
    let max = table.insert(class("com.u.Utils.MAX", "MAX", None, None, SymbolKind::Field));
    let lone = table.insert(class("x.y.Lonely", "Lonely", None, None, SymbolKind::Class));
    let imports = vec![(
        "T.java".to_string(),
        vec![
            Import::Wildcard("java.awt".to_string()),
            Import::Single("java.util.List".to_string()),
            Import::Static("com.u.Utils.MAX".to_string()),
        ],
    )];
    let packages: Packages = vec![];
    // an explicit import wins over a wildcard
    assert_eq!(resolve_name("List", "T.java", &imports, &packages, &table), Some(util));
    // a static import names the member
    assert_eq!(resolve_name("MAX", "T.java", &imports, &packages, &table), Some(max));
    // a unique simple name is found without imports
    assert_eq!(resolve_name("Lonely", "Other.java", &imports, &packages, &table), Some(lone));
    // an ambiguous simple name is not
    assert_eq!(resolve_name("List", "Other.java", &imports, &packages, &table), None);
    assert_eq!(find_references_by_name("List", &table), vec![util, awt]);
    assert_eq!(resolve_compound_name("Nope.x", "T.java", &imports, &packages, &table), None);
}
