use beans_core::languages::java::syntax::{extract_imports, extract_package, word_at_position, Import};
use beans_core::languages::java::types::TypeRef as JavaTypeRef;

#[test]
fn imports_of_each_shape() {
    let src = "package a.b;\nimport java.util.List;\n  import java.io.*;\nimport static java.lang.Math.max;\nimportant();\nclass X {}\n";
    let imports = extract_imports(src);
    assert_eq!(imports.len(), 3);
    assert!(matches!(&imports[0], Import::Single(f) if f == "java.util.List"));
    assert!(matches!(&imports[1], Import::Wildcard(p) if p == "java.io"));
    assert!(matches!(&imports[2], Import::Static(f) if f == "java.lang.Math.max"));
}

#[test]
fn package_or_empty() {
    assert_eq!(extract_package("// c\npackage com.example ;\nclass A {}\n"), "com.example");
    assert_eq!(extract_package("class A {}\n"), "");
    assert_eq!(extract_package("package first;\npackage second;\n"), "first");
}

#[test]
fn word_under_the_cursor() {
    let src = "class Foo {\n  int bar_1 = baz;\r\n}\n";
    assert_eq!(word_at_position(src, 0, 7).as_deref(), Some("Foo"));
    assert_eq!(word_at_position(src, 0, 6).as_deref(), Some("Foo"));
    assert_eq!(word_at_position(src, 0, 9).as_deref(), Some("Foo"));
    assert_eq!(word_at_position(src, 1, 8).as_deref(), Some("bar_1"));
    assert_eq!(word_at_position(src, 1, 11).as_deref(), Some("bar_1"));
    assert_eq!(word_at_position(src, 1, 12).as_deref(), None);
    assert_eq!(word_at_position(src, 1, 99), None);
    assert_eq!(word_at_position(src, 7, 0), None);
}

#[test]
fn java_types_print_and_convert() {
    let t = JavaTypeRef::Parameterized(
        "Map".to_string(),
        vec![JavaTypeRef::Primitive("int".to_string()), JavaTypeRef::Array(Box::new(JavaTypeRef::Wildcard))],
    );
    assert_eq!(t.to_string_repr(), "Map<int, ?[]>");
    assert_eq!(t.to_core().to_string(), "Map<int, ?[]>");
    assert_eq!(JavaTypeRef::Primitive("bogus".to_string()).to_core().to_string(), "bogus");
    assert_eq!(JavaTypeRef::Qualified("a.B".to_string()).to_core().to_string(), "a.B");
    assert_eq!(JavaTypeRef::Void.to_core().to_string(), "void");
}
