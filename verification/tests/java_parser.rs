use beans_core::graph::Graph;
use beans_core::jvm::payload::JvmNodePayload;
use beans_core::languages::java::parser::{integrate, parse_java_to_graph, ParsedJavaFile, PendingNode};
use beans_core::languages::java::payload::{JavaNodePayload, JavaTypeKind};
use beans_core::modifier::Modifier;
use beans_core::payload::NodePayload;
use beans_core::registries::Registries;

fn parse(source: &str) -> ParsedJavaFile {
    parse_java_to_graph("Test.java", source)
}

fn find_java<'a>(plan: &'a [PendingNode], name: &str) -> &'a JavaNodePayload {
    plan.iter()
        .filter_map(|p| match p.payload() {
            NodePayload::Java(j) => Some(j),
            _ => None,
        })
        .find(|j| j.header().is_some_and(|h| h.name == name))
        .unwrap_or_else(|| panic!("no Java payload named '{}'", name))
}

#[test]
fn simple_class() {
    let parsed = parse("package com.example;\npublic class Dog {}\n");
    let dog = find_java(parsed.plan(), "Dog");
    if let JavaNodePayload::Type(t) = dog {
        assert_eq!(t.header.fqn.as_str(), "com.example.Dog");
        assert_eq!(t.kind, JavaTypeKind::Class);
        assert!(t.header.modifiers.contains(&Modifier::Public));
    } else {
        panic!("expected Type payload");
    }
}

#[test]
fn class_with_members_emits_pairs_in_topological_order() {
    let source = r#"
package com.example;
public class Dog {
    private String name;
    public Dog(String name) { this.name = name; }
    public String getName() { return name; }
}
"#;
    let parsed = parse(source);
    let plan = parsed.plan();
    let dog_idx = 0;
    assert_eq!(plan[dog_idx].parent(), None);
    assert_eq!(plan[dog_idx + 1].parent(), Some(dog_idx));
    for member in plan.iter().skip(2) {
        if let NodePayload::Java(_) = member.payload() {
            assert_eq!(member.parent(), Some(dog_idx));
        }
    }
    let name_field = find_java(plan, "name");
    if let JavaNodePayload::Field(f) = name_field {
        assert_eq!(f.field_type.to_string(), "String");
    } else {
        panic!("expected Field");
    }
    let getter = find_java(plan, "getName");
    if let JavaNodePayload::Method(m) = getter {
        assert_eq!(m.return_type.to_string(), "String");
    } else {
        panic!("expected Method");
    }
}

#[test]
fn enum_constants_emit_as_enum_constant_not_field() {
    let source = r#"
package com.example;
public enum Color { RED, GREEN, BLUE; public String label() { return name(); } }
"#;
    let parsed = parse(source);
    let red = find_java(parsed.plan(), "RED");
    assert!(matches!(red, JavaNodePayload::EnumConstant(_)));
    let label = find_java(parsed.plan(), "label");
    assert!(matches!(label, JavaNodePayload::Method(_)));
}

#[test]
fn jvm_method_keys_carry_erased_param_types() {
    let source = r#"
package com.example;
public class Service {
    public void process(java.util.List<String> items) {}
}
"#;
    let parsed = parse(source);
    let process_jvm = parsed
        .plan()
        .iter()
        .filter_map(|p| match p.payload() {
            NodePayload::Jvm(JvmNodePayload::Method(m)) if m.header.name == "process" => Some(m),
            _ => None,
        })
        .next()
        .expect("JVM process method");
    assert_eq!(process_jvm.parameters.len(), 1);
    let erased = &process_jvm.parameters[0].param_type;
    assert_eq!(erased.to_string(), "java.util.List");
}

#[test]
fn varargs_parameter_flagged() {
    let parsed = parse("package com.example;\npublic class V { public void f(String... xs) {} }\n");
    let f = find_java(parsed.plan(), "f");
    if let JavaNodePayload::Method(m) = f {
        assert_eq!(m.parameters.len(), 1);
        assert!(m.parameters[0].is_varargs);
    } else {
        panic!("expected Method payload");
    }
}

#[test]
fn nested_class_parent_points_at_outer() {
    let source = r#"
package com.example;
public class Outer {
    public class Inner { private int value; }
}
"#;
    let parsed = parse(source);
    let plan = parsed.plan();
    let outer_idx = 0;
    let inner_idx = plan
        .iter()
        .position(|p| matches!(p.payload(), NodePayload::Java(j) if j.header().is_some_and(|h| h.name == "Inner")))
        .expect("inner not found");
    assert_eq!(plan[inner_idx].parent(), Some(outer_idx));
    let value_idx = plan
        .iter()
        .position(|p| matches!(p.payload(), NodePayload::Java(j) if j.header().is_some_and(|h| h.name == "value")))
        .expect("value field not found");
    assert_eq!(plan[value_idx].parent(), Some(inner_idx));
    let inner = find_java(plan, "Inner");
    if let JavaNodePayload::Type(t) = inner {
        assert_eq!(t.header.fqn.as_str(), "com.example.Outer.Inner");
    }
}

#[test]
fn modifiers_propagate_through_pair() {
    let source = r#"
package com.example;
public abstract class Base {
    protected static final int MAX = 100;
    public abstract void doWork();
}
"#;
    let parsed = parse(source);
    let base = find_java(parsed.plan(), "Base");
    let mods = match base {
        JavaNodePayload::Type(t) => &t.header.modifiers,
        _ => panic!(),
    };
    assert!(mods.contains(&Modifier::Public));
    assert!(mods.contains(&Modifier::Abstract));
    let max = find_java(parsed.plan(), "MAX");
    let mods = max.header().unwrap().modifiers.clone();
    assert!(mods.contains(&Modifier::Protected));
    assert!(mods.contains(&Modifier::Static));
    assert!(mods.contains(&Modifier::Final));
}

#[test]
fn package_extracted_into_parsed_file() {
    let parsed = parse("package com.example;\npublic class Foo {}\n");
    assert_eq!(parsed.package, "com.example");
}

#[test]
fn no_package_yields_empty_string() {
    let parsed = parse("public class Foo {}\n");
    assert_eq!(parsed.package, "");
    let foo = find_java(parsed.plan(), "Foo");
    if let JavaNodePayload::Type(t) = foo {
        assert_eq!(t.header.fqn.as_str(), "Foo");
    }
}

#[test]
fn multiple_field_declarators() {
    let parsed = parse("package com.example;\npublic class M { private int a, b, c; }\n");
    for n in &["a", "b", "c"] {
        let f = find_java(parsed.plan(), n);
        if let JavaNodePayload::Field(field) = f {
            assert_eq!(field.header.fqn.as_str(), &format!("com.example.M.{n}"));
        } else {
            panic!("expected Field payload for {n}");
        }
    }
}

#[test]
fn annotation_type_parsed_as_annotation_kind() {
    let parsed = parse("package com.example;\npublic @interface MyAnnotation { String value(); }\n");
    let annot = find_java(parsed.plan(), "MyAnnotation");
    if let JavaNodePayload::Type(t) = annot {
        assert_eq!(t.kind, JavaTypeKind::Annotation);
        assert_eq!(t.header.fqn.as_str(), "com.example.MyAnnotation");
    } else {
        panic!("expected Type payload");
    }
}

#[test]
fn interface_body_emits_methods_as_children() {
    let parsed = parse("package com.example;\npublic interface Foo { void bar(); }\n");
    let foo = find_java(parsed.plan(), "Foo");
    match foo {
        JavaNodePayload::Type(t) => assert_eq!(t.kind, JavaTypeKind::Interface),
        _ => panic!("expected Type payload"),
    }
    let bar = find_java(parsed.plan(), "bar");
    assert!(matches!(bar, JavaNodePayload::Method(_)));
}

#[test]
fn generic_class_carries_type_parameters() {
    let parsed = parse("package com.example;\npublic class Box<T> { T value; }\n");
    let boxed = find_java(parsed.plan(), "Box");
    if let JavaNodePayload::Type(t) = boxed {
        assert_eq!(t.type_parameters.len(), 1);
        assert_eq!(t.type_parameters[0].name, "T");
    } else {
        panic!("expected Type payload");
    }
}

#[test]
fn java_field_preserves_parameterized_type() {
    let parsed = parse("package com.example;\npublic class C { java.util.List<String> xs; }\n");
    let xs = find_java(parsed.plan(), "xs");
    if let JavaNodePayload::Field(f) = xs {
        let ty = f.field_type.to_string();
        assert!(ty.contains("List") && ty.contains("String"), "expected List<String>, got `{ty}`");
    } else {
        panic!("expected Field payload");
    }
}

#[test]
fn array_types_parse_through_fallback_chain() {
    let parsed = parse("package com.example;\npublic class C { int[] a; String[][] b; }\n");
    let a = find_java(parsed.plan(), "a");
    if let JavaNodePayload::Field(f) = a {
        let ty = f.field_type.to_string();
        assert!(ty.contains("[]"), "expected `int[]` as an array, got `{ty}`");
    } else {
        panic!("expected Field payload for `a`");
    }
    let b = find_java(parsed.plan(), "b");
    if let JavaNodePayload::Field(f) = b {
        let ty = f.field_type.to_string();
        assert!(ty.contains("[]"), "expected `String[][]` as an array, got `{ty}`");
    } else {
        panic!("expected Field payload for `b`");
    }
}

#[test]
fn declaration_location_tracks_source_line() {
    let source = "package com.example;\n\npublic class Foo {\n}\n";
    let parsed = parse(source);
    let foo = find_java(parsed.plan(), "Foo");
    if let JavaNodePayload::Type(t) = foo {
        let loc = t.header.location.as_ref().expect("source-derived payloads carry locations");
        assert_eq!(loc.start_line, 2, "Foo declaration should start on row 2");
    } else {
        panic!("expected Type payload");
    }
}

#[test]
fn plan_pairs_and_exact_shapes() {
    let source = "package p;\nimport java.util.List;\nclass A { int x; A() {} java.util.Map<String, int[]> m(List<? extends T> l) { return null; } }\n";
    let parsed = parse(source);
    assert_eq!(parsed.path, "Test.java");
    assert_eq!(parsed.imports.len(), 1);
    let plan = parsed.plan();
    assert_eq!(plan.len(), 8);
    for (i, p) in plan.iter().enumerate() {
        match p.payload() {
            NodePayload::Java(_) => assert_eq!(i % 2, 0),
            NodePayload::Jvm(_) => {
                assert_eq!(i % 2, 1);
                assert_eq!(p.parent(), Some(i - 1));
            }
        }
    }
    let m = find_java(plan, "m");
    if let JavaNodePayload::Method(m) = m {
        assert_eq!(m.return_type.to_string(), "java.util.Map<String, int[]>");
        assert_eq!(m.parameters[0].param_type.to_string(), "List<?>");
        assert_eq!(m.header.fqn.as_str(), "p.A.m");
    } else {
        panic!("expected Method payload");
    }
    let jvm_m = plan
        .iter()
        .find_map(|p| match p.payload() {
            NodePayload::Jvm(JvmNodePayload::Method(v)) => Some(v),
            _ => None,
        })
        .unwrap();
    assert_eq!(jvm_m.return_type.to_string(), "java.util.Map");
    assert_eq!(jvm_m.owner.as_str(), "p.A");
    let ctor = find_java(plan, "A");
    assert!(matches!(ctor, JavaNodePayload::Type(_)));
}

#[test]
fn integrate_inserts_pairs_and_files_them() {
    let parsed = parse("package p;\nclass A { int x; }\n");
    let mut graph: Graph<NodePayload> = Graph::new();
    let mut registries = Registries::new();
    let (ids, handles) = integrate(&mut graph, &mut registries, parsed);
    assert_eq!(ids.len(), 4);
    assert_eq!(graph.get(ids[1]).unwrap().parent, Some(ids[0]));
    assert_eq!(graph.get(ids[2]).unwrap().parent, Some(ids[0]));
    assert_eq!(graph.get(ids[0]).unwrap().children, vec![ids[1], ids[2]]);
    assert_eq!(handles.len(), 4);
}
