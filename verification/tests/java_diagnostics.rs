use beans_core::diagnostics::{compute_diagnostics, Diagnostic, DiagnosticSeverity, Rule, RuleContext};
use beans_core::graph::Graph;
use beans_core::jvm::{Fqn, TypeRef};
use beans_core::languages::java::diagnostics::{AbstractMethodWithBody, UnusedImport};
use beans_core::languages::java::payload::{JavaTypeUseHeader, JavaTypeUseNode};
use beans_core::languages::java::{Import, JavaDeclHeader, JavaMethodNode, JavaNodePayload, JavaSymbolKey};
use beans_core::modifier::Modifier;
use beans_core::primitives::Location;
use beans_core::{NodePayload, Registries};

fn loc(file: &str, line: u32) -> Location {
    Location { file: file.to_string(), start_line: line, start_col: 0, end_line: line, end_col: 5 }
}

fn method(name: &str, file: &str, line: u32, modifiers: Vec<Modifier>, has_body: bool) -> NodePayload {
    let mut header = JavaDeclHeader::new(name, format!("p.A.{name}"));
    header.location = Some(loc(file, line));
    header.modifiers = modifiers;
    NodePayload::Java(JavaNodePayload::Method(JavaMethodNode {
        header,
        return_type: TypeRef::Void,
        parameters: vec![],
        type_parameters: vec![],
        throws: vec![],
        has_body,
    }))
}

fn type_use(file: &str, candidates: &[&str]) -> NodePayload {
    NodePayload::Java(JavaNodePayload::TypeUse(JavaTypeUseNode {
        header: JavaTypeUseHeader {
            location: loc(file, 9),
            candidate_fqns: candidates.iter().map(|c| Fqn::new(*c)).collect(),
        },
    }))
}

#[test]
fn abstract_method_with_body_is_an_error_at_its_location() {
    let mut graph: Graph<NodePayload> = Graph::new();
    graph.insert(method("ok", "A.java", 1, vec![Modifier::Abstract], false), None);
    graph.insert(method("bad", "A.java", 2, vec![Modifier::Public, Modifier::Abstract], true), None);
    graph.insert(method("concrete", "A.java", 3, vec![Modifier::Public], true), None);
    graph.insert(method("elsewhere", "B.java", 4, vec![Modifier::Abstract], true), None);
    let registries = Registries::new();
    let ctx = RuleContext { graph: &graph, registries: &registries, file: "A.java", java_imports: &[] };
    let found = AbstractMethodWithBody.check(&ctx);
    assert_eq!(found.len(), 1);
    let d = &found[0];
    assert_eq!(d.location, loc("A.java", 2));
    assert_eq!(d.severity, DiagnosticSeverity::Error);
    assert_eq!(
        d.message,
        "Method `bad` is declared `abstract` but has a body. Abstract methods may not have an implementation (JLS §8.4.3.1)."
    );
    assert_eq!(d.code.as_deref(), Some("abstract-method-with-body"));
    assert_eq!(AbstractMethodWithBody.code(), "abstract-method-with-body");
}

#[test]
fn unused_single_imports_are_warnings_wildcards_and_statics_are_not() {
    let mut graph: Graph<NodePayload> = Graph::new();
    let mut registries = Registries::new();
    let list = graph.insert(method("dummy", "Other.java", 1, vec![], false), None);
    let _h = registries.java_symbols.register(JavaSymbolKey::new("java.util.List"), list);
    // The use of `List` resolves through its second candidate.
    graph.insert(type_use("A.java", &["p.List", "java.util.List"]), None);
    // A use in another file does not count.
    graph.insert(type_use("B.java", &["java.util.Map"]), None);
    let imports = vec![
        (Import::Single("java.util.List".to_string()), loc("A.java", 1)),
        (Import::Single("java.util.Map".to_string()), loc("A.java", 2)),
        (Import::Wildcard("java.io".to_string()), loc("A.java", 3)),
        (Import::Static("java.lang.Math.max".to_string()), loc("A.java", 4)),
    ];
    let ctx = RuleContext { graph: &graph, registries: &registries, file: "A.java", java_imports: &imports };
    let found = UnusedImport.check(&ctx);
    assert_eq!(found.len(), 1);
    assert_eq!(found[0].location, loc("A.java", 2));
    assert_eq!(found[0].severity, DiagnosticSeverity::Warning);
    assert_eq!(found[0].message, "Unused import: `java.util.Map`.");
    assert_eq!(found[0].code.as_deref(), Some("unused-import"));
}

#[test]
fn no_imports_no_unused_import_findings() {
    let graph: Graph<NodePayload> = Graph::new();
    let registries = Registries::new();
    let ctx = RuleContext { graph: &graph, registries: &registries, file: "A.java", java_imports: &[] };
    assert!(UnusedImport.check(&ctx).is_empty());
}

#[test]
fn compute_diagnostics_dispatches_on_the_java_extension() {
    let mut graph: Graph<NodePayload> = Graph::new();
    graph.insert(method("bad", "src/A.java", 2, vec![Modifier::Abstract], true), None);
    graph.insert(method("bad", "src/A.kt", 2, vec![Modifier::Abstract], true), None);
    let registries = Registries::new();
    let imports = vec![(Import::Single("x.Y".to_string()), loc("src/A.java", 1))];
    let java: Vec<Diagnostic> = compute_diagnostics(&graph, &registries, "src/A.java", &imports);
    assert_eq!(java.len(), 2);
    assert_eq!(java[0].code.as_deref(), Some("abstract-method-with-body"));
    assert_eq!(java[1].code.as_deref(), Some("unused-import"));
    assert!(compute_diagnostics(&graph, &registries, "src/A.kt", &imports).is_empty());
    assert!(compute_diagnostics(&graph, &registries, "src/java", &imports).is_empty());
}
