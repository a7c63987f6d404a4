//! Diagnostics: the neutral value type, the rule interface, and the
//! file-level dispatch that runs the rules of the language owning a file.
use vstd::prelude::*;

use crate::graph::arena::Graph;
use crate::languages::java::syntax::Import;
use crate::payload::NodePayload;
use crate::primitives::Location;
use crate::registries::Registries;
use crate::text::{extension_spec, file_extension};

verus! {

/// Severity tier of a diagnostic.
#[derive(Debug, Clone, Copy, PartialEq, Eq, Hash, Structural)]
pub enum DiagnosticSeverity {
    Error,
    Warning,
    Information,
    Hint,
}

/// One finding: a location, a severity, a message and, optionally, the
/// stable code of the rule that produced it.
#[derive(Debug, Clone, PartialEq)]
pub struct Diagnostic {
    pub location: Location,
    pub severity: DiagnosticSeverity,
    pub message: String,
    pub code: Option<String>,
}

/// `d` reports `message` at `loc` with severity `severity` under the rule
/// code `code`.
pub open spec fn reports(
    d: Diagnostic,
    loc: Location,
    severity: DiagnosticSeverity,
    message: Seq<char>,
    code: Seq<char>,
) -> bool {
    &&& d.location.file@ == loc.file@
    &&& d.location.start_line == loc.start_line
    &&& d.location.start_col == loc.start_col
    &&& d.location.end_line == loc.end_line
    &&& d.location.end_col == loc.end_col
    &&& d.severity == severity
    &&& d.message@ == message
    &&& d.code matches Some(c) && c@ == code
}

/// What a rule sees while it checks one file: the graph, the registries,
/// the file, and the file's Java imports with where each is written.
pub struct RuleContext<'a> {
    pub graph: &'a Graph<NodePayload>,
    pub registries: &'a Registries,
    pub file: &'a str,
    pub java_imports: &'a [(Import, Location)],
}

/// One diagnostic rule.
pub trait Rule {
    /// Stable identifier of the rule, reported as [`Diagnostic::code`].
    fn code(&self) -> &'static str;

    /// Run the rule on `ctx`.
    fn check(&self, ctx: &RuleContext) -> Vec<Diagnostic>
        requires
            ctx.graph.wf(),
            ctx.registries.wf(),
    ;
}

/// A copy of a location.
pub fn copy_location(l: &Location) -> (r: Location)
    ensures
        r.file@ == l.file@,
        r.start_line == l.start_line,
        r.start_col == l.start_col,
        r.end_line == l.end_line,
        r.end_col == l.end_col,
{
    Location {
        file: l.file.as_str().to_string(),
        start_line: l.start_line,
        start_col: l.start_col,
        end_line: l.end_line,
        end_col: l.end_col,
    }
}

/// The diagnostics of the file in `ctx` once its extension is known:
/// every Java rule's findings, in rule order, for a `.java` file; none for
/// any other file.
pub fn diagnostics_for_extension(extension: Option<&str>, ctx: &RuleContext) -> (r: Vec<Diagnostic>)
    requires
        ctx.graph.wf(),
        ctx.registries.wf(),
    ensures
        extension matches Some(e) && e@ == "java"@ ==> crate::languages::java::diagnostics::java_reports(r@, ctx),
        !(extension matches Some(e) && e@ == "java"@) ==> r@.len() == 0,
{
    match extension {
        Some(e) => {
            if crate::text::str_eq(e, "java") {
                crate::languages::java::diagnostics::run_java_rules(ctx)
            } else {
                Vec::new()
            }
        },
        None => Vec::new(),
    }
}

/// Compute every diagnostic for `file`: the rules of the language owning
/// its extension, run in order; nothing for other files.
pub fn compute_diagnostics(
    graph: &Graph<NodePayload>,
    registries: &Registries,
    file: &str,
    java_imports: &[(Import, Location)],
) -> (r: Vec<Diagnostic>)
    requires
        graph.wf(),
        registries.wf(),
    ensures
        ({
            let ctx = RuleContext { graph, registries, file, java_imports };
            &&& extension_spec(file@) == Some("java"@) ==> crate::languages::java::diagnostics::java_reports(r@, &ctx)
            &&& extension_spec(file@) != Some("java"@) ==> r@.len() == 0
        }),
{
    let ctx = RuleContext { graph, registries, file, java_imports };
    diagnostics_for_extension(file_extension(file), &ctx)
}

} // verus!
