//! Java diagnostic rules.
//!
//! - [`AbstractMethodWithBody`]: an `abstract` method may not carry a
//!   `{ ... }` body (JLS §8.4.3.1).
//! - [`UnusedImport`]: a single-type import that no type use in the file
//!   resolves to. Wildcard and static imports are not flagged: whether
//!   they contribute to a resolution cannot be told from type uses alone.
use vstd::prelude::*;

use crate::diagnostics::{copy_location, reports, Diagnostic, DiagnosticSeverity, Rule, RuleContext};
use crate::graph::arena::{Graph, NodeId, NodeView};
use crate::jvm::fqn::Fqn;
use crate::languages::java::keys::JavaSymbolKey;
use crate::languages::java::payload::JavaNodePayload;
use crate::languages::java::syntax::Import;
use crate::modifier::Modifier;
use crate::payload::NodePayload;
use crate::primitives::Location;
use crate::registries::Registries;
use crate::text::str_eq;

verus! {

/// JLS §8.4.3.1: a method declared `abstract` may not have a body.
pub struct AbstractMethodWithBody;

/// JLS §7.5.1: a single-type import must be used somewhere in the file.
pub struct UnusedImport;

/// `order` lists every node of `g` once, by ascending slot: the order in
/// which the rules visit the graph.
pub open spec fn slot_ordered(g: Map<NodeId, NodeView<NodePayload>>, order: Seq<NodeId>) -> bool {
    &&& forall|j: int| 0 <= j < order.len() ==> g.contains_key(#[trigger] order[j])
    &&& forall|j: int, k: int| 0 <= j < k < order.len() ==> order[j].slot < order[k].slot
    &&& forall|id: NodeId| #[trigger] g.contains_key(id) ==> order.contains(id)
}

pub open spec fn abstract_message(name: Seq<char>) -> Seq<char> {
    "Method `"@ + name
        + "` is declared `abstract` but has a body. Abstract methods may not have an implementation (JLS §8.4.3.1)."@
}

pub open spec fn unused_message(fqn: Seq<char>) -> Seq<char> {
    "Unused import: `"@ + fqn + "`."@
}

/// The location and name of the node, when it is a Java method of `file`
/// declared `abstract` with a body.
pub open spec fn abstract_finding(p: NodePayload, file: Seq<char>) -> Option<(Location, Seq<char>)> {
    match p {
        NodePayload::Java(JavaNodePayload::Method(m)) => match m.header.location {
            Some(loc) => if loc.file@ == file && m.header.modifiers@.contains(Modifier::Abstract)
                && m.has_body {
                Some((loc, m.header.name@))
            } else {
                None
            },
            None => None,
        },
        _ => None,
    }
}

/// The abstract-method findings, visiting the nodes in `order`.
pub open spec fn abstract_findings(
    g: Map<NodeId, NodeView<NodePayload>>,
    order: Seq<NodeId>,
    file: Seq<char>,
) -> Seq<(Location, Seq<char>)>
    decreases order.len(),
{
    if order.len() == 0 {
        Seq::empty()
    } else {
        abstract_findings(g, order.drop_last(), file) + match abstract_finding(
            g[order.last()].payload,
            file,
        ) {
            Some(f) => seq![f],
            None => Seq::empty(),
        }
    }
}

/// The first candidate FQN that has a provider in the Java symbol
/// registry.
pub open spec fn first_resolving(cands: Seq<Fqn>, r: Registries) -> Option<Seq<char>>
    decreases cands.len(),
{
    if cands.len() == 0 {
        None
    } else if r.java_symbols.providers_of(cands[0]@).len() > 0 {
        Some(cands[0]@)
    } else {
        first_resolving(cands.drop_first(), r)
    }
}

/// What a node of `file` counts as a use of: for a type use, the first of
/// its candidates that resolves.
pub open spec fn use_of(p: NodePayload, file: Seq<char>, r: Registries) -> Option<Seq<char>> {
    match p {
        NodePayload::Java(JavaNodePayload::TypeUse(t)) => if t.header.location.file@ == file {
            first_resolving(t.header.candidate_fqns@, r)
        } else {
            None
        },
        _ => None,
    }
}

/// Every FQN some type use of `file` resolves to.
pub open spec fn used_fqns(g: Map<NodeId, NodeView<NodePayload>>, file: Seq<char>, r: Registries) -> Set<
    Seq<char>,
> {
    Set::new(
        |f: Seq<char>|
            exists|id: NodeId| #[trigger] g.contains_key(id) && use_of(g[id].payload, file, r) == Some(f),
    )
}

/// The unused-import findings: each single-type import, in order, whose
/// FQN is not used (none at all when the file has no imports).
pub open spec fn unused_findings(imports: Seq<(Import, Location)>, used: Set<Seq<char>>) -> Seq<
    (Location, Seq<char>),
>
    decreases imports.len(),
{
    if imports.len() == 0 {
        Seq::empty()
    } else {
        unused_findings(imports.drop_last(), used) + match imports.last().0 {
            Import::Single(f) => if !used.contains(f@) {
                seq![(imports.last().1, f@)]
            } else {
                Seq::empty()
            },
            _ => Seq::empty(),
        }
    }
}

/// `r` reports exactly `fs`, each as `message` of its text.
pub open spec fn reports_all(
    r: Seq<Diagnostic>,
    fs: Seq<(Location, Seq<char>)>,
    severity: DiagnosticSeverity,
    unused: bool,
    code: Seq<char>,
) -> bool {
    &&& r.len() == fs.len()
    &&& forall|i: int|
        0 <= i < r.len() ==> reports(
            #[trigger] r[i],
            fs[i].0,
            severity,
            if unused {
                unused_message(fs[i].1)
            } else {
                abstract_message(fs[i].1)
            },
            code,
        )
}

/// The abstract-method-with-body findings of `ctx`, reported in slot order.
pub open spec fn abstract_reports(r: Seq<Diagnostic>, ctx: &RuleContext) -> bool {
    exists|order: Seq<NodeId>|
        slot_ordered(ctx.graph.nodes(), order) && reports_all(
            r,
            abstract_findings(ctx.graph.nodes(), order, ctx.file@),
            DiagnosticSeverity::Error,
            false,
            "abstract-method-with-body"@,
        )
}

/// The unused-import findings of `ctx`.
pub open spec fn unused_reports(r: Seq<Diagnostic>, ctx: &RuleContext) -> bool {
    reports_all(
        r,
        unused_findings(ctx.java_imports@, used_fqns(ctx.graph.nodes(), ctx.file@, *ctx.registries)),
        DiagnosticSeverity::Warning,
        true,
        "unused-import"@,
    )
}

/// Every Java rule's findings, in rule order.
pub open spec fn java_reports(r: Seq<Diagnostic>, ctx: &RuleContext) -> bool {
    exists|k: int|
        0 <= k <= r.len() && abstract_reports(r.subrange(0, k), ctx) && unused_reports(
            r.subrange(k, r.len() as int),
            ctx,
        )
}

fn has_modifier(ms: &Vec<Modifier>, m: Modifier) -> (b: bool)
    ensures
        b == ms@.contains(m),
{
    let mut i: usize = 0;
    while i < ms.len()
        invariant
            i <= ms@.len(),
            forall|j: int| 0 <= j < i ==> ms@[j] != m,
        decreases ms.len() - i,
    {
        if ms[i] == m {
            return true;
        }
        i += 1;
    }
    false
}

/// The ids of the iteration entries, in order.
pub open spec fn entry_ids<'a>(es: Seq<(NodeId, &'a crate::graph::arena::NodeData<NodePayload>)>) -> Seq<NodeId> {
    es.map_values(|e: (NodeId, &'a crate::graph::arena::NodeData<NodePayload>)| e.0)
}

impl Rule for AbstractMethodWithBody {
    fn code(&self) -> (r: &'static str)
        ensures
            r@ == "abstract-method-with-body"@,
    {
        "abstract-method-with-body"
    }

    fn check(&self, ctx: &RuleContext) -> (r: Vec<Diagnostic>)
        ensures
            abstract_reports(r@, ctx),
    {
        let entries = ctx.graph.iter();
        let ghost g = ctx.graph.nodes();
        let ghost order = entry_ids(entries@);
        let ghost file = ctx.file@;
        let mut out: Vec<Diagnostic> = Vec::new();
        let mut i: usize = 0;
        while i < entries.len()
            invariant
                i <= entries@.len(),
                g == ctx.graph.nodes(),
                file == ctx.file@,
                order == entry_ids(entries@),
                forall|j: int|
                    0 <= j < entries@.len() ==> #[trigger] g.contains_key(entries@[j].0)
                        && crate::graph::arena::node_view(*entries@[j].1) == g[entries@[j].0],
                reports_all(
                    out@,
                    abstract_findings(g, order.take(i as int), file),
                    DiagnosticSeverity::Error,
                    false,
                    "abstract-method-with-body"@,
                ),
            decreases entries.len() - i,
        {
            let ghost before = out@;
            proof {
                assert(order.take(i + 1).drop_last() =~= order.take(i as int));
                assert(order.take(i + 1).last() == entries@[i as int].0);
                assert(g.contains_key(entries@[i as int].0));
                assert(crate::graph::arena::node_view(*entries@[i as int].1) == g[entries@[i as int].0]);
                assert(entries@[i as int].1.payload == g[entries@[i as int].0].payload);
            }
            let node = entries[i].1;
            match &node.payload {
                NodePayload::Java(JavaNodePayload::Method(m)) => match &m.header.location {
                    Some(loc) => {
                        if str_eq(loc.file.as_str(), ctx.file) && has_modifier(
                            &m.header.modifiers,
                            Modifier::Abstract,
                        ) && m.has_body {
                            let mut message = String::from_str("Method `");
                            message.append(m.header.name.as_str());
                            message.append(
                                "` is declared `abstract` but has a body. Abstract methods may not have an implementation (JLS §8.4.3.1).",
                            );
                            let code = self.code().to_string();
                            out.push(
                                Diagnostic {
                                    location: copy_location(loc),
                                    severity: DiagnosticSeverity::Error,
                                    message,
                                    code: Some(code),
                                },
                            );
                            proof {
                                assert(out@.drop_last() == before);
                            }
                        }
                    },
                    None => {},
                },
                _ => {},
            }
            i += 1;
        }
        proof {
            assert(order.take(entries@.len() as int) =~= order);
            assert forall|id: NodeId| #[trigger] g.contains_key(id) implies order.contains(id) by {
                let j = choose|j: int| 0 <= j < entries@.len() && entries@[j].0 == id;
                assert(order[j] == id);
            }
            assert forall|j: int| 0 <= j < order.len() implies g.contains_key(#[trigger] order[j]) by {
                assert(order[j] == entries@[j].0);
            }
            assert forall|j: int, k: int| 0 <= j < k < order.len() implies order[j].slot < order[k].slot by {
                assert(order[j] == entries@[j].0);
                assert(order[k] == entries@[k].0);
            }
            assert(slot_ordered(g, order));
        }
        out
    }
}

/// Whether `used` holds `f`.
fn holds_text(used: &Vec<String>, f: &str) -> (b: bool)
    ensures
        b == exists|j: int| 0 <= j < used@.len() && used@[j]@ == f@,
{
    let mut i: usize = 0;
    while i < used.len()
        invariant
            i <= used@.len(),
            forall|j: int| 0 <= j < i ==> used@[j]@ != f@,
        decreases used.len() - i,
    {
        if str_eq(used[i].as_str(), f) {
            return true;
        }
        i += 1;
    }
    false
}

pub open spec fn text_set(v: Seq<String>) -> Set<Seq<char>> {
    Set::new(|f: Seq<char>| exists|j: int| 0 <= j < v.len() && v[j]@ == f)
}

/// The first of `cands` that resolves, see [`first_resolving`].
fn resolve_use(cands: &Vec<Fqn>, registries: &Registries) -> (r: Option<String>)
    requires
        registries.wf(),
    ensures
        match r {
            Some(f) => first_resolving(cands@, *registries) == Some(f@),
            None => first_resolving(cands@, *registries) is None,
        },
{
    let ghost s = cands@;
    proof {
        assert(s.subrange(0, s.len() as int) =~= s);
    }
    let mut i: usize = 0;
    while i < cands.len()
        invariant
            s == cands@,
            i <= s.len(),
            registries.wf(),
            first_resolving(s, *registries) == first_resolving(s.subrange(i as int, s.len() as int), *registries),
        decreases cands.len() - i,
    {
        let ghost rest = s.subrange(i as int, s.len() as int);
        proof {
            assert(rest[0] == s[i as int]);
            assert(rest.drop_first() =~= s.subrange(i + 1, s.len() as int));
        }
        let key = JavaSymbolKey::new(cands[i].duplicate());
        let providers = registries.java_symbols.providers(&key);
        if providers.len() > 0 {
            return Some(cands[i].as_str().to_string());
        }
        i += 1;
    }
    None
}

impl Rule for UnusedImport {
    fn code(&self) -> (r: &'static str)
        ensures
            r@ == "unused-import"@,
    {
        "unused-import"
    }

    fn check(&self, ctx: &RuleContext) -> (r: Vec<Diagnostic>)
        ensures
            unused_reports(r@, ctx),
    {
        let ghost g = ctx.graph.nodes();
        let ghost file = ctx.file@;
        let ghost reg = *ctx.registries;
        if ctx.java_imports.len() == 0 {
            return Vec::new();
        }
        let entries = ctx.graph.iter();
        let mut used: Vec<String> = Vec::new();
        let mut i: usize = 0;
        while i < entries.len()
            invariant
                i <= entries@.len(),
                g == ctx.graph.nodes(),
                file == ctx.file@,
                reg == *ctx.registries,
                ctx.registries.wf(),
                forall|j: int|
                    0 <= j < entries@.len() ==> #[trigger] g.contains_key(entries@[j].0)
                        && crate::graph::arena::node_view(*entries@[j].1) == g[entries@[j].0],
                text_set(used@) == Set::new(
                    |f: Seq<char>|
                        exists|j: int| 0 <= j < i && use_of(#[trigger] entries@[j].1.payload, file, reg) == Some(f),
                ),
            decreases entries.len() - i,
        {
            let ghost before = used@;
            let node = entries[i].1;
            match &node.payload {
                NodePayload::Java(JavaNodePayload::TypeUse(t)) => {
                    if str_eq(t.header.location.file.as_str(), ctx.file) {
                        match resolve_use(&t.header.candidate_fqns, ctx.registries) {
                            Some(f) => {
                                used.push(f);
                            },
                            None => {},
                        }
                    }
                },
                _ => {},
            }
            proof {
                let new_set = Set::new(
                    |f: Seq<char>|
                        exists|j: int| 0 <= j < i + 1 && use_of(#[trigger] entries@[j].1.payload, file, reg) == Some(f),
                );
                assert forall|f: Seq<char>| text_set(used@).contains(f) == new_set.contains(f) by {
                    if text_set(used@).contains(f) {
                        let j = choose|j: int| 0 <= j < used@.len() && used@[j]@ == f;
                        if j < before.len() {
                            assert(used@[j] == before[j]);
                            assert(text_set(before).contains(f));
                        }
                    }
                    if new_set.contains(f) {
                        let j = choose|j: int| 0 <= j < i + 1 && use_of(#[trigger] entries@[j].1.payload, file, reg) == Some(f);
                        if j < i {
                            assert(text_set(before).contains(f));
                            let k = choose|k: int| 0 <= k < before.len() && before[k]@ == f;
                            assert(used@[k] == before[k]);
                        } else {
                            assert(used@[used@.len() - 1]@ == f);
                        }
                    }
                }
                assert(text_set(used@) =~= new_set);
            }
            i += 1;
        }
        proof {
            assert forall|f: Seq<char>| text_set(used@).contains(f) == used_fqns(g, file, reg).contains(f) by {
                if text_set(used@).contains(f) {
                    let j = choose|j: int| 0 <= j < entries@.len() && use_of(#[trigger] entries@[j].1.payload, file, reg) == Some(f);
                    assert(g.contains_key(entries@[j].0));
                    assert(g[entries@[j].0].payload == entries@[j].1.payload);
                }
                if used_fqns(g, file, reg).contains(f) {
                    let id = choose|id: NodeId| #[trigger] g.contains_key(id) && use_of(g[id].payload, file, reg) == Some(f);
                    let j = choose|j: int| 0 <= j < entries@.len() && entries@[j].0 == id;
                    assert(g[entries@[j].0].payload == entries@[j].1.payload);
                    assert(use_of(entries@[j].1.payload, file, reg) == Some(f));
                }
            }
            assert(text_set(used@) =~= used_fqns(g, file, reg));
        }
        let ghost used_all = used_fqns(g, file, reg);
        let ghost imps = ctx.java_imports@;
        let mut out: Vec<Diagnostic> = Vec::new();
        let mut k: usize = 0;
        while k < ctx.java_imports.len()
            invariant
                k <= imps.len(),
                imps == ctx.java_imports@,
                text_set(used@) == used_all,
                reports_all(
                    out@,
                    unused_findings(imps.take(k as int), used_all),
                    DiagnosticSeverity::Warning,
                    true,
                    "unused-import"@,
                ),
            decreases ctx.java_imports.len() - k,
        {
            let ghost before = out@;
            proof {
                assert(imps.take(k + 1).drop_last() =~= imps.take(k as int));
                assert(imps.take(k + 1).last() == imps[k as int]);
            }
            match &ctx.java_imports[k].0 {
                Import::Single(fqn) => {
                    if !holds_text(&used, fqn.as_str()) {
                        let mut message = String::from_str("Unused import: `");
                        message.append(fqn.as_str());
                        message.append("`.");
                        let code = self.code().to_string();
                        out.push(
                            Diagnostic {
                                location: copy_location(&ctx.java_imports[k].1),
                                severity: DiagnosticSeverity::Warning,
                                message,
                                code: Some(code),
                            },
                        );
                        proof {
                            assert(out@.drop_last() == before);
                        }
                    }
                },
                _ => {},
            }
            k += 1;
        }
        proof {
            assert(imps.take(imps.len() as int) =~= imps);
        }
        out
    }
}

/// Run every Java rule on `ctx`, in order: abstract methods with bodies,
/// then unused imports.
pub fn run_java_rules(ctx: &RuleContext) -> (r: Vec<Diagnostic>)
    requires
        ctx.graph.wf(),
        ctx.registries.wf(),
    ensures
        java_reports(r@, ctx),
{
    let mut out = AbstractMethodWithBody.check(ctx);
    let ghost first = out@;
    let mut more = UnusedImport.check(ctx);
    let ghost second = more@;
    out.append(&mut more);
    proof {
        assert(out@.subrange(0, first.len() as int) =~= first);
        assert(out@.subrange(first.len() as int, out@.len() as int) =~= second);
    }
    out
}

} // verus!
