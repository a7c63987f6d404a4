//! Name resolution over the symbol table: from a name written in a file
//! to the symbol it denotes, through the file's imports and package, and
//! the hover text shown for a symbol.
//!
//! The per-file imports and packages are association lists keyed by file
//! path; a file's entry is the first one with its path.
use vstd::prelude::*;

use crate::jvm::signature::{MethodParam, Signature};
use crate::symbol::Symbol;
use crate::symbol_id::SymbolId;
use crate::symbol_kind::SymbolKind;
use crate::symbol_table::{Filed, SymbolTable};
use crate::text::{ends_with, has_suffix, segment_start, segment_start_of, str_eq};
use crate::type_ref::{type_text, TypeParam};

verus! {

/// A Java import statement.
#[derive(Debug, PartialEq)]
pub enum Import {
    /// `import com.example.MyClass;`
    Single(String),
    /// `import com.example.*;`
    Wildcard(String),
    /// `import static com.example.Utils.MAX;`
    Static(String),
}

/// The value filed under path `f` (the first entry with that path).
pub open spec fn entry_for<V>(m: Seq<(String, V)>, f: Seq<char>) -> Option<V>
    decreases m.len(),
{
    if m.len() == 0 {
        None
    } else if m[0].0@ == f {
        Some(m[0].1)
    } else {
        entry_for(m.subrange(1, m.len() as int), f)
    }
}

/// The imports of file `f` (none when it has no entry).
pub open spec fn imports_for(m: Seq<(String, Vec<Import>)>, f: Seq<char>) -> Seq<Import> {
    match entry_for(m, f) {
        Some(v) => v@,
        None => Seq::empty(),
    }
}

/// The package of file `f` (empty when it has no entry).
pub open spec fn package_for(m: Seq<(String, String)>, f: Seq<char>) -> Seq<char> {
    match entry_for(m, f) {
        Some(p) => p@,
        None => Seq::empty(),
    }
}

/// `fqn` names `name`: it is `name`, or ends in `.name`.
pub open spec fn names_member(fqn: Seq<char>, name: Seq<char>) -> bool {
    has_suffix(fqn, "."@ + name) || fqn == name
}

pub open spec fn single_of(i: Import) -> Option<Seq<char>> {
    match i {
        Import::Single(f) => Some(f@),
        _ => None,
    }
}

pub open spec fn static_of(i: Import) -> Option<Seq<char>> {
    match i {
        Import::Static(f) => Some(f@),
        _ => None,
    }
}

pub open spec fn wildcard_of(i: Import) -> Option<Seq<char>> {
    match i {
        Import::Wildcard(p) => Some(p@),
        _ => None,
    }
}

/// `a` when it holds an id, else `b`.
pub open spec fn or_else(a: Option<SymbolId>, b: Option<SymbolId>) -> Option<SymbolId> {
    if a is Some {
        a
    } else {
        b
    }
}

/// The first import picked by `pick` whose FQN names `name` and is found
/// in the table.
pub open spec fn first_direct_hit(
    t: SymbolTable,
    imports: Seq<Import>,
    name: Seq<char>,
    pick: spec_fn(Import) -> Option<Seq<char>>,
) -> Option<SymbolId>
    decreases imports.len(),
{
    if imports.len() == 0 {
        None
    } else {
        let here = match pick(imports[0]) {
            Some(f) => if names_member(f, name) {
                t.fqn_lookup(f)
            } else {
                None
            },
            None => None,
        };
        or_else(here, first_direct_hit(t, imports.subrange(1, imports.len() as int), name, pick))
    }
}

/// The first wildcard import `p.*` for which `p.name` is found.
pub open spec fn first_wildcard_hit(t: SymbolTable, imports: Seq<Import>, name: Seq<char>) -> Option<
    SymbolId,
>
    decreases imports.len(),
{
    if imports.len() == 0 {
        None
    } else {
        let here = match wildcard_of(imports[0]) {
            Some(p) => t.fqn_lookup(p + "."@ + name),
            None => None,
        };
        or_else(here, first_wildcard_hit(t, imports.subrange(1, imports.len() as int), name))
    }
}

/// The one live symbol with simple name `name`, if there is exactly one.
pub open spec fn unique_named(t: SymbolTable, name: Seq<char>) -> Option<SymbolId> {
    let c = t.select_live(|e: Filed| e.name == name);
    if c.len() == 1 {
        Some(c[0])
    } else {
        None
    }
}

/// What `name`, written in a file with `imports` in package `pkg`,
/// resolves to: the name itself as an FQN; else an explicit import naming
/// it; else the same package; else a wildcard import; else a static
/// import naming it; else the one symbol with that simple name.
pub open spec fn resolved(
    t: SymbolTable,
    name: Seq<char>,
    imports: Seq<Import>,
    pkg: Seq<char>,
) -> Option<SymbolId> {
    or_else(
        t.fqn_lookup(name),
        or_else(
            first_direct_hit(t, imports, name, |i: Import| single_of(i)),
            or_else(
                if pkg.len() > 0 {
                    t.fqn_lookup(pkg + "."@ + name)
                } else {
                    None
                },
                or_else(
                    first_wildcard_hit(t, imports, name),
                    or_else(
                        first_direct_hit(t, imports, name, |i: Import| static_of(i)),
                        unique_named(t, name),
                    ),
                ),
            ),
        ),
    )
}

/// An import of `imports` picked by `pick` that names `name` and is found
/// in the table.
pub open spec fn direct_hit_at(
    t: SymbolTable,
    imports: Seq<Import>,
    name: Seq<char>,
    pick: spec_fn(Import) -> Option<Seq<char>>,
    j: int,
) -> bool {
    pick(imports[j]) matches Some(f) && names_member(f, name) && t.fqn_lookup(f) is Some
}

proof fn lemma_first_direct_hit(
    t: SymbolTable,
    imports: Seq<Import>,
    name: Seq<char>,
    pick: spec_fn(Import) -> Option<Seq<char>>,
)
    ensures
        (forall|j: int| 0 <= j < imports.len() ==> !#[trigger] direct_hit_at(t, imports, name, pick, j))
            ==> first_direct_hit(t, imports, name, pick) is None,
        forall|i: int|
            0 <= i < imports.len() && #[trigger] direct_hit_at(t, imports, name, pick, i) && (forall|j: int|
                0 <= j < i ==> !#[trigger] direct_hit_at(t, imports, name, pick, j)) ==> first_direct_hit(
                t,
                imports,
                name,
                pick,
            ) == t.fqn_lookup(pick(imports[i])->0),
    decreases imports.len(),
{
    if imports.len() > 0 {
        let rest = imports.subrange(1, imports.len() as int);
        lemma_first_direct_hit(t, rest, name, pick);
        assert forall|j: int| 0 <= j < rest.len() implies #[trigger] direct_hit_at(t, rest, name, pick, j)
            == direct_hit_at(t, imports, name, pick, j + 1) by {
            assert(rest[j] == imports[j + 1]);
        }
        assert forall|i: int|
            0 <= i < imports.len() && #[trigger] direct_hit_at(t, imports, name, pick, i) && (forall|j: int|
                0 <= j < i ==> !#[trigger] direct_hit_at(t, imports, name, pick, j)) implies first_direct_hit(
                t,
                imports,
                name,
                pick,
            ) == t.fqn_lookup(pick(imports[i])->0) by {
            if i > 0 {
                assert(!direct_hit_at(t, imports, name, pick, 0));
                assert(direct_hit_at(t, rest, name, pick, i - 1));
                assert forall|j: int| 0 <= j < i - 1 implies !#[trigger] direct_hit_at(t, rest, name, pick, j) by {
                    assert(!direct_hit_at(t, imports, name, pick, j + 1));
                }
                assert(rest[i - 1] == imports[i]);
            }
        }
        if forall|j: int| 0 <= j < imports.len() ==> !#[trigger] direct_hit_at(t, imports, name, pick, j) {
            assert(!direct_hit_at(t, imports, name, pick, 0));
            assert forall|j: int| 0 <= j < rest.len() implies !#[trigger] direct_hit_at(t, rest, name, pick, j) by {
                assert(!direct_hit_at(t, imports, name, pick, j + 1));
            }
        }
    }
}

/// A wildcard import of `imports` whose package holds `name`.
pub open spec fn wildcard_hit_at(t: SymbolTable, imports: Seq<Import>, name: Seq<char>, j: int) -> bool {
    wildcard_of(imports[j]) matches Some(p) && t.fqn_lookup(p + "."@ + name) is Some
}

proof fn lemma_first_wildcard_hit(t: SymbolTable, imports: Seq<Import>, name: Seq<char>)
    ensures
        (forall|j: int| 0 <= j < imports.len() ==> !#[trigger] wildcard_hit_at(t, imports, name, j))
            ==> first_wildcard_hit(t, imports, name) is None,
        forall|i: int|
            0 <= i < imports.len() && #[trigger] wildcard_hit_at(t, imports, name, i) && (forall|j: int|
                0 <= j < i ==> !#[trigger] wildcard_hit_at(t, imports, name, j)) ==> first_wildcard_hit(
                t,
                imports,
                name,
            ) == t.fqn_lookup(wildcard_of(imports[i])->0 + "."@ + name),
    decreases imports.len(),
{
    if imports.len() > 0 {
        let rest = imports.subrange(1, imports.len() as int);
        lemma_first_wildcard_hit(t, rest, name);
        assert forall|j: int| 0 <= j < rest.len() implies #[trigger] wildcard_hit_at(t, rest, name, j)
            == wildcard_hit_at(t, imports, name, j + 1) by {
            assert(rest[j] == imports[j + 1]);
        }
        assert forall|i: int|
            0 <= i < imports.len() && #[trigger] wildcard_hit_at(t, imports, name, i) && (forall|j: int|
                0 <= j < i ==> !#[trigger] wildcard_hit_at(t, imports, name, j)) implies first_wildcard_hit(
                t,
                imports,
                name,
            ) == t.fqn_lookup(wildcard_of(imports[i])->0 + "."@ + name) by {
            if i > 0 {
                assert(!wildcard_hit_at(t, imports, name, 0));
                assert(wildcard_hit_at(t, rest, name, i - 1));
                assert forall|j: int| 0 <= j < i - 1 implies !#[trigger] wildcard_hit_at(t, rest, name, j) by {
                    assert(!wildcard_hit_at(t, imports, name, j + 1));
                }
                assert(rest[i - 1] == imports[i]);
            }
        }
        if forall|j: int| 0 <= j < imports.len() ==> !#[trigger] wildcard_hit_at(t, imports, name, j) {
            assert(!wildcard_hit_at(t, imports, name, 0));
            assert forall|j: int| 0 <= j < rest.len() implies !#[trigger] wildcard_hit_at(t, rest, name, j) by {
                assert(!wildcard_hit_at(t, imports, name, j + 1));
            }
        }
    }
}

/// No single-type import of `imports` names `name` and is found.
pub open spec fn no_single_import_hit(t: SymbolTable, imports: Seq<Import>, name: Seq<char>) -> bool {
    forall|j: int|
        0 <= j < imports.len() ==> !(#[trigger] imports[j] matches Import::Single(f) && names_member(
            f@,
            name,
        ) && t.fqn_lookup(f@) is Some)
}

/// Resolution order, step one: a name that is itself the FQN of a live
/// symbol resolves to that symbol, whatever the imports and package say.
pub proof fn lemma_resolve_exact_fqn_first(t: SymbolTable, name: Seq<char>, imports: Seq<Import>, pkg: Seq<char>)
    requires
        t.fqn_lookup(name) is Some,
    ensures
        resolved(t, name, imports, pkg) == t.fqn_lookup(name),
{
}

/// Resolution order, step two: otherwise the first single-type import
/// that names `name` (its FQN is `name` or ends in `.name`) and is found
/// decides, ahead of the file's package and of on-demand imports.
pub proof fn lemma_resolve_single_import(
    t: SymbolTable,
    name: Seq<char>,
    imports: Seq<Import>,
    pkg: Seq<char>,
    i: int,
    f: Seq<char>,
)
    requires
        t.fqn_lookup(name) is None,
        0 <= i < imports.len(),
        imports[i] matches Import::Single(g) && g@ == f,
        names_member(f, name),
        t.fqn_lookup(f) is Some,
        no_single_import_hit(t, imports.take(i), name),
    ensures
        resolved(t, name, imports, pkg) == t.fqn_lookup(f),
{
    let pick = |x: Import| single_of(x);
    lemma_first_direct_hit(t, imports, name, pick);
    assert(direct_hit_at(t, imports, name, pick, i));
    assert forall|j: int| 0 <= j < i implies !#[trigger] direct_hit_at(t, imports, name, pick, j) by {
        assert(imports.take(i)[j] == imports[j]);
    }
}

/// Resolution order, step three: otherwise a type of the file's own
/// package (`pkg.name` live in the table) shadows every on-demand
/// (wildcard) import, whatever those find.
pub proof fn lemma_resolve_same_package_shadows_wildcards(
    t: SymbolTable,
    name: Seq<char>,
    imports: Seq<Import>,
    pkg: Seq<char>,
)
    requires
        t.fqn_lookup(name) is None,
        no_single_import_hit(t, imports, name),
        pkg.len() > 0,
        t.fqn_lookup(pkg + "."@ + name) is Some,
    ensures
        resolved(t, name, imports, pkg) == t.fqn_lookup(pkg + "."@ + name),
{
    let pick = |x: Import| single_of(x);
    lemma_first_direct_hit(t, imports, name, pick);
    assert forall|j: int| 0 <= j < imports.len() implies !#[trigger] direct_hit_at(t, imports, name, pick, j) by {
        assert(!(imports[j] matches Import::Single(f) && names_member(f@, name) && t.fqn_lookup(f@) is Some));
    }
}

/// Resolution order, step four: otherwise the first wildcard import
/// `p.*` whose package holds `name` decides.
pub proof fn lemma_resolve_wildcard(
    t: SymbolTable,
    name: Seq<char>,
    imports: Seq<Import>,
    pkg: Seq<char>,
    i: int,
    p: Seq<char>,
)
    requires
        t.fqn_lookup(name) is None,
        no_single_import_hit(t, imports, name),
        pkg.len() == 0 || t.fqn_lookup(pkg + "."@ + name) is None,
        0 <= i < imports.len(),
        imports[i] matches Import::Wildcard(q) && q@ == p,
        t.fqn_lookup(p + "."@ + name) is Some,
        forall|j: int| 0 <= j < i ==> !(#[trigger] imports[j] matches Import::Wildcard(q) && t.fqn_lookup(
            q@ + "."@ + name,
        ) is Some),
    ensures
        resolved(t, name, imports, pkg) == t.fqn_lookup(p + "."@ + name),
{
    let pick = |x: Import| single_of(x);
    lemma_first_direct_hit(t, imports, name, pick);
    assert forall|j: int| 0 <= j < imports.len() implies !#[trigger] direct_hit_at(t, imports, name, pick, j) by {
        assert(!(imports[j] matches Import::Single(f) && names_member(f@, name) && t.fqn_lookup(f@) is Some));
    }
    lemma_first_wildcard_hit(t, imports, name);
    assert(wildcard_hit_at(t, imports, name, i));
    assert forall|j: int| 0 <= j < i implies !#[trigger] wildcard_hit_at(t, imports, name, j) by {
        assert(!(imports[j] matches Import::Wildcard(q) && t.fqn_lookup(q@ + "."@ + name) is Some));
    }
}

/// Resolution order, step five: otherwise the first static import that
/// names `name` and is found decides.
pub proof fn lemma_resolve_static_import(
    t: SymbolTable,
    name: Seq<char>,
    imports: Seq<Import>,
    pkg: Seq<char>,
    i: int,
    f: Seq<char>,
)
    requires
        t.fqn_lookup(name) is None,
        no_single_import_hit(t, imports, name),
        pkg.len() == 0 || t.fqn_lookup(pkg + "."@ + name) is None,
        forall|j: int| 0 <= j < imports.len() ==> !(#[trigger] imports[j] matches Import::Wildcard(q)
            && t.fqn_lookup(q@ + "."@ + name) is Some),
        0 <= i < imports.len(),
        imports[i] matches Import::Static(g) && g@ == f,
        names_member(f, name),
        t.fqn_lookup(f) is Some,
        forall|j: int| 0 <= j < i ==> !(#[trigger] imports[j] matches Import::Static(g) && names_member(
            g@,
            name,
        ) && t.fqn_lookup(g@) is Some),
    ensures
        resolved(t, name, imports, pkg) == t.fqn_lookup(f),
{
    let pick = |x: Import| single_of(x);
    lemma_first_direct_hit(t, imports, name, pick);
    assert forall|j: int| 0 <= j < imports.len() implies !#[trigger] direct_hit_at(t, imports, name, pick, j) by {
        assert(!(imports[j] matches Import::Single(f) && names_member(f@, name) && t.fqn_lookup(f@) is Some));
    }
    lemma_first_wildcard_hit(t, imports, name);
    assert forall|j: int| 0 <= j < imports.len() implies !#[trigger] wildcard_hit_at(t, imports, name, j) by {
        assert(!(imports[j] matches Import::Wildcard(q) && t.fqn_lookup(q@ + "."@ + name) is Some));
    }
    let spick = |x: Import| static_of(x);
    lemma_first_direct_hit(t, imports, name, spick);
    assert(direct_hit_at(t, imports, name, spick, i));
    assert forall|j: int| 0 <= j < i implies !#[trigger] direct_hit_at(t, imports, name, spick, j) by {
        assert(!(imports[j] matches Import::Static(g) && names_member(g@, name) && t.fqn_lookup(g@) is Some));
    }
}

/// The first of `ids` that is live and whose symbol has simple name
/// `member`.
pub open spec fn first_named(t: SymbolTable, ids: Seq<SymbolId>, member: Seq<char>) -> Option<
    SymbolId,
>
    decreases ids.len(),
{
    if ids.len() == 0 {
        None
    } else if t.is_live(ids[0].0 as int) && t.symbol_at(ids[0].0 as int).name@ == member {
        Some(ids[0])
    } else {
        first_named(t, ids.subrange(1, ids.len() as int), member)
    }
}

/// What a compound name `Type.member` resolves to: the whole text as an
/// FQN; else, when it has a dot, the child named after the last dot of
/// whatever the part before it resolves to; else the whole text resolved
/// as a simple name.
pub open spec fn resolved_compound(
    t: SymbolTable,
    text: Seq<char>,
    imports: Seq<Import>,
    pkg: Seq<char>,
) -> Option<SymbolId> {
    let s = segment_start(text);
    let member_hit = if s > 0 {
        match resolved(t, text.subrange(0, s - 1), imports, pkg) {
            Some(tid) => first_named(
                t,
                t.select_live(|e: Filed| e.parent == Some(tid)),
                text.subrange(s, text.len() as int),
            ),
            None => None,
        }
    } else {
        None
    };
    or_else(t.fqn_lookup(text), or_else(member_hit, resolved(t, text, imports, pkg)))
}

/// The imports filed for `file`.
fn imports_of_file<'a>(file_imports: &'a Vec<(String, Vec<Import>)>, file: &str) -> (r: &'a [Import])
    ensures
        r@ == imports_for(file_imports@, file@),
{
    proof {
        assert(file_imports@.subrange(0, file_imports@.len() as int) =~= file_imports@);
    }
    let mut i: usize = 0;
    while i < file_imports.len()
        invariant
            i <= file_imports@.len(),
            entry_for(file_imports@, file@) == entry_for(
                file_imports@.subrange(i as int, file_imports@.len() as int),
                file@,
            ),
        decreases file_imports.len() - i,
    {
        let ghost rest = file_imports@.subrange(i as int, file_imports@.len() as int);
        proof {
            assert(rest.subrange(1, rest.len() as int) =~= file_imports@.subrange(
                i + 1,
                file_imports@.len() as int,
            ));
        }
        if str_eq(file_imports[i].0.as_str(), file) {
            return file_imports[i].1.as_slice();
        }
        i += 1;
    }
    proof {
        assert(file_imports@.subrange(i as int, file_imports@.len() as int).len() == 0);
    }
    &[]
}

/// The package filed for `file`.
fn package_of_file<'a>(file_packages: &'a Vec<(String, String)>, file: &str) -> (r: &'a str)
    ensures
        r@ == package_for(file_packages@, file@),
{
    proof {
        assert(file_packages@.subrange(0, file_packages@.len() as int) =~= file_packages@);
    }
    let mut i: usize = 0;
    while i < file_packages.len()
        invariant
            i <= file_packages@.len(),
            entry_for(file_packages@, file@) == entry_for(
                file_packages@.subrange(i as int, file_packages@.len() as int),
                file@,
            ),
        decreases file_packages.len() - i,
    {
        let ghost rest = file_packages@.subrange(i as int, file_packages@.len() as int);
        proof {
            assert(rest.subrange(1, rest.len() as int) =~= file_packages@.subrange(
                i + 1,
                file_packages@.len() as int,
            ));
        }
        if str_eq(file_packages[i].0.as_str(), file) {
            return file_packages[i].1.as_str();
        }
        i += 1;
    }
    proof {
        assert(file_packages@.subrange(i as int, file_packages@.len() as int).len() == 0);
    }
    proof {
        reveal_strlit("");
    }
    ""
}

/// `a + "." + b`.
fn dotted(a: &str, b: &str) -> (r: String)
    ensures
        r@ == a@ + "."@ + b@,
{
    let mut r = a.to_string();
    r.append(".");
    r.append(b);
    r
}

/// The first import picked by `pick` (single or static) that names `name`
/// and is found in the table.
fn direct_hit(
    table: &SymbolTable,
    imports: &[Import],
    name: &str,
    statics: bool,
) -> (r: Option<SymbolId>)
    requires
        table.wf(),
    ensures
        r == first_direct_hit(
            *table,
            imports@,
            name@,
            if statics {
                |i: Import| static_of(i)
            } else {
                |i: Import| single_of(i)
            },
        ),
{
    let ghost pick = if statics {
        |i: Import| static_of(i)
    } else {
        |i: Import| single_of(i)
    };
    let suffix = dotted("", name);
    proof {
        reveal_strlit("");
        assert(suffix@ == "."@ + name@);
        assert(imports@.subrange(0, imports@.len() as int) =~= imports@);
    }
    let mut i: usize = 0;
    while i < imports.len()
        invariant
            table.wf(),
            i <= imports@.len(),
            suffix@ == "."@ + name@,
            pick == (if statics {
                |i: Import| static_of(i)
            } else {
                |i: Import| single_of(i)
            }),
            first_direct_hit(*table, imports@, name@, pick) == first_direct_hit(
                *table,
                imports@.subrange(i as int, imports@.len() as int),
                name@,
                pick,
            ),
        decreases imports.len() - i,
    {
        let ghost rest = imports@.subrange(i as int, imports@.len() as int);
        proof {
            assert(rest[0] == imports@[i as int]);
            assert(rest.subrange(1, rest.len() as int) =~= imports@.subrange(
                i + 1,
                imports@.len() as int,
            ));
        }
        let picked: Option<&String> = match &imports[i] {
            Import::Single(f) => if statics {
                None
            } else {
                Some(f)
            },
            Import::Static(f) => if statics {
                Some(f)
            } else {
                None
            },
            Import::Wildcard(_) => None,
        };
        match picked {
            Some(f) => {
                if ends_with(f.as_str(), suffix.as_str()) || str_eq(f.as_str(), name) {
                    let hit = table.lookup_by_fqn(f.as_str());
                    if hit.is_some() {
                        return hit;
                    }
                }
            },
            None => {},
        }
        i += 1;
    }
    None
}

/// The first wildcard import `p.*` for which `p.name` is found.
fn wildcard_hit(table: &SymbolTable, imports: &[Import], name: &str) -> (r: Option<SymbolId>)
    requires
        table.wf(),
    ensures
        r == first_wildcard_hit(*table, imports@, name@),
{
    proof {
        assert(imports@.subrange(0, imports@.len() as int) =~= imports@);
    }
    let mut i: usize = 0;
    while i < imports.len()
        invariant
            table.wf(),
            i <= imports@.len(),
            first_wildcard_hit(*table, imports@, name@) == first_wildcard_hit(
                *table,
                imports@.subrange(i as int, imports@.len() as int),
                name@,
            ),
        decreases imports.len() - i,
    {
        let ghost rest = imports@.subrange(i as int, imports@.len() as int);
        proof {
            assert(rest[0] == imports@[i as int]);
            assert(rest.subrange(1, rest.len() as int) =~= imports@.subrange(
                i + 1,
                imports@.len() as int,
            ));
        }
        match &imports[i] {
            Import::Wildcard(p) => {
                let candidate = dotted(p.as_str(), name);
                let hit = table.lookup_by_fqn(candidate.as_str());
                if hit.is_some() {
                    return hit;
                }
            },
            _ => {},
        }
        i += 1;
    }
    None
}

/// Resolve the simple name `name`, written in `file`, to a symbol: see
/// [`resolved`] for the order in which the candidates are tried.
pub fn resolve_name(
    name: &str,
    file: &str,
    file_imports: &Vec<(String, Vec<Import>)>,
    file_packages: &Vec<(String, String)>,
    table: &SymbolTable,
) -> (r: Option<SymbolId>)
    requires
        table.wf(),
    ensures
        r == resolved(
            *table,
            name@,
            imports_for(file_imports@, file@),
            package_for(file_packages@, file@),
        ),
{
    let direct = table.lookup_by_fqn(name);
    if direct.is_some() {
        return direct;
    }
    let imports = imports_of_file(file_imports, file);
    let current_package = package_of_file(file_packages, file);
    let single = direct_hit(table, imports, name, false);
    if single.is_some() {
        return single;
    }
    if current_package.unicode_len() > 0 {
        let candidate = dotted(current_package, name);
        let same = table.lookup_by_fqn(candidate.as_str());
        if same.is_some() {
            return same;
        }
    }
    let wild = wildcard_hit(table, imports, name);
    if wild.is_some() {
        return wild;
    }
    let stat = direct_hit(table, imports, name, true);
    if stat.is_some() {
        return stat;
    }
    let candidates = table.lookup_by_name(name);
    proof {
        assert((|e: Filed| e.name == name@) =~= (|e: Filed| e.name == name@));
    }
    if candidates.len() == 1 {
        Some(candidates[0])
    } else {
        None
    }
}

/// Resolve a compound name such as `Type.method` or `Type.field`: see
/// [`resolved_compound`].
pub fn resolve_compound_name(
    text: &str,
    file: &str,
    file_imports: &Vec<(String, Vec<Import>)>,
    file_packages: &Vec<(String, String)>,
    table: &SymbolTable,
) -> (r: Option<SymbolId>)
    requires
        table.wf(),
    ensures
        r == resolved_compound(
            *table,
            text@,
            imports_for(file_imports@, file@),
            package_for(file_packages@, file@),
        ),
{
    let direct = table.lookup_by_fqn(text);
    if direct.is_some() {
        return direct;
    }
    let start = segment_start_of(text);
    if start > 0 {
        let type_part = text.substring_char(0, start - 1);
        let member_part = text.substring_char(start, text.unicode_len());
        match resolve_name(type_part, file, file_imports, file_packages, table) {
            Some(type_id) => {
                let children = table.lookup_children(type_id);
                let ghost ids = children@;
                proof {
                    assert(ids.subrange(0, ids.len() as int) =~= ids);
                }
                let mut i: usize = 0;
                while i < children.len()
                    invariant
                        table.wf(),
                        children@ == ids,
                        ids == table.select_live(|e: Filed| e.parent == Some(type_id)),
                        start == segment_start(text@),
                        0 < start <= text@.len(),
                        type_part@ == text@.subrange(0, start - 1),
                        member_part@ == text@.subrange(start as int, text@.len() as int),
                        resolved(
                            *table,
                            type_part@,
                            imports_for(file_imports@, file@),
                            package_for(file_packages@, file@),
                        ) == Some(type_id),
                        table.fqn_lookup(text@) is None,
                        i <= ids.len(),
                        first_named(*table, ids, member_part@) == first_named(
                            *table,
                            ids.subrange(i as int, ids.len() as int),
                            member_part@,
                        ),
                    decreases children.len() - i,
                {
                    let ghost rest = ids.subrange(i as int, ids.len() as int);
                    proof {
                        assert(rest[0] == ids[i as int]);
                        assert(rest.subrange(1, rest.len() as int) =~= ids.subrange(
                            i + 1,
                            ids.len() as int,
                        ));
                    }
                    let child_id = children[i];
                    match table.get(child_id) {
                        Some(child) => {
                            if str_eq(child.name.as_str(), member_part) {
                                proof {
                                    assert(first_named(*table, rest, member_part@) == Some(child_id));
                                }
                                return Some(child_id);
                            }
                        },
                        None => {},
                    }
                    i += 1;
                }
                proof {
                    assert((|e: Filed| e.parent == Some(type_id)) =~= (|e: Filed| e.parent == Some(type_id)));
                }
            },
            None => {},
        }
    }
    resolve_name(text, file, file_imports, file_packages, table)
}

/// The symbols to list as references of `name`: every live symbol with
/// that simple name.
pub fn find_references_by_name(name: &str, table: &SymbolTable) -> (r: Vec<SymbolId>)
    requires
        table.wf(),
    ensures
        r@ == table.select_live(|e: Filed| e.name == name@),
{
    table.lookup_by_name(name)
}

/// The word the hover text uses for a kind of symbol.
pub open spec fn kind_word(k: SymbolKind) -> Seq<char> {
    match k {
        SymbolKind::Class => "class"@,
        SymbolKind::Interface => "interface"@,
        SymbolKind::Enum => "enum"@,
        SymbolKind::Record => "record"@,
        SymbolKind::Annotation => "@interface"@,
        SymbolKind::Method => "method"@,
        SymbolKind::Constructor => "constructor"@,
        SymbolKind::Field => "field"@,
        SymbolKind::Parameter => "parameter"@,
        SymbolKind::Package => "package"@,
        _ => "symbol"@,
    }
}

/// The parts, separated by `sep`.
pub open spec fn joined(parts: Seq<Seq<char>>, sep: Seq<char>) -> Seq<char>
    decreases parts.len(),
{
    if parts.len() == 0 {
        Seq::empty()
    } else if parts.len() == 1 {
        parts[0]
    } else {
        joined(parts.drop_last(), sep) + sep + parts.last()
    }
}

/// `<T, U>` for type parameters `T` and `U`; nothing when there are none.
pub open spec fn type_param_list(tps: Seq<TypeParam>) -> Seq<char> {
    if tps.len() == 0 {
        Seq::empty()
    } else {
        "<"@ + joined(tps.map_values(|t: TypeParam| t.name@), ", "@) + ">"@
    }
}

/// Each parameter printed as `type name`.
pub open spec fn param_texts(ps: Seq<MethodParam>) -> Seq<Seq<char>> {
    ps.map_values(|p: MethodParam| type_text(p.param_type@) + " "@ + p.name@)
}

pub open spec fn fence_open() -> Seq<char> {
    "```java\n"@
}

pub open spec fn fence_close() -> Seq<char> {
    "\n```\n\n"@
}

/// `` `fqn` ``.
pub open spec fn quoted(fqn: Seq<char>) -> Seq<char> {
    "`"@ + fqn + "`"@
}

/// The hover text of a symbol: a Java code block with its declaration,
/// then its kind (for methods, fields and symbols without a signature)
/// and its FQN in backquotes.
pub open spec fn hover_text(s: Symbol) -> Seq<char> {
    match s.signature {
        Some(Signature::Method { return_type, parameters, type_parameters, .. }) => fence_open()
            + type_param_list(type_parameters@) + type_text(return_type@) + " "@ + s.name@ + "("@
            + joined(param_texts(parameters@), ", "@) + ")"@ + fence_close() + kind_word(s.kind)
            + " "@ + quoted(s.fqn@),
        Some(Signature::Field { field_type, .. }) => fence_open() + type_text(field_type@) + " "@
            + s.name@ + fence_close() + kind_word(s.kind) + " "@ + quoted(s.fqn@),
        Some(Signature::Class { type_parameters }) => fence_open() + kind_word(s.kind) + " "@
            + s.name@ + type_param_list(type_parameters@) + fence_close() + quoted(s.fqn@),
        Some(Signature::Record { type_parameters, .. }) => fence_open() + "record "@ + s.name@
            + type_param_list(type_parameters@) + fence_close() + quoted(s.fqn@),
        Some(Signature::AnnotationElement { element_type, .. }) => fence_open() + type_text(
            element_type@,
        ) + " "@ + s.name@ + "()"@ + fence_close() + quoted(s.fqn@),
        None => fence_open() + kind_word(s.kind) + " "@ + s.name@ + fence_close() + quoted(s.fqn@),
    }
}

/// The kinds that have a word of their own in hover texts.
pub open spec fn has_own_word(k: SymbolKind) -> bool {
    k is Class || k is Interface || k is Enum || k is Record || k is Annotation || k is Method || k is Constructor || k is Field || k is Parameter || k is Package
}

/// The hover text of a type declaration names it with the Java keyword
/// that declares a type of its kind: `class`, `interface`, `enum`,
/// `record`, `@interface`, then the name and type parameters, and the FQN
/// below the code block.
pub proof fn lemma_type_hover_keyword(s: Symbol, tps: Seq<TypeParam>)
    requires
        s.signature matches Some(Signature::Class { type_parameters }) && type_parameters@ == tps,
    ensures
        s.kind == SymbolKind::Class ==> hover_text(s) == "```java\n"@ + "class"@ + " "@ + s.name@
            + type_param_list(tps) + "\n```\n\n"@ + "`"@ + s.fqn@ + "`"@,
        s.kind == SymbolKind::Interface ==> hover_text(s) == "```java\n"@ + "interface"@ + " "@ + s.name@
            + type_param_list(tps) + "\n```\n\n"@ + "`"@ + s.fqn@ + "`"@,
        s.kind == SymbolKind::Enum ==> hover_text(s) == "```java\n"@ + "enum"@ + " "@ + s.name@
            + type_param_list(tps) + "\n```\n\n"@ + "`"@ + s.fqn@ + "`"@,
        s.kind == SymbolKind::Record ==> hover_text(s) == "```java\n"@ + "record"@ + " "@ + s.name@
            + type_param_list(tps) + "\n```\n\n"@ + "`"@ + s.fqn@ + "`"@,
        s.kind == SymbolKind::Annotation ==> hover_text(s) == "```java\n"@ + "@interface"@ + " "@ + s.name@
            + type_param_list(tps) + "\n```\n\n"@ + "`"@ + s.fqn@ + "`"@,
{
}

proof fn lemma_own_words_differ(k1: SymbolKind, k2: SymbolKind)
    requires
        has_own_word(k1),
        has_own_word(k2),
        k1 != k2,
    ensures
        kind_word(k1).len() != kind_word(k2).len() || exists|i: int|
            0 <= i < kind_word(k1).len() && #[trigger] kind_word(k1)[i] != kind_word(k2)[i],
{
    reveal_strlit("class");
    reveal_strlit("interface");
    reveal_strlit("enum");
    reveal_strlit("record");
    reveal_strlit("@interface");
    reveal_strlit("method");
    reveal_strlit("constructor");
    reveal_strlit("field");
    reveal_strlit("parameter");
    reveal_strlit("package");
    assert("class"@.len() == 5);
    assert("interface"@.len() == 9);
    assert("enum"@.len() == 4);
    assert("record"@.len() == 6);
    assert("@interface"@.len() == 10);
    assert("method"@.len() == 6);
    assert("constructor"@.len() == 11);
    assert("field"@.len() == 5);
    assert("parameter"@.len() == 9);
    assert("package"@.len() == 7);
    assert("class"@[0] != "field"@[0]);
    assert("interface"@[0] != "parameter"@[0]);
    assert("record"@[0] != "method"@[0]);
}

proof fn lemma_middle_differs(a: Seq<char>, x: Seq<char>, y: Seq<char>, b: Seq<char>)
    requires
        x.len() != y.len() || exists|i: int| 0 <= i < x.len() && #[trigger] x[i] != y[i],
    ensures
        a + x + b != a + y + b,
{
    if x.len() == y.len() {
        let i = choose|i: int| 0 <= i < x.len() && #[trigger] x[i] != y[i];
        assert((a + x + b)[a.len() + i] == x[i]);
        assert((a + y + b)[a.len() + i] == y[i]);
    } else {
        assert((a + x + b).len() != (a + y + b).len());
    }
}

/// Hover texts tell kinds apart: two symbols that differ only in their
/// kind, each a kind with a word of its own, get different hover texts
/// whenever the text shows the kind (no signature, or a class, method or
/// field signature).
pub proof fn lemma_hover_tells_kinds_apart(s1: Symbol, s2: Symbol)
    requires
        s1.name@ == s2.name@,
        s1.fqn@ == s2.fqn@,
        s1.signature == s2.signature,
        s1.kind != s2.kind,
        has_own_word(s1.kind),
        has_own_word(s2.kind),
        s1.signature matches Some(sig) ==> (sig is Class || sig is Method || sig is Field),
    ensures
        hover_text(s1) != hover_text(s2),
{
    lemma_own_words_differ(s1.kind, s2.kind);
    let w1 = kind_word(s1.kind);
    let w2 = kind_word(s2.kind);
    match s1.signature {
        Some(Signature::Method { return_type, parameters, type_parameters, .. }) => {
            let a = fence_open() + type_param_list(type_parameters@) + type_text(return_type@) + " "@ + s1.name@ + "("@
                + joined(param_texts(parameters@), ", "@) + ")"@ + fence_close();
            let b = " "@ + quoted(s1.fqn@);
            assert(hover_text(s1) =~= a + w1 + b);
            assert(hover_text(s2) =~= a + w2 + b);
            lemma_middle_differs(a, w1, w2, b);
        },
        Some(Signature::Field { field_type, .. }) => {
            let a = fence_open() + type_text(field_type@) + " "@ + s1.name@ + fence_close();
            let b = " "@ + quoted(s1.fqn@);
            assert(hover_text(s1) =~= a + w1 + b);
            assert(hover_text(s2) =~= a + w2 + b);
            lemma_middle_differs(a, w1, w2, b);
        },
        Some(Signature::Class { type_parameters }) => {
            let a = fence_open();
            let b = " "@ + s1.name@ + type_param_list(type_parameters@) + fence_close() + quoted(s1.fqn@);
            assert(hover_text(s1) =~= a + w1 + b);
            assert(hover_text(s2) =~= a + w2 + b);
            lemma_middle_differs(a, w1, w2, b);
        },
        None => {
            let a = fence_open();
            let b = " "@ + s1.name@ + fence_close() + quoted(s1.fqn@);
            assert(hover_text(s1) =~= a + w1 + b);
            assert(hover_text(s2) =~= a + w2 + b);
            lemma_middle_differs(a, w1, w2, b);
        },
        _ => {},
    }
}

fn kind_str(k: SymbolKind) -> (r: &'static str)
    ensures
        r@ == kind_word(k),
{
    match k {
        SymbolKind::Class => "class",
        SymbolKind::Interface => "interface",
        SymbolKind::Enum => "enum",
        SymbolKind::Record => "record",
        SymbolKind::Annotation => "@interface",
        SymbolKind::Method => "method",
        SymbolKind::Constructor => "constructor",
        SymbolKind::Field => "field",
        SymbolKind::Parameter => "parameter",
        SymbolKind::Package => "package",
        _ => "symbol",
    }
}

/// The type parameter list, see [`type_param_list`].
fn type_params_text(tps: &Vec<TypeParam>) -> (r: String)
    ensures
        r@ == type_param_list(tps@),
{
    let mut r = String::new();
    proof {
        reveal_strlit("");
    }
    if tps.len() == 0 {
        return r;
    }
    let ghost names = tps@.map_values(|t: TypeParam| t.name@);
    r.append("<");
    let mut body = String::new();
    let mut i: usize = 0;
    while i < tps.len()
        invariant
            i <= tps@.len(),
            names == tps@.map_values(|t: TypeParam| t.name@),
            body@ == joined(names.take(i as int), ", "@),
        decreases tps.len() - i,
    {
        proof {
            assert(names.take(i + 1).drop_last() =~= names.take(i as int));
            assert(names.take(i + 1).last() == tps@[i as int].name@);
        }
        if i > 0 {
            body.append(", ");
        }
        body.append(tps[i].name.as_str());
        proof {
            if i == 0 {
                assert(body@ =~= tps@[0].name@);
            }
        }
        i += 1;
    }
    proof {
        assert(names.take(tps@.len() as int) =~= names);
    }
    r.append(body.as_str());
    r.append(">");
    r
}

/// The parameters printed as `type name`, separated by `, `.
fn params_text(ps: &Vec<MethodParam>) -> (r: String)
    ensures
        r@ == joined(param_texts(ps@), ", "@),
{
    let ghost parts = param_texts(ps@);
    let mut body = String::new();
    proof {
        reveal_strlit("");
        assert(parts.take(0) =~= Seq::<Seq<char>>::empty());
    }
    let mut i: usize = 0;
    while i < ps.len()
        invariant
            i <= ps@.len(),
            parts == param_texts(ps@),
            body@ == joined(parts.take(i as int), ", "@),
        decreases ps.len() - i,
    {
        proof {
            assert(parts.take(i + 1).drop_last() =~= parts.take(i as int));
            assert(parts.take(i + 1).last() == parts[i as int]);
        }
        if i > 0 {
            body.append(", ");
        }
        let t = ps[i].param_type.to_string();
        body.append(t.as_str());
        body.append(" ");
        body.append(ps[i].name.as_str());
        proof {
            if i == 0 {
                assert(body@ =~= parts[0]);
            } else {
                assert(body@ =~= joined(parts.take(i as int), ", "@) + ", "@ + parts[i as int]);
            }
        }
        i += 1;
    }
    proof {
        assert(parts.take(ps@.len() as int) =~= parts);
    }
    body
}

/// The hover string of `symbol`, see [`hover_text`].
pub fn build_hover_text(symbol: &Symbol) -> (r: String)
    ensures
        r@ == hover_text(*symbol),
{
    let kind = kind_str(symbol.kind);
    let mut r = String::from_str("```java\n");
    match &symbol.signature {
        Some(Signature::Method { return_type, parameters, type_parameters, .. }) => {
            let tp = type_params_text(type_parameters);
            r.append(tp.as_str());
            let rt = return_type.to_string();
            r.append(rt.as_str());
            r.append(" ");
            r.append(symbol.name.as_str());
            r.append("(");
            let ps = params_text(parameters);
            r.append(ps.as_str());
            r.append(")");
            r.append("\n```\n\n");
            r.append(kind);
            r.append(" ");
        },
        Some(Signature::Field { field_type, .. }) => {
            let ft = field_type.to_string();
            r.append(ft.as_str());
            r.append(" ");
            r.append(symbol.name.as_str());
            r.append("\n```\n\n");
            r.append(kind);
            r.append(" ");
        },
        Some(Signature::Class { type_parameters }) => {
            r.append(kind);
            r.append(" ");
            r.append(symbol.name.as_str());
            let tp = type_params_text(type_parameters);
            r.append(tp.as_str());
            r.append("\n```\n\n");
        },
        Some(Signature::Record { type_parameters, .. }) => {
            r.append("record ");
            r.append(symbol.name.as_str());
            let tp = type_params_text(type_parameters);
            r.append(tp.as_str());
            r.append("\n```\n\n");
        },
        Some(Signature::AnnotationElement { element_type, .. }) => {
            let et = element_type.to_string();
            r.append(et.as_str());
            r.append(" ");
            r.append(symbol.name.as_str());
            r.append("()");
            r.append("\n```\n\n");
        },
        None => {
            r.append(kind);
            r.append(" ");
            r.append(symbol.name.as_str());
            r.append("\n```\n\n");
        },
    }
    r.append("`");
    r.append(symbol.fqn.as_str());
    r.append("`");
    r
}

} // verus!
