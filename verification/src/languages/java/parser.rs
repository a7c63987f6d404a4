//! The Java declaration walker: from a file's syntax tree to an
//! integration plan of (Java, JVM) payload pairs, and the integration of
//! such a plan into the graph and the registries.
//!
//! Every declaration becomes two plan entries: its Java payload, whose
//! parent is the Java payload of the enclosing declaration, and right
//! after it the JVM projection, hard-linked under the Java one. Parents
//! always come before their children.
use vstd::prelude::*;
use vstd::string::StringSliceAdditionalSpecFns;

use crate::languages::java::syntax::{extract_imports, import_views, imports_of, Import};
use crate::languages::java::tree::{
    field, field_of, lemma_child_smaller, lemma_field_smaller, node_text, size, text_of, SyntaxNode,
};
use crate::jvm::fqn::Fqn;
use crate::jvm::payload::{
    JvmConstructorNode, JvmDeclHeader, JvmEnrichments, JvmEnumConstantNode, JvmFieldNode,
    JvmMethodNode, JvmNodePayload, JvmParameter, JvmTypeKind, JvmTypeNode,
};
use crate::languages::java::payload::{
    JavaConstructorNode, JavaDeclHeader, JavaEnumConstantNode, JavaFieldNode, JavaMethodNode,
    JavaNodePayload, JavaParameter, JavaTypeKind, JavaTypeNode,
};
use crate::languages::java::tree::{
    copied_from, kids_size, lemma_child_size_bound, lemma_kids_size, well_copied,
};
use crate::languages::java::types::{core_of, java_models_of, JavaTypeModel, TypeRef as ParsedTypeRef};
use crate::graph::arena::{Graph, NodeId};
use crate::graph::behavior::NodeBehavior;
use crate::payload::{
    filed_all, lemma_filed_all_none, lemma_filed_all_step, slot_of, KeySlot, NodePayload,
    Registration,
};
use crate::registries::Registries;
use crate::primitives::Location;
use crate::text::{has_suffix, lines_of};
use crate::type_ref::erasure_of;
use crate::modifier::{modifier_keyword, Modifier};
use crate::type_ref::{TypeModel, TypeParam, TypeRef};
use crate::text::{ends_with, str_eq};

verus! {

/// `<`, `>` and `,` tokens, skipped among type arguments.
pub open spec fn is_punct(k: Seq<char>) -> bool {
    k == "<"@ || k == ">"@ || k == ","@
}

/// The type a type node denotes, as the walker reads it: `void`, a
/// primitive keyword, a simple or qualified name, a parameterized type
/// (its base name and the types among its type arguments), an array of
/// its element type, a wildcard; anything else is read as a name.
pub open spec fn type_model(src: Seq<u8>, n: SyntaxNode) -> JavaTypeModel
    decreases size(n), 0nat,
{
    let k = n.kind@;
    if k == "void_type"@ {
        JavaTypeModel::Void
    } else if k == "integral_type"@ || k == "floating_point_type"@ || k == "boolean_type"@ {
        JavaTypeModel::Primitive(text_of(src, n))
    } else if k == "type_identifier"@ || k == "identifier"@ {
        JavaTypeModel::Simple(text_of(src, n))
    } else if k == "scoped_type_identifier"@ {
        JavaTypeModel::Qualified(text_of(src, n))
    } else if k == "generic_type"@ {
        let base = if n.children@.len() > 0 {
            text_of(src, n.children@[0])
        } else {
            Seq::empty()
        };
        let args = match field_of(n, "arguments"@) {
            Some(a) => {
                proof {
                    lemma_field_smaller(n, "arguments"@);
                    crate::languages::java::tree::lemma_child_size_bound(a);
                }
                arg_models(src, a.children@)
            },
            None => {
                proof {
                    crate::languages::java::tree::lemma_child_size_bound(n);
                }
                type_args_models(src, n.children@)
            },
        };
        JavaTypeModel::Parameterized(base, args)
    } else if k == "array_type"@ {
        match field_of(n, "element"@) {
            Some(e) => {
                proof {
                    lemma_field_smaller(n, "element"@);
                }
                JavaTypeModel::Array(Box::new(type_model(src, e)))
            },
            None => if n.children@.len() > 0 {
                proof {
                    lemma_child_smaller(n, 0);
                }
                JavaTypeModel::Array(Box::new(type_model(src, n.children@[0])))
            } else {
                JavaTypeModel::Array(Box::new(JavaTypeModel::Simple(text_of(src, n))))
            },
        }
    } else if k == "wildcard"@ {
        JavaTypeModel::Wildcard
    } else {
        JavaTypeModel::Simple(text_of(src, n))
    }
}

/// The types among a list of type-argument nodes, punctuation skipped.
pub open spec fn arg_models(src: Seq<u8>, ks: Seq<SyntaxNode>) -> Seq<JavaTypeModel>
    decreases crate::languages::java::tree::kids_size(ks), 1nat,
{
    if ks.len() == 0 {
        Seq::empty()
    } else {
        proof {
            crate::languages::java::tree::lemma_kids_size(ks, 0);
        }
        let here = if is_punct(ks[0].kind@) {
            Seq::empty()
        } else {
            seq![type_model(src, ks[0])]
        };
        here + arg_models(src, ks.drop_first())
    }
}

/// The type arguments of every `type_arguments` node among `ks`, in order.
pub open spec fn type_args_models(src: Seq<u8>, ks: Seq<SyntaxNode>) -> Seq<JavaTypeModel>
    decreases crate::languages::java::tree::kids_size(ks), 1nat,
{
    if ks.len() == 0 {
        Seq::empty()
    } else {
        proof {
            crate::languages::java::tree::lemma_kids_size(ks, 0);
            crate::languages::java::tree::lemma_child_size_bound(ks[0]);
        }
        let here = if ks[0].kind@ == "type_arguments"@ {
            arg_models(src, ks[0].children@)
        } else {
            Seq::empty()
        };
        here + type_args_models(src, ks.drop_first())
    }
}

fn is_punct_kind(k: &str) -> (b: bool)
    ensures
        b == is_punct(k@),
{
    str_eq(k, "<") || str_eq(k, ">") || str_eq(k, ",")
}

/// The type a type node denotes, see [`type_model`].
fn parse_type_ref(source: &str, node: &SyntaxNode) -> (r: ParsedTypeRef)
    ensures
        r@ == type_model(source.spec_bytes(), *node),
    decreases size(*node), 0nat,
{
    let k = node.kind.as_str();
    if str_eq(k, "void_type") {
        ParsedTypeRef::Void
    } else if str_eq(k, "integral_type") || str_eq(k, "floating_point_type") || str_eq(
        k,
        "boolean_type",
    ) {
        ParsedTypeRef::Primitive(node_text(source, node).to_string())
    } else if str_eq(k, "type_identifier") || str_eq(k, "identifier") {
        ParsedTypeRef::Simple(node_text(source, node).to_string())
    } else if str_eq(k, "scoped_type_identifier") {
        ParsedTypeRef::Qualified(node_text(source, node).to_string())
    } else if str_eq(k, "generic_type") {
        let base = if node.children.len() > 0 {
            node_text(source, &node.children[0]).to_string()
        } else {
            proof {
                reveal_strlit("");
            }
            String::new()
        };
        let args = match field(node, "arguments") {
            Some(a) => {
                proof {
                    lemma_field_smaller(*node, "arguments"@);
                    crate::languages::java::tree::lemma_child_size_bound(*a);
                }
                parse_args(source, &a.children)
            },
            None => {
                proof {
                    crate::languages::java::tree::lemma_child_size_bound(*node);
                }
                parse_type_args(source, &node.children)
            },
        };
        ParsedTypeRef::Parameterized(base, args)
    } else if str_eq(k, "array_type") {
        match field(node, "element") {
            Some(e) => {
                proof {
                    lemma_field_smaller(*node, "element"@);
                }
                ParsedTypeRef::Array(Box::new(parse_type_ref(source, e)))
            },
            None => if node.children.len() > 0 {
                proof {
                    lemma_child_smaller(*node, 0);
                }
                ParsedTypeRef::Array(Box::new(parse_type_ref(source, &node.children[0])))
            } else {
                let inner = ParsedTypeRef::Simple(node_text(source, node).to_string());
                assert(inner@ == JavaTypeModel::Simple(text_of(source.spec_bytes(), *node)));
                ParsedTypeRef::Array(Box::new(inner))
            },
        }
    } else if str_eq(k, "wildcard") {
        ParsedTypeRef::Wildcard
    } else {
        ParsedTypeRef::Simple(node_text(source, node).to_string())
    }
}

/// The types among type-argument nodes, see [`arg_models`].
fn parse_args(source: &str, ks: &Vec<SyntaxNode>) -> (r: Vec<ParsedTypeRef>)
    ensures
        java_models_of(r@) == arg_models(source.spec_bytes(), ks@),
    decreases crate::languages::java::tree::kids_size(ks@), 1nat,
{
    let ghost src = source.spec_bytes();
    let mut out: Vec<ParsedTypeRef> = Vec::new();
    let mut i: usize = 0;
    proof {
        assert(ks@.subrange(0, ks@.len() as int) =~= ks@);
    }
    while i < ks.len()
        invariant
            i <= ks@.len(),
            src == source.spec_bytes(),
            java_models_of(out@) + arg_models(src, ks@.subrange(i as int, ks@.len() as int))
                == arg_models(src, ks@),
        decreases ks.len() - i,
    {
        let ghost rest = ks@.subrange(i as int, ks@.len() as int);
        proof {
            assert(rest[0] == ks@[i as int]);
            assert(rest.drop_first() =~= ks@.subrange(i + 1, ks@.len() as int));
            crate::languages::java::tree::lemma_kids_size(ks@, i as int);
        }
        if !is_punct_kind(ks[i].kind.as_str()) {
            let t = parse_type_ref(source, &ks[i]);
            let ghost before = out@;
            out.push(t);
            proof {
                assert(out@.drop_last() =~= before);
                assert(java_models_of(out@) =~= java_models_of(before).push(type_model(src, ks@[i as int])));
            }
        }
        i += 1;
    }
    proof {
        assert(ks@.subrange(i as int, ks@.len() as int) =~= Seq::<SyntaxNode>::empty());
        assert(java_models_of(out@) + Seq::<JavaTypeModel>::empty() =~= java_models_of(out@));
    }
    out
}

/// The arguments of every `type_arguments` node among `ks`, see
/// [`type_args_models`].
fn parse_type_args(source: &str, ks: &Vec<SyntaxNode>) -> (r: Vec<ParsedTypeRef>)
    ensures
        java_models_of(r@) == type_args_models(source.spec_bytes(), ks@),
    decreases crate::languages::java::tree::kids_size(ks@), 1nat,
{
    let ghost src = source.spec_bytes();
    let mut out: Vec<ParsedTypeRef> = Vec::new();
    let mut i: usize = 0;
    proof {
        assert(ks@.subrange(0, ks@.len() as int) =~= ks@);
    }
    while i < ks.len()
        invariant
            i <= ks@.len(),
            src == source.spec_bytes(),
            java_models_of(out@) + type_args_models(src, ks@.subrange(i as int, ks@.len() as int))
                == type_args_models(src, ks@),
        decreases ks.len() - i,
    {
        let ghost rest = ks@.subrange(i as int, ks@.len() as int);
        proof {
            assert(rest[0] == ks@[i as int]);
            assert(rest.drop_first() =~= ks@.subrange(i + 1, ks@.len() as int));
            crate::languages::java::tree::lemma_kids_size(ks@, i as int);
            crate::languages::java::tree::lemma_child_size_bound(ks@[i as int]);
        }
        if str_eq(ks[i].kind.as_str(), "type_arguments") {
            let mut more = parse_args(source, &ks[i].children);
            let ghost before = out@;
            let ghost added = more@;
            out.append(&mut more);
            proof {
                crate::languages::java::types::lemma_java_models_append(before, added);
            }
        }
        i += 1;
    }
    proof {
        assert(ks@.subrange(i as int, ks@.len() as int) =~= Seq::<SyntaxNode>::empty());
        assert(java_models_of(out@) + Seq::<JavaTypeModel>::empty() =~= java_models_of(out@));
    }
    out
}

/// The modifier a keyword node kind stands for.
pub open spec fn modifier_named(k: Seq<char>) -> Option<Modifier> {
    if k == "public"@ {
        Some(Modifier::Public)
    } else if k == "private"@ {
        Some(Modifier::Private)
    } else if k == "protected"@ {
        Some(Modifier::Protected)
    } else if k == "static"@ {
        Some(Modifier::Static)
    } else if k == "abstract"@ {
        Some(Modifier::Abstract)
    } else if k == "final"@ {
        Some(Modifier::Final)
    } else if k == "sealed"@ {
        Some(Modifier::Sealed)
    } else if k == "non-sealed"@ {
        Some(Modifier::NonSealed)
    } else if k == "default"@ {
        Some(Modifier::Default)
    } else if k == "synchronized"@ {
        Some(Modifier::Synchronized)
    } else if k == "volatile"@ {
        Some(Modifier::Volatile)
    } else if k == "transient"@ {
        Some(Modifier::Transient)
    } else if k == "native"@ {
        Some(Modifier::Native)
    } else if k == "strictfp"@ {
        Some(Modifier::Strictfp)
    } else {
        None
    }
}

/// Each modifier keyword node stands for the modifier it spells, and for
/// no other: a node of kind `k` is read as modifier `m` exactly when `k`
/// is `m`'s keyword (so `private` is `Private`, never `Protected`).
pub proof fn lemma_modifier_keywords(k: Seq<char>, m: Modifier)
    ensures
        modifier_named(modifier_keyword(m)) == Some(m),
        modifier_named(k) == Some(m) <==> k == modifier_keyword(m),
{
    reveal_strlit("public");
    reveal_strlit("private");
    reveal_strlit("protected");
    reveal_strlit("static");
    reveal_strlit("abstract");
    reveal_strlit("final");
    reveal_strlit("sealed");
    reveal_strlit("non-sealed");
    reveal_strlit("default");
    reveal_strlit("synchronized");
    reveal_strlit("volatile");
    reveal_strlit("transient");
    reveal_strlit("native");
    reveal_strlit("strictfp");
    assert("public"@.len() == 6);
    assert("private"@.len() == 7);
    assert("protected"@.len() == 9);
    assert("static"@.len() == 6);
    assert("abstract"@.len() == 8);
    assert("final"@.len() == 5);
    assert("sealed"@.len() == 6);
    assert("non-sealed"@.len() == 10);
    assert("default"@.len() == 7);
    assert("synchronized"@.len() == 12);
    assert("volatile"@.len() == 8);
    assert("transient"@.len() == 9);
    assert("native"@.len() == 6);
    assert("strictfp"@.len() == 8);
    assert("public"@[0] != "static"@[0]);
    assert("public"@[0] != "sealed"@[0]);
    assert("public"@[0] != "native"@[0]);
    assert("private"@[0] != "default"@[0]);
    assert("protected"@[0] != "transient"@[0]);
    assert("static"@[1] != "sealed"@[1]);
    assert("static"@[0] != "native"@[0]);
    assert("abstract"@[0] != "volatile"@[0]);
    assert("abstract"@[0] != "strictfp"@[0]);
    assert("sealed"@[0] != "native"@[0]);
    assert("volatile"@[0] != "strictfp"@[0]);
}

/// The modifiers among keyword nodes, in order.
pub open spec fn modifiers_in(ks: Seq<SyntaxNode>) -> Seq<Modifier>
    decreases ks.len(),
{
    if ks.len() == 0 {
        Seq::empty()
    } else {
        (match modifier_named(ks[0].kind@) {
            Some(m) => seq![m],
            None => Seq::empty(),
        }) + modifiers_in(ks.drop_first())
    }
}

/// A run of keyword nodes carries modifier `m` exactly when one of the
/// nodes is `m`'s keyword: a field written `private` is `Private`, and
/// carries no access modifier it was not written with.
pub proof fn lemma_modifiers_written(ks: Seq<SyntaxNode>, m: Modifier)
    ensures
        modifiers_in(ks).contains(m) <==> exists|i: int|
            0 <= i < ks.len() && (#[trigger] ks[i]).kind@ == modifier_keyword(m),
    decreases ks.len(),
{
    if ks.len() > 0 {
        let rest = ks.drop_first();
        lemma_modifiers_written(rest, m);
        lemma_modifier_keywords(ks[0].kind@, m);
        let here = match modifier_named(ks[0].kind@) {
            Some(x) => seq![x],
            None => Seq::<Modifier>::empty(),
        };
        assert(modifiers_in(ks) == here + modifiers_in(rest));
        if modifiers_in(ks).contains(m) {
            let j = choose|j: int| 0 <= j < modifiers_in(ks).len() && modifiers_in(ks)[j] == m;
            if j < here.len() {
                assert(ks[0].kind@ == modifier_keyword(m));
            } else {
                assert(modifiers_in(rest)[j - here.len()] == m);
                let i = choose|i: int| 0 <= i < rest.len() && (#[trigger] rest[i]).kind@ == modifier_keyword(m);
                assert(ks[i + 1] == rest[i]);
            }
        }
        if exists|i: int| 0 <= i < ks.len() && (#[trigger] ks[i]).kind@ == modifier_keyword(m) {
            let i = choose|i: int| 0 <= i < ks.len() && (#[trigger] ks[i]).kind@ == modifier_keyword(m);
            if i == 0 {
                assert((here + modifiers_in(rest))[0] == m);
            } else {
                assert(rest[i - 1] == ks[i]);
                let j = choose|j: int| 0 <= j < modifiers_in(rest).len() && modifiers_in(rest)[j] == m;
                assert((here + modifiers_in(rest))[here.len() + j] == m);
            }
        }
    }
}

/// The first node of kind `k` among `ks`.
pub open spec fn first_of_kind(ks: Seq<SyntaxNode>, k: Seq<char>) -> Option<SyntaxNode>
    decreases ks.len(),
{
    if ks.len() == 0 {
        None
    } else if ks[0].kind@ == k {
        Some(ks[0])
    } else {
        first_of_kind(ks.drop_first(), k)
    }
}

/// A declaration's modifiers: those of its first `modifiers` child.
pub open spec fn modifiers_of(n: SyntaxNode) -> Seq<Modifier> {
    match first_of_kind(n.children@, "modifiers"@) {
        Some(m) => modifiers_in(m.children@),
        None => Seq::empty(),
    }
}

/// The texts of the `type_parameter` nodes among `ks`.
pub open spec fn type_param_texts(src: Seq<u8>, ks: Seq<SyntaxNode>) -> Seq<Seq<char>>
    decreases ks.len(),
{
    if ks.len() == 0 {
        Seq::empty()
    } else {
        (if ks[0].kind@ == "type_parameter"@ {
            seq![text_of(src, ks[0])]
        } else {
            Seq::empty()
        }) + type_param_texts(src, ks.drop_first())
    }
}

/// A declaration's type parameters, each by its text.
pub open spec fn type_params_of(src: Seq<u8>, n: SyntaxNode) -> Seq<Seq<char>> {
    match field_of(n, "type_parameters"@) {
        Some(tp) => type_param_texts(src, tp.children@),
        None => Seq::empty(),
    }
}

/// Type parameters as the walker makes them: named by their text, with
/// no bounds.
pub open spec fn unbounded_named(tps: Seq<TypeParam>, names: Seq<Seq<char>>) -> bool {
    &&& tps.len() == names.len()
    &&& forall|i: int| 0 <= i < tps.len() ==> #[trigger] tps[i].name@ == names[i] && tps[i].bounds@.len() == 0
}

/// One formal parameter as the walker reads it: its name (empty when
/// missing), its canonical type (`unknown` when missing), and whether it
/// is a varargs parameter.
pub open spec fn param_model(src: Seq<u8>, n: SyntaxNode) -> (Seq<char>, TypeModel, bool) {
    (
        match field_of(n, "name"@) {
            Some(x) => text_of(src, x),
            None => Seq::empty(),
        },
        match field_of(n, "type"@) {
            Some(t) => core_of(type_model(src, t)),
            None => TypeModel::Simple("unknown"@),
        },
        n.kind@ == "spread_parameter"@,
    )
}

/// The formal and spread parameters among `ks`.
pub open spec fn params_in(src: Seq<u8>, ks: Seq<SyntaxNode>) -> Seq<(Seq<char>, TypeModel, bool)>
    decreases ks.len(),
{
    if ks.len() == 0 {
        Seq::empty()
    } else {
        (if ks[0].kind@ == "formal_parameter"@ || ks[0].kind@ == "spread_parameter"@ {
            seq![param_model(src, ks[0])]
        } else {
            Seq::empty()
        }) + params_in(src, ks.drop_first())
    }
}

/// A declaration's formal parameters.
pub open spec fn params_of(src: Seq<u8>, n: SyntaxNode) -> Seq<(Seq<char>, TypeModel, bool)> {
    match field_of(n, "parameters"@) {
        Some(p) => params_in(src, p.children@),
        None => Seq::empty(),
    }
}

/// The views of raw parameters.
pub open spec fn raw_params_view(ps: Seq<(String, TypeRef, bool)>) -> Seq<(Seq<char>, TypeModel, bool)> {
    ps.map_values(|p: (String, TypeRef, bool)| (p.0@, p.1@, p.2))
}

fn modifier_for(k: &str) -> (r: Option<Modifier>)
    ensures
        r == modifier_named(k@),
{
    if str_eq(k, "public") {
        Some(Modifier::Public)
    } else if str_eq(k, "private") {
        Some(Modifier::Private)
    } else if str_eq(k, "protected") {
        Some(Modifier::Protected)
    } else if str_eq(k, "static") {
        Some(Modifier::Static)
    } else if str_eq(k, "abstract") {
        Some(Modifier::Abstract)
    } else if str_eq(k, "final") {
        Some(Modifier::Final)
    } else if str_eq(k, "sealed") {
        Some(Modifier::Sealed)
    } else if str_eq(k, "non-sealed") {
        Some(Modifier::NonSealed)
    } else if str_eq(k, "default") {
        Some(Modifier::Default)
    } else if str_eq(k, "synchronized") {
        Some(Modifier::Synchronized)
    } else if str_eq(k, "volatile") {
        Some(Modifier::Volatile)
    } else if str_eq(k, "transient") {
        Some(Modifier::Transient)
    } else if str_eq(k, "native") {
        Some(Modifier::Native)
    } else if str_eq(k, "strictfp") {
        Some(Modifier::Strictfp)
    } else {
        None
    }
}

/// A declaration's modifiers, see [`modifiers_of`].
fn extract_modifiers(node: &SyntaxNode) -> (r: Vec<Modifier>)
    ensures
        r@ == modifiers_of(*node),
{
    let ghost ks = node.children@;
    let mut i: usize = 0;
    proof {
        assert(ks.subrange(0, ks.len() as int) =~= ks);
    }
    while i < node.children.len()
        invariant
            ks == node.children@,
            i <= ks.len(),
            first_of_kind(ks, "modifiers"@) == first_of_kind(ks.subrange(i as int, ks.len() as int), "modifiers"@),
        decreases node.children.len() - i,
    {
        let ghost rest = ks.subrange(i as int, ks.len() as int);
        proof {
            assert(rest[0] == ks[i as int]);
            assert(rest.drop_first() =~= ks.subrange(i + 1, ks.len() as int));
        }
        if str_eq(node.children[i].kind.as_str(), "modifiers") {
            let m = &node.children[i];
            let ghost ms = m.children@;
            let mut out: Vec<Modifier> = Vec::new();
            let mut j: usize = 0;
            proof {
                assert(ms.subrange(0, ms.len() as int) =~= ms);
            }
            while j < m.children.len()
                invariant
                    ms == m.children@,
                    j <= ms.len(),
                    out@ + modifiers_in(ms.subrange(j as int, ms.len() as int)) == modifiers_in(ms),
                decreases m.children.len() - j,
            {
                let ghost mrest = ms.subrange(j as int, ms.len() as int);
                proof {
                    assert(mrest[0] == ms[j as int]);
                    assert(mrest.drop_first() =~= ms.subrange(j + 1, ms.len() as int));
                }
                match modifier_for(m.children[j].kind.as_str()) {
                    Some(md) => {
                        out.push(md);
                    },
                    None => {},
                }
                j += 1;
            }
            proof {
                assert(ms.subrange(j as int, ms.len() as int) =~= Seq::<SyntaxNode>::empty());
                assert(out@ + Seq::<Modifier>::empty() =~= out@);
            }
            return out;
        }
        i += 1;
    }
    Vec::new()
}

/// A declaration's type parameters, see [`type_params_of`].
fn extract_type_parameters(source: &str, node: &SyntaxNode) -> (r: Vec<TypeParam>)
    ensures
        unbounded_named(r@, type_params_of(source.spec_bytes(), *node)),
{
    let mut out: Vec<TypeParam> = Vec::new();
    match field(node, "type_parameters") {
        Some(tp) => {
            let ghost ks = tp.children@;
            let ghost src = source.spec_bytes();
            let mut i: usize = 0;
            proof {
                assert(ks.subrange(0, ks.len() as int) =~= ks);
            }
            while i < tp.children.len()
                invariant
                    ks == tp.children@,
                    src == source.spec_bytes(),
                    i <= ks.len(),
                    forall|j: int| 0 <= j < out@.len() ==> #[trigger] out@[j].bounds@.len() == 0,
                    out@.map_values(|t: TypeParam| t.name@) + type_param_texts(src, ks.subrange(i as int, ks.len() as int))
                        == type_param_texts(src, ks),
                decreases tp.children.len() - i,
            {
                let ghost rest = ks.subrange(i as int, ks.len() as int);
                proof {
                    assert(rest[0] == ks[i as int]);
                    assert(rest.drop_first() =~= ks.subrange(i + 1, ks.len() as int));
                }
                if str_eq(tp.children[i].kind.as_str(), "type_parameter") {
                    let ghost before = out@;
                    out.push(TypeParam::new(node_text(source, &tp.children[i])));
                    proof {
                        assert(out@.map_values(|t: TypeParam| t.name@) =~= before.map_values(|t: TypeParam| t.name@).push(text_of(src, ks[i as int])));
                    }
                }
                i += 1;
            }
            proof {
                assert(ks.subrange(i as int, ks.len() as int) =~= Seq::<SyntaxNode>::empty());
                assert(out@.map_values(|t: TypeParam| t.name@) =~= type_param_texts(src, ks));
                assert forall|j: int| 0 <= j < out@.len() implies #[trigger] out@[j].name@ == type_param_texts(src, ks)[j] && out@[j].bounds@.len() == 0 by {
                    assert(out@.map_values(|t: TypeParam| t.name@)[j] == out@[j].name@);
                }
            }
        },
        None => {},
    }
    out
}

/// A declaration's formal parameters, see [`params_of`].
fn extract_formal_parameters(source: &str, node: &SyntaxNode) -> (r: Vec<(String, TypeRef, bool)>)
    ensures
        raw_params_view(r@) == params_of(source.spec_bytes(), *node),
{
    let mut out: Vec<(String, TypeRef, bool)> = Vec::new();
    match field(node, "parameters") {
        Some(p) => {
            let ghost ks = p.children@;
            let ghost src = source.spec_bytes();
            let mut i: usize = 0;
            proof {
                assert(ks.subrange(0, ks.len() as int) =~= ks);
            }
            while i < p.children.len()
                invariant
                    ks == p.children@,
                    src == source.spec_bytes(),
                    i <= ks.len(),
                    raw_params_view(out@) + params_in(src, ks.subrange(i as int, ks.len() as int))
                        == params_in(src, ks),
                decreases p.children.len() - i,
            {
                let ghost rest = ks.subrange(i as int, ks.len() as int);
                proof {
                    assert(rest[0] == ks[i as int]);
                    assert(rest.drop_first() =~= ks.subrange(i + 1, ks.len() as int));
                }
                let c = &p.children[i];
                let is_varargs = str_eq(c.kind.as_str(), "spread_parameter");
                if str_eq(c.kind.as_str(), "formal_parameter") || is_varargs {
                    let name = match field(c, "name") {
                        Some(n) => node_text(source, n).to_string(),
                        None => {
                            proof {
                                reveal_strlit("");
                            }
                            String::new()
                        },
                    };
                    let ty = match field(c, "type") {
                        Some(t) => parse_type_ref(source, t).to_core(),
                        None => TypeRef::simple("unknown"),
                    };
                    let ghost before = out@;
                    out.push((name, ty, is_varargs));
                    proof {
                        assert(raw_params_view(out@) =~= raw_params_view(before).push(param_model(src, ks[i as int])));
                    }
                }
                i += 1;
            }
            proof {
                assert(ks.subrange(i as int, ks.len() as int) =~= Seq::<SyntaxNode>::empty());
                assert(raw_params_view(out@) + Seq::<(Seq<char>, TypeModel, bool)>::empty() =~= raw_params_view(out@));
            }
        },
        None => {
            assert(raw_params_view(out@) =~= Seq::<(Seq<char>, TypeModel, bool)>::empty());
        },
    }
    out
}

/// What kind of declaration a plan pair stands for.
pub enum DeclShape {
    Type(JavaTypeKind),
    Method,
    Constructor,
    Field,
    EnumConstant,
}

/// One declaration the walker finds, as the plan pair it becomes.
pub struct DeclSpec {
    pub shape: DeclShape,
    /// The node whose source range is the declaration's location.
    pub node: SyntaxNode,
    /// The declaration node its modifiers, types and parameters are read
    /// from (for a field: the field declaration, whose declarator is
    /// `node`).
    pub decl: SyntaxNode,
    pub name: Seq<char>,
    pub fqn: Seq<char>,
    /// The FQN of the enclosing declarations (the package at top level).
    pub owner: Seq<char>,
    /// Plan index of the enclosing declaration's Java payload.
    pub parent: Option<nat>,
    /// Type parameter names.
    pub tparams: Seq<Seq<char>>,
}

/// `parts` joined with dots.
pub open spec fn join_dots(parts: Seq<Seq<char>>) -> Seq<char>
    decreases parts.len(),
{
    if parts.len() == 0 {
        Seq::empty()
    } else if parts.len() == 1 {
        parts[0]
    } else {
        join_dots(parts.drop_last()) + "."@ + parts.last()
    }
}

/// The package (when there is one) followed by the enclosing names.
pub open spec fn name_parts(pkg: Seq<char>, frames: Seq<(nat, Seq<char>)>) -> Seq<Seq<char>> {
    (if pkg.len() > 0 {
        seq![pkg]
    } else {
        Seq::empty()
    }) + frames.map_values(|f: (nat, Seq<char>)| f.1)
}

/// The JVM type kind of a Java type kind.
pub open spec fn jvm_kind_of(k: JavaTypeKind) -> JvmTypeKind {
    match k {
        JavaTypeKind::Class => JvmTypeKind::Class,
        JavaTypeKind::Interface => JvmTypeKind::Interface,
        JavaTypeKind::Enum => JvmTypeKind::Enum,
        JavaTypeKind::Record => JvmTypeKind::Record,
        JavaTypeKind::Annotation => JvmTypeKind::Annotation,
    }
}

/// The class-like declaration kinds and their Java type kind.
pub open spec fn class_like_kind(k: Seq<char>) -> Option<JavaTypeKind> {
    if k == "class_declaration"@ {
        Some(JavaTypeKind::Class)
    } else if k == "interface_declaration"@ {
        Some(JavaTypeKind::Interface)
    } else if k == "record_declaration"@ {
        Some(JavaTypeKind::Record)
    } else if k == "annotation_type_declaration"@ {
        Some(JavaTypeKind::Annotation)
    } else {
        None
    }
}

/// The declaration `name` found at `n` inside `frames`.
pub open spec fn decl_spec(
    shape: DeclShape,
    node: SyntaxNode,
    decl: SyntaxNode,
    name: Seq<char>,
    pkg: Seq<char>,
    frames: Seq<(nat, Seq<char>)>,
    tparams: Seq<Seq<char>>,
) -> DeclSpec {
    DeclSpec {
        shape,
        node,
        decl,
        name,
        fqn: join_dots(name_parts(pkg, frames).push(name)),
        owner: join_dots(name_parts(pkg, frames)),
        parent: if frames.len() == 0 {
            None
        } else {
            Some(frames.last().0)
        },
        tparams,
    }
}

/// The first node among `ks` whose kind ends in `_body`.
pub open spec fn first_body(ks: Seq<SyntaxNode>) -> Option<SyntaxNode>
    decreases ks.len(),
{
    if ks.len() == 0 {
        None
    } else if has_suffix(ks[0].kind@, "_body"@) {
        Some(ks[0])
    } else {
        first_body(ks.drop_first())
    }
}

/// The body of a class-like declaration: its `body` field, else its first
/// child whose kind ends in `_body`.
pub open spec fn class_body(n: SyntaxNode) -> Option<SyntaxNode> {
    match field_of(n, "body"@) {
        Some(b) => Some(b),
        None => first_body(n.children@),
    }
}

/// The field declarations a field declaration `decl` yields from the
/// declarators among `ks`, starting at plan index `base`.
pub open spec fn field_specs(
    src: Seq<u8>,
    pkg: Seq<char>,
    frames: Seq<(nat, Seq<char>)>,
    decl: SyntaxNode,
    ks: Seq<SyntaxNode>,
) -> Seq<DeclSpec>
    decreases ks.len(),
{
    if ks.len() == 0 {
        Seq::empty()
    } else {
        (if ks[0].kind@ == "variable_declarator"@ {
            match field_of(ks[0], "name"@) {
                Some(nm) => seq![
                    decl_spec(
                        DeclShape::Field,
                        ks[0],
                        decl,
                        text_of(src, nm),
                        pkg,
                        frames,
                        Seq::empty(),
                    ),
                ],
                None => Seq::empty(),
            }
        } else {
            Seq::empty()
        }) + field_specs(src, pkg, frames, decl, ks.drop_first())
    }
}

/// Where the walker is: at the top of the file, among the members of a
/// class-like body, or among the entries of an enum body.
#[derive(Clone, Copy)]
pub enum WalkMode {
    Top,
    Member,
    EnumBody,
}

pub open spec fn mode_rank(m: WalkMode) -> nat {
    match m {
        WalkMode::EnumBody => 2,
        _ => 1,
    }
}

/// The declarations the walker finds at node `n`, in plan order; `base`
/// is the plan index the first of them gets.
pub open spec fn walk_node(
    src: Seq<u8>,
    pkg: Seq<char>,
    frames: Seq<(nat, Seq<char>)>,
    base: nat,
    n: SyntaxNode,
    mode: WalkMode,
) -> Seq<DeclSpec>
    decreases size(n), mode_rank(mode),
{
    let k = n.kind@;
    match mode {
        WalkMode::EnumBody => if k == "enum_constant"@ {
            match field_of(n, "name"@) {
                Some(nm) => seq![
                    decl_spec(
                        DeclShape::EnumConstant,
                        n,
                        n,
                        text_of(src, nm),
                        pkg,
                        frames,
                        Seq::empty(),
                    ),
                ],
                None => Seq::empty(),
            }
        } else if k == "enum_body_declarations"@ {
            proof {
                lemma_child_size_bound(n);
            }
            walk_list(src, pkg, frames, base, n.children@, WalkMode::Member)
        } else {
            walk_node(src, pkg, frames, base, n, WalkMode::Member)
        },
        _ => {
            let member = mode is Member;
            if member && k == "method_declaration"@ {
                match field_of(n, "name"@) {
                    Some(nm) => seq![
                        decl_spec(
                            DeclShape::Method,
                            n,
                            n,
                            text_of(src, nm),
                            pkg,
                            frames,
                            type_params_of(src, n),
                        ),
                    ],
                    None => Seq::empty(),
                }
            } else if member && k == "constructor_declaration"@ {
                match field_of(n, "name"@) {
                    Some(nm) => seq![
                        decl_spec(
                            DeclShape::Constructor,
                            n,
                            n,
                            text_of(src, nm),
                            pkg,
                            frames,
                            type_params_of(src, n),
                        ),
                    ],
                    None => Seq::empty(),
                }
            } else if member && k == "field_declaration"@ {
                field_specs(src, pkg, frames, n, n.children@)
            } else if class_like_kind(k) is Some {
                match field_of(n, "name"@) {
                    Some(nm) => {
                        let name = text_of(src, nm);
                        let d = decl_spec(
                            DeclShape::Type(class_like_kind(k)->0),
                            n,
                            n,
                            name,
                            pkg,
                            frames,
                            type_params_of(src, n),
                        );
                        let inner = frames.push((base, name));
                        seq![d] + match class_body(n) {
                            Some(b) => {
                                proof {
                                    lemma_class_body_smaller(n);
                                    lemma_child_size_bound(b);
                                }
                                walk_list(src, pkg, inner, base + 2, b.children@, WalkMode::Member)
                            },
                            None => Seq::empty(),
                        }
                    },
                    None => Seq::empty(),
                }
            } else if k == "enum_declaration"@ {
                match field_of(n, "name"@) {
                    Some(nm) => {
                        let name = text_of(src, nm);
                        let d = decl_spec(
                            DeclShape::Type(JavaTypeKind::Enum),
                            n,
                            n,
                            name,
                            pkg,
                            frames,
                            Seq::empty(),
                        );
                        let inner = frames.push((base, name));
                        seq![d] + match field_of(n, "body"@) {
                            Some(b) => {
                                proof {
                                    lemma_field_smaller(n, "body"@);
                                    lemma_child_size_bound(b);
                                }
                                walk_list(src, pkg, inner, base + 2, b.children@, WalkMode::EnumBody)
                            },
                            None => Seq::empty(),
                        }
                    },
                    None => Seq::empty(),
                }
            } else {
                Seq::empty()
            }
        },
    }
}

/// The declarations the walker finds in the nodes `ks`, in order.
pub open spec fn walk_list(
    src: Seq<u8>,
    pkg: Seq<char>,
    frames: Seq<(nat, Seq<char>)>,
    base: nat,
    ks: Seq<SyntaxNode>,
    mode: WalkMode,
) -> Seq<DeclSpec>
    decreases kids_size(ks), 3nat,
{
    if ks.len() == 0 {
        Seq::empty()
    } else {
        proof {
            lemma_kids_size(ks, 0);
        }
        let a = walk_node(src, pkg, frames, base, ks[0], mode);
        a + walk_list(src, pkg, frames, base + 2 * a.len(), ks.drop_first(), mode)
    }
}

pub proof fn lemma_first_body_smaller(ks: Seq<SyntaxNode>)
    requires
        first_body(ks) is Some,
    ensures
        size(first_body(ks)->0) <= kids_size(ks),
    decreases ks.len(),
{
    lemma_kids_size(ks, 0);
    if !has_suffix(ks[0].kind@, "_body"@) {
        lemma_first_body_smaller(ks.drop_first());
    }
}

pub proof fn lemma_class_body_smaller(n: SyntaxNode)
    requires
        class_body(n) is Some,
    ensures
        size(class_body(n)->0) < size(n),
{
    if field_of(n, "body"@) is Some {
        lemma_field_smaller(n, "body"@);
    } else {
        lemma_first_body_smaller(n.children@);
        lemma_child_size_bound(n);
    }
}

/// One plan entry: a payload and the plan index of its parent.
#[derive(Debug)]
pub struct PendingNode {
    payload: NodePayload,
    parent: Option<usize>,
}

impl PendingNode {
    pub closed spec fn payload_spec(&self) -> NodePayload {
        self.payload
    }

    pub closed spec fn parent_spec(&self) -> Option<usize> {
        self.parent
    }

    /// The payload to insert.
    pub fn payload(&self) -> (r: &NodePayload)
        ensures
            *r == self.payload_spec(),
    {
        &self.payload
    }

    /// The plan index of the parent entry; none for a root.
    pub fn parent(&self) -> (r: Option<usize>)
        ensures
            r == self.parent_spec(),
    {
        self.parent
    }
}

/// The location of the node `n` in the file `path`.
pub open spec fn loc_ok(l: Option<Location>, path: Seq<char>, n: SyntaxNode) -> bool {
    match l {
        Some(loc) => {
            &&& loc.file@ == path
            &&& loc.start_line == n.start.0 as u32
            &&& loc.start_col == n.start.1 as u32
            &&& loc.end_line == n.end.0 as u32
            &&& loc.end_col == n.end.1 as u32
        },
        None => false,
    }
}

/// The modifiers a declaration carries: its own, or, for an enum
/// constant, `public static final`.
pub open spec fn mods_for(d: DeclSpec) -> Seq<Modifier> {
    match d.shape {
        DeclShape::EnumConstant => seq![Modifier::Public, Modifier::Static, Modifier::Final],
        _ => modifiers_of(d.decl),
    }
}

pub open spec fn java_header_ok(h: JavaDeclHeader, d: DeclSpec, path: Seq<char>) -> bool {
    &&& h.name@ == d.name
    &&& h.fqn@ == d.fqn
    &&& loc_ok(h.location, path, d.node)
    &&& h.modifiers@ == mods_for(d)
    &&& h.annotations@.len() == 0
}

pub open spec fn jvm_header_ok(h: JvmDeclHeader, d: DeclSpec, path: Seq<char>) -> bool {
    &&& h.name@ == d.name
    &&& h.fqn@ == d.fqn
    &&& loc_ok(h.location, path, d.node)
    &&& h.modifiers@ == mods_for(d)
    &&& h.annotations@.len() == 0
}

/// A method's return type: its `type` field, `void` when missing.
pub open spec fn return_model(src: Seq<u8>, decl: SyntaxNode) -> TypeModel {
    match field_of(decl, "type"@) {
        Some(t) => core_of(type_model(src, t)),
        None => TypeModel::Void,
    }
}

/// A field declaration's type: its `type` field, `unknown` when missing.
pub open spec fn field_type_model(src: Seq<u8>, decl: SyntaxNode) -> TypeModel {
    match field_of(decl, "type"@) {
        Some(t) => core_of(type_model(src, t)),
        None => TypeModel::Simple("unknown"@),
    }
}

pub open spec fn java_params_ok(ps: Seq<JavaParameter>, ms: Seq<(Seq<char>, TypeModel, bool)>) -> bool {
    &&& ps.len() == ms.len()
    &&& forall|i: int|
        0 <= i < ps.len() ==> #[trigger] ps[i].name@ == ms[i].0 && ps[i].param_type@ == ms[i].1
            && ps[i].is_varargs == ms[i].2
}

/// JVM parameters carry the erasure of the parameter types.
pub open spec fn jvm_params_ok(ps: Seq<JvmParameter>, ms: Seq<(Seq<char>, TypeModel, bool)>) -> bool {
    &&& ps.len() == ms.len()
    &&& forall|i: int|
        0 <= i < ps.len() ==> #[trigger] ps[i].name@ == ms[i].0 && ps[i].param_type@ == erasure_of(
            ms[i].1,
        ) && ps[i].is_varargs == ms[i].2 && ps[i].enrichments.nullability is None
}

/// `java` and `jvm` are the Java payload and the JVM projection of the
/// declaration `d`: names, FQNs, locations and modifiers agree with it;
/// the JVM side erases types and names the owner.
pub open spec fn pair_ok(java: NodePayload, jvm: NodePayload, d: DeclSpec, src: Seq<u8>, path: Seq<char>) -> bool {
    match (java, jvm) {
        (NodePayload::Java(JavaNodePayload::Type(t)), NodePayload::Jvm(JvmNodePayload::Type(v))) => {
            &&& d.shape == DeclShape::Type(t.kind)
            &&& v.kind == jvm_kind_of(t.kind)
            &&& java_header_ok(t.header, d, path)
            &&& jvm_header_ok(v.header, d, path)
            &&& unbounded_named(t.type_parameters@, d.tparams)
            &&& unbounded_named(v.type_parameters@, d.tparams)
            &&& t.record_components@.len() == 0
            &&& v.record_components@.len() == 0
            &&& v.enrichments.nullability is None
        },
        (NodePayload::Java(JavaNodePayload::Method(m)), NodePayload::Jvm(JvmNodePayload::Method(v))) => {
            &&& d.shape is Method
            &&& java_header_ok(m.header, d, path)
            &&& jvm_header_ok(v.header, d, path)
            &&& m.return_type@ == return_model(src, d.decl)
            &&& v.return_type@ == erasure_of(return_model(src, d.decl))
            &&& java_params_ok(m.parameters@, params_of(src, d.decl))
            &&& jvm_params_ok(v.parameters@, params_of(src, d.decl))
            &&& unbounded_named(m.type_parameters@, d.tparams)
            &&& unbounded_named(v.type_parameters@, d.tparams)
            &&& m.throws@.len() == 0
            &&& v.throws@.len() == 0
            &&& m.has_body == (field_of(d.decl, "body"@) is Some)
            &&& v.owner@ == d.owner
            &&& v.enrichments.nullability is None
        },
        (
            NodePayload::Java(JavaNodePayload::Constructor(c)),
            NodePayload::Jvm(JvmNodePayload::Constructor(v)),
        ) => {
            &&& d.shape is Constructor
            &&& java_header_ok(c.header, d, path)
            &&& jvm_header_ok(v.header, d, path)
            &&& java_params_ok(c.parameters@, params_of(src, d.decl))
            &&& jvm_params_ok(v.parameters@, params_of(src, d.decl))
            &&& unbounded_named(c.type_parameters@, d.tparams)
            &&& unbounded_named(v.type_parameters@, d.tparams)
            &&& c.throws@.len() == 0
            &&& v.throws@.len() == 0
            &&& v.owner@ == d.owner
        },
        (NodePayload::Java(JavaNodePayload::Field(f)), NodePayload::Jvm(JvmNodePayload::Field(v))) => {
            &&& d.shape is Field
            &&& java_header_ok(f.header, d, path)
            &&& jvm_header_ok(v.header, d, path)
            &&& f.field_type@ == field_type_model(src, d.decl)
            &&& v.field_type@ == field_type_model(src, d.decl)
            &&& f.constant_value is None
            &&& v.constant_value is None
            &&& !f.initialized
            &&& !v.initialized
            &&& v.owner@ == d.owner
            &&& v.enrichments.nullability is None
        },
        (
            NodePayload::Java(JavaNodePayload::EnumConstant(e)),
            NodePayload::Jvm(JvmNodePayload::EnumConstant(v)),
        ) => {
            &&& d.shape is EnumConstant
            &&& java_header_ok(e.header, d, path)
            &&& jvm_header_ok(v.header, d, path)
            &&& e.enum_owner@ == d.owner
            &&& v.enum_owner@ == d.owner
        },
        _ => false,
    }
}

pub open spec fn opt_index(p: Option<usize>) -> Option<nat> {
    match p {
        Some(i) => Some(i as nat),
        None => None,
    }
}

/// Plan entries `i` and `i + 1` are the pair of the declaration `d`.
pub open spec fn entry_ok(plan: Seq<PendingNode>, i: int, d: DeclSpec, src: Seq<u8>, path: Seq<char>) -> bool {
    &&& opt_index(plan[i].parent_spec()) == d.parent
    &&& plan[i + 1].parent_spec() == Some(i as usize)
    &&& pair_ok(plan[i].payload_spec(), plan[i + 1].payload_spec(), d, src, path)
}

/// From plan index `base` on, the plan holds exactly the pairs of `ds`.
pub open spec fn plan_has(plan: Seq<PendingNode>, base: nat, ds: Seq<DeclSpec>, src: Seq<u8>, path: Seq<char>) -> bool {
    &&& plan.len() == base + 2 * ds.len()
    &&& forall|k: int| 0 <= k < ds.len() ==> entry_ok(plan, base + 2 * k, #[trigger] ds[k], src, path)
}

pub proof fn lemma_plan_has_append(
    plan: Seq<PendingNode>,
    base: nat,
    a: Seq<DeclSpec>,
    b: Seq<DeclSpec>,
    src: Seq<u8>,
    path: Seq<char>,
)
    requires
        base + 2 * a.len() <= plan.len(),
        forall|k: int| 0 <= k < a.len() ==> entry_ok(plan, base + 2 * k, #[trigger] a[k], src, path),
        plan_has(plan, base + 2 * a.len(), b, src, path),
    ensures
        plan_has(plan, base, a + b, src, path),
{
    assert forall|k: int| 0 <= k < (a + b).len() implies entry_ok(plan, base + 2 * k, #[trigger] (a + b)[k], src, path) by {
        if k >= a.len() {
            assert((a + b)[k] == b[k - a.len()]);
            assert(entry_ok(plan, base + 2 * a.len() + 2 * (k - a.len()), b[k - a.len()], src, path));
        }
    }
}

/// The enclosing declarations, each as the plan index of its Java payload
/// and its simple name.
struct EnclosingFrame {
    java_idx: usize,
    name: String,
}

spec fn frames_view(fs: Seq<EnclosingFrame>) -> Seq<(nat, Seq<char>)> {
    fs.map_values(|f: EnclosingFrame| (f.java_idx as nat, f.name@))
}

struct ParseContext<'a> {
    source: &'a str,
    path: &'a str,
    plan: Vec<PendingNode>,
    package: String,
    frames: Vec<EnclosingFrame>,
}

impl<'a> ParseContext<'a> {
    spec fn src(&self) -> Seq<u8> {
        self.source.spec_bytes()
    }

    spec fn frames_spec(&self) -> Seq<(nat, Seq<char>)> {
        frames_view(self.frames@)
    }

    /// Everything but the plan is as in `other`, and the plan extends it.
    spec fn extends(&self, other: &Self) -> bool {
        &&& self.source == other.source
        &&& self.path == other.path
        &&& self.package == other.package
        &&& self.frames@ == other.frames@
        &&& self.plan@.len() >= other.plan@.len()
        &&& forall|i: int| 0 <= i < other.plan@.len() ==> #[trigger] self.plan@[i] == other.plan@[i]
    }
}

/// The enclosing FQN: the package and the enclosing names joined.
#[verifier::rlimit(40)]
fn enclosing_fqn(ctx: &ParseContext) -> (r: String)
    ensures
        r@ == join_dots(name_parts(ctx.package@, ctx.frames_spec())),
{
    let ghost fs = ctx.frames_spec();
    let mut s = String::new();
    proof {
        reveal_strlit("");
    }
    let mut any = false;
    if ctx.package.as_str().unicode_len() > 0 {
        s.append(ctx.package.as_str());
        any = true;
        proof {
            assert(name_parts(ctx.package@, fs.take(0)) =~= seq![ctx.package@]);
        }
    } else {
        proof {
            assert(name_parts(ctx.package@, fs.take(0)) =~= Seq::<Seq<char>>::empty());
        }
    }
    let mut i: usize = 0;
    while i < ctx.frames.len()
        invariant
            fs == frames_view(ctx.frames@),
            i <= ctx.frames@.len(),
            any == (name_parts(ctx.package@, fs.take(i as int)).len() > 0),
            s@ == join_dots(name_parts(ctx.package@, fs.take(i as int))),
        decreases ctx.frames.len() - i,
    {
        let ghost before = name_parts(ctx.package@, fs.take(i as int));
        proof {
            assert(name_parts(ctx.package@, fs.take(i + 1)) =~= before.push(ctx.frames@[i as int].name@));
            assert(before.push(ctx.frames@[i as int].name@).drop_last() =~= before);
        }
        if any {
            s.append(".");
        }
        s.append(ctx.frames[i].name.as_str());
        any = true;
        proof {
            if before.len() == 0 {
                assert(s@ =~= ctx.frames@[i as int].name@);
            }
        }
        i += 1;
    }
    proof {
        assert(fs.take(fs.len() as int) =~= fs);
    }
    s
}

/// The FQN of `name` declared here.
fn build_fqn(ctx: &ParseContext, name: &str) -> (r: String)
    ensures
        r@ == join_dots(name_parts(ctx.package@, ctx.frames_spec()).push(name@)),
{
    let ghost parts = name_parts(ctx.package@, ctx.frames_spec());
    proof {
        assert(parts.push(name@).drop_last() =~= parts);
    }
    if ctx.package.as_str().unicode_len() == 0 && ctx.frames.len() == 0 {
        proof {
            assert(parts =~= Seq::<Seq<char>>::empty());
        }
        name.to_string()
    } else {
        let mut s = enclosing_fqn(ctx);
        s.append(".");
        s.append(name);
        s
    }
}

fn make_location(ctx: &ParseContext, node: &SyntaxNode) -> (r: Location)
    ensures
        loc_ok(Some(r), ctx.path@, *node),
{
    Location {
        file: ctx.path.to_string(),
        start_line: node.start.0 as u32,
        start_col: node.start.1 as u32,
        end_line: node.end.0 as u32,
        end_col: node.end.1 as u32,
    }
}

fn copy_modifiers(m: &Vec<Modifier>) -> (r: Vec<Modifier>)
    ensures
        r@ == m@,
{
    let mut r: Vec<Modifier> = Vec::new();
    let mut i: usize = 0;
    while i < m.len()
        invariant
            i <= m@.len(),
            r@ == m@.take(i as int),
        decreases m.len() - i,
    {
        r.push(m[i]);
        i += 1;
        proof {
            assert(r@ =~= m@.take(i as int));
        }
    }
    proof {
        assert(m@.take(m@.len() as int) =~= m@);
    }
    r
}

/// Push a (Java, JVM) pair: the Java payload under the innermost
/// enclosing declaration, its JVM projection under it. Returns the Java
/// payload's plan index.
fn emit_pair(ctx: &mut ParseContext, java: JavaNodePayload, jvm: JvmNodePayload) -> (java_idx: usize)
    ensures
        java_idx == old(ctx).plan@.len(),
        final(ctx).source == old(ctx).source,
        final(ctx).path == old(ctx).path,
        final(ctx).package == old(ctx).package,
        final(ctx).frames@ == old(ctx).frames@,
        final(ctx).plan@ == old(ctx).plan@.push(
            PendingNode {
                payload: NodePayload::Java(java),
                parent: if old(ctx).frames@.len() == 0 {
                    None
                } else {
                    Some(old(ctx).frames@.last().java_idx)
                },
            },
        ).push(PendingNode { payload: NodePayload::Jvm(jvm), parent: Some(java_idx) }),
{
    let parent = if ctx.frames.len() == 0 {
        None
    } else {
        Some(ctx.frames[ctx.frames.len() - 1].java_idx)
    };
    let java_idx = ctx.plan.len();
    ctx.plan.push(PendingNode { payload: NodePayload::Java(java), parent });
    ctx.plan.push(PendingNode { payload: NodePayload::Jvm(jvm), parent: Some(java_idx) });
    java_idx
}

fn java_header(ctx: &ParseContext, name: &str, node: &SyntaxNode, modifiers: Vec<Modifier>) -> (r: JavaDeclHeader)
    ensures
        r.name@ == name@,
        r.fqn@ == join_dots(name_parts(ctx.package@, ctx.frames_spec()).push(name@)),
        loc_ok(r.location, ctx.path@, *node),
        r.modifiers@ == modifiers@,
        r.annotations@.len() == 0,
{
    JavaDeclHeader {
        name: name.to_string(),
        fqn: Fqn::new(build_fqn(ctx, name)),
        location: Some(make_location(ctx, node)),
        modifiers,
        annotations: Vec::new(),
    }
}

fn jvm_header(ctx: &ParseContext, name: &str, node: &SyntaxNode, modifiers: Vec<Modifier>) -> (r: JvmDeclHeader)
    ensures
        r.name@ == name@,
        r.fqn@ == join_dots(name_parts(ctx.package@, ctx.frames_spec()).push(name@)),
        loc_ok(r.location, ctx.path@, *node),
        r.modifiers@ == modifiers@,
        r.annotations@.len() == 0,
{
    JvmDeclHeader {
        name: name.to_string(),
        fqn: Fqn::new(build_fqn(ctx, name)),
        location: Some(make_location(ctx, node)),
        modifiers,
        annotations: Vec::new(),
    }
}

fn no_enrichments() -> (r: JvmEnrichments)
    ensures
        r.nullability is None,
{
    JvmEnrichments { nullability: None }
}

spec fn java_param_from(p: JavaParameter, r: (String, TypeRef, bool)) -> bool {
    p.name@ == r.0@ && p.param_type@ == r.1@ && p.is_varargs == r.2
}

spec fn jvm_param_from(p: JvmParameter, r: (String, TypeRef, bool)) -> bool {
    p.name@ == r.0@ && p.param_type@ == erasure_of(r.1@) && p.is_varargs == r.2
        && p.enrichments.nullability is None
}

/// The Java and the JVM parameters of raw parameters: the JVM side erases
/// the types.
fn split_parameters(raw: &Vec<(String, TypeRef, bool)>) -> (r: (Vec<JavaParameter>, Vec<JvmParameter>))
    ensures
        java_params_ok(r.0@, raw_params_view(raw@)),
        jvm_params_ok(r.1@, raw_params_view(raw@)),
{
    let mut java: Vec<JavaParameter> = Vec::new();
    let mut jvm: Vec<JvmParameter> = Vec::new();
    let mut i: usize = 0;
    while i < raw.len()
        invariant
            i <= raw@.len(),
            java@.len() == i,
            jvm@.len() == i,
            forall|j: int| 0 <= j < i ==> java_param_from(#[trigger] java@[j], raw@[j]),
            forall|j: int| 0 <= j < i ==> jvm_param_from(#[trigger] jvm@[j], raw@[j]),
        decreases raw.len() - i,
    {
        let jp = JavaParameter {
            name: raw[i].0.as_str().to_string(),
            param_type: raw[i].1.duplicate(),
            is_varargs: raw[i].2,
        };
        let vp = JvmParameter {
            name: raw[i].0.as_str().to_string(),
            param_type: raw[i].1.erasure(),
            is_varargs: raw[i].2,
            enrichments: no_enrichments(),
        };
        proof {
            assert(java_param_from(jp, raw@[i as int]));
            assert(jvm_param_from(vp, raw@[i as int]));
        }
        java.push(jp);
        jvm.push(vp);
        i += 1;
    }
    proof {
        assert forall|j: int| 0 <= j < java@.len() implies #[trigger] java@[j].name@ == raw_params_view(raw@)[j].0
            && java@[j].param_type@ == raw_params_view(raw@)[j].1 && java@[j].is_varargs == raw_params_view(raw@)[j].2 by {
            assert(java_param_from(java@[j], raw@[j]));
        }
        assert forall|j: int| 0 <= j < jvm@.len() implies #[trigger] jvm@[j].name@ == raw_params_view(raw@)[j].0
            && jvm@[j].param_type@ == erasure_of(raw_params_view(raw@)[j].1) && jvm@[j].is_varargs
            == raw_params_view(raw@)[j].2 && jvm@[j].enrichments.nullability is None by {
            assert(jvm_param_from(jvm@[j], raw@[j]));
        }
    }
    (java, jvm)
}

/// The declaration kinds the walker tells apart are distinct.
proof fn lemma_kinds_distinct()
    ensures
        "method_declaration"@ != "constructor_declaration"@,
        "method_declaration"@ != "field_declaration"@,
        "method_declaration"@ != "class_declaration"@,
        "method_declaration"@ != "interface_declaration"@,
        "method_declaration"@ != "record_declaration"@,
        "method_declaration"@ != "annotation_type_declaration"@,
        "method_declaration"@ != "enum_declaration"@,
        "method_declaration"@ != "enum_constant"@,
        "method_declaration"@ != "enum_body_declarations"@,
        "constructor_declaration"@ != "field_declaration"@,
        "constructor_declaration"@ != "class_declaration"@,
        "constructor_declaration"@ != "interface_declaration"@,
        "constructor_declaration"@ != "record_declaration"@,
        "constructor_declaration"@ != "annotation_type_declaration"@,
        "constructor_declaration"@ != "enum_declaration"@,
        "constructor_declaration"@ != "enum_constant"@,
        "constructor_declaration"@ != "enum_body_declarations"@,
        "field_declaration"@ != "class_declaration"@,
        "field_declaration"@ != "interface_declaration"@,
        "field_declaration"@ != "record_declaration"@,
        "field_declaration"@ != "annotation_type_declaration"@,
        "field_declaration"@ != "enum_declaration"@,
        "field_declaration"@ != "enum_constant"@,
        "field_declaration"@ != "enum_body_declarations"@,
        "class_declaration"@ != "interface_declaration"@,
        "class_declaration"@ != "record_declaration"@,
        "class_declaration"@ != "annotation_type_declaration"@,
        "class_declaration"@ != "enum_declaration"@,
        "class_declaration"@ != "enum_constant"@,
        "class_declaration"@ != "enum_body_declarations"@,
        "interface_declaration"@ != "record_declaration"@,
        "interface_declaration"@ != "annotation_type_declaration"@,
        "interface_declaration"@ != "enum_declaration"@,
        "interface_declaration"@ != "enum_constant"@,
        "interface_declaration"@ != "enum_body_declarations"@,
        "record_declaration"@ != "annotation_type_declaration"@,
        "record_declaration"@ != "enum_declaration"@,
        "record_declaration"@ != "enum_constant"@,
        "record_declaration"@ != "enum_body_declarations"@,
        "annotation_type_declaration"@ != "enum_declaration"@,
        "annotation_type_declaration"@ != "enum_constant"@,
        "annotation_type_declaration"@ != "enum_body_declarations"@,
        "enum_declaration"@ != "enum_constant"@,
        "enum_declaration"@ != "enum_body_declarations"@,
        "enum_constant"@ != "enum_body_declarations"@,
{
    reveal_strlit("method_declaration");
    reveal_strlit("constructor_declaration");
    reveal_strlit("field_declaration");
    reveal_strlit("class_declaration");
    reveal_strlit("interface_declaration");
    reveal_strlit("record_declaration");
    reveal_strlit("annotation_type_declaration");
    reveal_strlit("enum_declaration");
    reveal_strlit("enum_constant");
    reveal_strlit("enum_body_declarations");
    assert("method_declaration"@.len() == 18);
    assert("constructor_declaration"@.len() == 23);
    assert("field_declaration"@.len() == 17);
    assert("class_declaration"@.len() == 17);
    assert("interface_declaration"@.len() == 21);
    assert("record_declaration"@.len() == 18);
    assert("annotation_type_declaration"@.len() == 27);
    assert("enum_declaration"@.len() == 16);
    assert("enum_constant"@.len() == 13);
    assert("enum_body_declarations"@.len() == 22);
    assert("method_declaration"@[0] == 'm');
    assert("constructor_declaration"@[0] == 'c');
    assert("field_declaration"@[0] == 'f');
    assert("class_declaration"@[0] == 'c');
    assert("interface_declaration"@[0] == 'i');
    assert("record_declaration"@[0] == 'r');
    assert("annotation_type_declaration"@[0] == 'a');
    assert("enum_declaration"@[0] == 'e');
    assert("enum_constant"@[0] == 'e');
    assert("enum_body_declarations"@[0] == 'e');
}

/// The walk from `before` to `after` added exactly the pairs of `ds`.
spec fn walked(before: &ParseContext, after: &ParseContext, ds: Seq<DeclSpec>) -> bool {
    &&& after.extends(before)
    &&& plan_has(after.plan@, before.plan@.len() as nat, ds, before.src(), before.path@)
}

/// What a walk of `node` in mode `mode` from `ctx` adds.
spec fn walk_here(ctx: &ParseContext, node: SyntaxNode, mode: WalkMode) -> Seq<DeclSpec> {
    walk_node(ctx.src(), ctx.package@, ctx.frames_spec(), ctx.plan@.len() as nat, node, mode)
}

proof fn lemma_emitted(
    before: &ParseContext,
    after: &ParseContext,
    java: JavaNodePayload,
    jvm: JvmNodePayload,
    d: DeclSpec,
)
    requires
        after.source == before.source,
        after.path == before.path,
        after.package == before.package,
        after.frames@ == before.frames@,
        after.plan@ == before.plan@.push(
            PendingNode {
                payload: NodePayload::Java(java),
                parent: if before.frames@.len() == 0 {
                    None
                } else {
                    Some(before.frames@.last().java_idx)
                },
            },
        ).push(PendingNode { payload: NodePayload::Jvm(jvm), parent: Some(before.plan@.len() as usize) }),
        d.parent == (if before.frames_spec().len() == 0 {
            None
        } else {
            Some(before.frames_spec().last().0)
        }),
        pair_ok(NodePayload::Java(java), NodePayload::Jvm(jvm), d, before.src(), before.path@),
    ensures
        walked(before, after, seq![d]),
{
    let base = before.plan@.len() as int;
    assert(after.plan@[base].payload_spec() == NodePayload::Java(java));
    assert(after.plan@[base + 1].payload_spec() == NodePayload::Jvm(jvm));
    if before.frames@.len() > 0 {
        assert(before.frames_spec().last().0 == before.frames@.last().java_idx as nat);
    }
    assert(entry_ok(after.plan@, base + 2 * 0, seq![d][0], before.src(), before.path@));
    assert forall|i: int| 0 <= i < before.plan@.len() implies #[trigger] after.plan@[i] == before.plan@[i] by {}
}

/// A method declaration becomes a Java method and its JVM projection,
/// whose return and parameter types are erased and whose owner is the
/// enclosing declaration.
fn extract_method(ctx: &mut ParseContext, node: &SyntaxNode)
    requires
        node.kind@ == "method_declaration"@,
    ensures
        walked(old(ctx), final(ctx), walk_here(old(ctx), *node, WalkMode::Member)),
{
    let ghost before = *ctx;
    let name = match field(node, "name") {
        Some(n) => node_text(ctx.source, n).to_string(),
        None => {
            proof {
                assert(ctx.plan@.len() == before.plan@.len() + 2 * 0);
                lemma_kinds_distinct();
            }
            return;
        },
    };
    let modifiers = extract_modifiers(node);
    let return_type = match field(node, "type") {
        Some(t) => parse_type_ref(ctx.source, t).to_core(),
        None => TypeRef::Void,
    };
    let raw = extract_formal_parameters(ctx.source, node);
    let (java_parameters, jvm_parameters) = split_parameters(&raw);
    let owner = Fqn::new(enclosing_fqn(ctx));
    let java_payload = JavaNodePayload::Method(
        JavaMethodNode {
            header: java_header(ctx, name.as_str(), node, copy_modifiers(&modifiers)),
            return_type: return_type.duplicate(),
            parameters: java_parameters,
            type_parameters: extract_type_parameters(ctx.source, node),
            throws: Vec::new(),
            has_body: field(node, "body").is_some(),
        },
    );
    let jvm_payload = JvmNodePayload::Method(
        JvmMethodNode {
            header: jvm_header(ctx, name.as_str(), node, modifiers),
            owner,
            return_type: return_type.erasure(),
            parameters: jvm_parameters,
            type_parameters: extract_type_parameters(ctx.source, node),
            throws: Vec::new(),
            enrichments: no_enrichments(),
        },
    );
    let ghost d = decl_spec(
        DeclShape::Method,
        *node,
        *node,
        name@,
        before.package@,
        before.frames_spec(),
        type_params_of(before.src(), *node),
    );
    proof {
        assert(pair_ok(NodePayload::Java(java_payload), NodePayload::Jvm(jvm_payload), d, before.src(), before.path@));
    }
    emit_pair(ctx, java_payload, jvm_payload);
    proof {
        lemma_emitted(&before, &*ctx, java_payload, jvm_payload, d);
    }
}

proof fn lemma_plan_has_extend(
    plan: Seq<PendingNode>,
    longer: Seq<PendingNode>,
    base: nat,
    ds: Seq<DeclSpec>,
    src: Seq<u8>,
    path: Seq<char>,
)
    requires
        plan_has(plan, base, ds, src, path),
        longer.len() >= plan.len(),
        forall|i: int| 0 <= i < plan.len() ==> #[trigger] longer[i] == plan[i],
    ensures
        forall|k: int| 0 <= k < ds.len() ==> entry_ok(longer, base + 2 * k, #[trigger] ds[k], src, path),
{
    assert forall|k: int| 0 <= k < ds.len() implies entry_ok(longer, base + 2 * k, #[trigger] ds[k], src, path) by {
        assert(entry_ok(plan, base + 2 * k, ds[k], src, path));
        assert(longer[base + 2 * k] == plan[base + 2 * k]);
        assert(longer[base + 2 * k + 1] == plan[base + 2 * k + 1]);
    }
}

/// Walks compose: a walk adding `a` followed by one adding `b` adds
/// `a + b`.
proof fn lemma_walked_then(a_ctx: &ParseContext, b_ctx: &ParseContext, c_ctx: &ParseContext, a: Seq<DeclSpec>, b: Seq<DeclSpec>)
    requires
        walked(a_ctx, b_ctx, a),
        walked(b_ctx, c_ctx, b),
    ensures
        walked(a_ctx, c_ctx, a + b),
{
    lemma_plan_has_extend(b_ctx.plan@, c_ctx.plan@, a_ctx.plan@.len() as nat, a, a_ctx.src(), a_ctx.path@);
    lemma_plan_has_append(c_ctx.plan@, a_ctx.plan@.len() as nat, a, b, a_ctx.src(), a_ctx.path@);
    assert forall|i: int| 0 <= i < a_ctx.plan@.len() implies #[trigger] c_ctx.plan@[i] == a_ctx.plan@[i] by {
        assert(b_ctx.plan@[i] == a_ctx.plan@[i]);
    }
}

/// A constructor declaration becomes a Java constructor and its JVM
/// projection.
fn extract_constructor(ctx: &mut ParseContext, node: &SyntaxNode)
    requires
        node.kind@ == "constructor_declaration"@,
    ensures
        walked(old(ctx), final(ctx), walk_here(old(ctx), *node, WalkMode::Member)),
{
    let ghost before = *ctx;
    let name = match field(node, "name") {
        Some(n) => node_text(ctx.source, n).to_string(),
        None => {
            proof {
                assert(ctx.plan@.len() == before.plan@.len() + 2 * 0);
                lemma_kinds_distinct();
            }
            return;
        },
    };
    let modifiers = extract_modifiers(node);
    let raw = extract_formal_parameters(ctx.source, node);
    let (java_parameters, jvm_parameters) = split_parameters(&raw);
    let owner = Fqn::new(enclosing_fqn(ctx));
    let java_payload = JavaNodePayload::Constructor(
        JavaConstructorNode {
            header: java_header(ctx, name.as_str(), node, copy_modifiers(&modifiers)),
            parameters: java_parameters,
            type_parameters: extract_type_parameters(ctx.source, node),
            throws: Vec::new(),
        },
    );
    let jvm_payload = JvmNodePayload::Constructor(
        JvmConstructorNode {
            header: jvm_header(ctx, name.as_str(), node, modifiers),
            owner,
            parameters: jvm_parameters,
            type_parameters: extract_type_parameters(ctx.source, node),
            throws: Vec::new(),
        },
    );
    let ghost d = decl_spec(
        DeclShape::Constructor,
        *node,
        *node,
        name@,
        before.package@,
        before.frames_spec(),
        type_params_of(before.src(), *node),
    );
    proof {
        assert(pair_ok(NodePayload::Java(java_payload), NodePayload::Jvm(jvm_payload), d, before.src(), before.path@));
    }
    emit_pair(ctx, java_payload, jvm_payload);
    proof {
        lemma_emitted(&before, &*ctx, java_payload, jvm_payload, d);
        lemma_kinds_distinct();
    }
}

/// An enum constant becomes a `public static final` Java enum constant
/// and its JVM projection, both owned by the enclosing enum.
fn extract_enum_constant(ctx: &mut ParseContext, node: &SyntaxNode)
    requires
        node.kind@ == "enum_constant"@,
    ensures
        walked(old(ctx), final(ctx), walk_here(old(ctx), *node, WalkMode::EnumBody)),
{
    let ghost before = *ctx;
    let name = match field(node, "name") {
        Some(n) => node_text(ctx.source, n).to_string(),
        None => {
            proof {
                assert(ctx.plan@.len() == before.plan@.len() + 2 * 0);
                lemma_kinds_distinct();
            }
            return;
        },
    };
    let modifiers = vec![Modifier::Public, Modifier::Static, Modifier::Final];
    let enum_owner = Fqn::new(enclosing_fqn(ctx));
    let java_payload = JavaNodePayload::EnumConstant(
        JavaEnumConstantNode {
            header: java_header(ctx, name.as_str(), node, copy_modifiers(&modifiers)),
            enum_owner: enum_owner.duplicate(),
        },
    );
    let jvm_payload = JvmNodePayload::EnumConstant(
        JvmEnumConstantNode { header: jvm_header(ctx, name.as_str(), node, modifiers), enum_owner },
    );
    let ghost d = decl_spec(
        DeclShape::EnumConstant,
        *node,
        *node,
        name@,
        before.package@,
        before.frames_spec(),
        Seq::empty(),
    );
    proof {
        assert(modifiers@ =~= seq![Modifier::Public, Modifier::Static, Modifier::Final]);
    }
    proof {
        assert(pair_ok(NodePayload::Java(java_payload), NodePayload::Jvm(jvm_payload), d, before.src(), before.path@));
    }
    emit_pair(ctx, java_payload, jvm_payload);
    proof {
        lemma_emitted(&before, &*ctx, java_payload, jvm_payload, d);
    }
}

/// A field declaration becomes one Java field and its JVM projection
/// for each of its declarators (`int a, b;` declares two fields).
fn extract_fields(ctx: &mut ParseContext, node: &SyntaxNode)
    requires
        node.kind@ == "field_declaration"@,
    ensures
        walked(old(ctx), final(ctx), walk_here(old(ctx), *node, WalkMode::Member)),
{
    let ghost before = *ctx;
    let ghost src = before.src();
    let ghost ks = node.children@;
    let modifiers = extract_modifiers(node);
    let field_type = match field(node, "type") {
        Some(t) => parse_type_ref(ctx.source, t).to_core(),
        None => TypeRef::simple("unknown"),
    };
    let owner = enclosing_fqn(ctx);
    let mut i: usize = 0;
    proof {
        assert(ks.subrange(0, ks.len() as int) =~= ks);
        assert(Seq::<DeclSpec>::empty() + field_specs(src, before.package@, before.frames_spec(), *node, ks) =~= field_specs(src, before.package@, before.frames_spec(), *node, ks));
    }
    let ghost mut done: Seq<DeclSpec> = Seq::empty();
    while i < node.children.len()
        invariant
            ks == node.children@,
            i <= ks.len(),
            src == before.src(),
            modifiers@ == modifiers_of(*node),
            field_type@ == field_type_model(src, *node),
            owner@ == join_dots(name_parts(before.package@, before.frames_spec())),
            walked(&before, &*ctx, done),
            done + field_specs(src, before.package@, before.frames_spec(), *node, ks.subrange(i as int, ks.len() as int))
                == field_specs(src, before.package@, before.frames_spec(), *node, ks),
        decreases node.children.len() - i,
    {
        let ghost rest = ks.subrange(i as int, ks.len() as int);
        proof {
            assert(rest[0] == ks[i as int]);
            assert(rest.drop_first() =~= ks.subrange(i + 1, ks.len() as int));
        }
        let child = &node.children[i];
        if str_eq(child.kind.as_str(), "variable_declarator") {
            match field(child, "name") {
                Some(n) => {
                    let name = node_text(ctx.source, n).to_string();
                    let java_payload = JavaNodePayload::Field(
                        JavaFieldNode {
                            header: java_header(ctx, name.as_str(), child, copy_modifiers(&modifiers)),
                            field_type: field_type.duplicate(),
                            constant_value: None,
                            initialized: false,
                        },
                    );
                    let jvm_payload = JvmNodePayload::Field(
                        JvmFieldNode {
                            header: jvm_header(ctx, name.as_str(), child, copy_modifiers(&modifiers)),
                            owner: Fqn::new(owner.as_str()),
                            field_type: field_type.duplicate(),
                            constant_value: None,
                            initialized: false,
                            enrichments: no_enrichments(),
                        },
                    );
                    let ghost d = decl_spec(
                        DeclShape::Field,
                        *child,
                        *node,
                        name@,
                        before.package@,
                        before.frames_spec(),
                        Seq::empty(),
                    );
                    let ghost mid = *ctx;
                    emit_pair(ctx, java_payload, jvm_payload);
                    proof {
                        lemma_emitted(&mid, &*ctx, java_payload, jvm_payload, d);
                        lemma_walked_then(&before, &mid, &*ctx, done, seq![d]);
                        assert(done + seq![d] + field_specs(src, before.package@, before.frames_spec(), *node, ks.subrange(i + 1, ks.len() as int))
                            =~= done + field_specs(src, before.package@, before.frames_spec(), *node, rest));
                        done = done + seq![d];
                    }
                },
                None => {
                    proof {
                        assert(done + field_specs(src, before.package@, before.frames_spec(), *node, ks.subrange(i + 1, ks.len() as int))
                            =~= done + field_specs(src, before.package@, before.frames_spec(), *node, rest));
                    }
                },
            }
        } else {
            proof {
                assert(done + field_specs(src, before.package@, before.frames_spec(), *node, ks.subrange(i + 1, ks.len() as int))
                    =~= done + field_specs(src, before.package@, before.frames_spec(), *node, rest));
            }
        }
        i += 1;
    }
    proof {
        assert(ks.subrange(i as int, ks.len() as int) =~= Seq::<SyntaxNode>::empty());
        assert(done + Seq::<DeclSpec>::empty() =~= done);
        lemma_kinds_distinct();
        assert(walk_here(&before, *node, WalkMode::Member) == field_specs(src, before.package@, before.frames_spec(), *node, ks));
    }
}

/// The first child whose kind ends in `_body`, see [`first_body`].
fn find_body(ks: &Vec<SyntaxNode>) -> (r: Option<&SyntaxNode>)
    ensures
        match r {
            Some(b) => first_body(ks@) == Some(*b),
            None => first_body(ks@) is None,
        },
{
    let ghost s = ks@;
    proof {
        assert(s.subrange(0, s.len() as int) =~= s);
    }
    let mut i: usize = 0;
    while i < ks.len()
        invariant
            s == ks@,
            i <= s.len(),
            first_body(s) == first_body(s.subrange(i as int, s.len() as int)),
        decreases ks.len() - i,
    {
        let ghost rest = s.subrange(i as int, s.len() as int);
        proof {
            assert(rest[0] == s[i as int]);
            assert(rest.drop_first() =~= s.subrange(i + 1, s.len() as int));
        }
        if ends_with(ks[i].kind.as_str(), "_body") {
            return Some(&ks[i]);
        }
        i += 1;
    }
    None
}

/// The body of a class-like declaration, see [`class_body`].
fn find_class_body(node: &SyntaxNode) -> (r: Option<&SyntaxNode>)
    ensures
        match r {
            Some(b) => class_body(*node) == Some(*b),
            None => class_body(*node) is None,
        },
{
    match field(node, "body") {
        Some(b) => Some(b),
        None => find_body(&node.children),
    }
}

/// The Java type kind of a class-like declaration kind, see
/// [`class_like_kind`].
fn class_like_kind_of(k: &str) -> (r: Option<JavaTypeKind>)
    ensures
        r == class_like_kind(k@),
{
    if str_eq(k, "class_declaration") {
        Some(JavaTypeKind::Class)
    } else if str_eq(k, "interface_declaration") {
        Some(JavaTypeKind::Interface)
    } else if str_eq(k, "record_declaration") {
        Some(JavaTypeKind::Record)
    } else if str_eq(k, "annotation_type_declaration") {
        Some(JavaTypeKind::Annotation)
    } else {
        None
    }
}

fn jvm_kind(k: JavaTypeKind) -> (r: JvmTypeKind)
    ensures
        r == jvm_kind_of(k),
{
    match k {
        JavaTypeKind::Class => JvmTypeKind::Class,
        JavaTypeKind::Interface => JvmTypeKind::Interface,
        JavaTypeKind::Enum => JvmTypeKind::Enum,
        JavaTypeKind::Record => JvmTypeKind::Record,
        JavaTypeKind::Annotation => JvmTypeKind::Annotation,
    }
}

/// A walk inside a pushed frame, once the frame is popped again, is a walk
/// from where the frame was pushed.
proof fn lemma_walked_in_frame(outer: &ParseContext, inner_start: &ParseContext, inner_end: &ParseContext, after: &ParseContext, ds: Seq<DeclSpec>)
    requires
        walked(inner_start, inner_end, ds),
        inner_start.plan@ == outer.plan@,
        inner_start.source == outer.source,
        inner_start.path == outer.path,
        inner_start.package == outer.package,
        after.plan@ == inner_end.plan@,
        after.source == outer.source,
        after.path == outer.path,
        after.package == outer.package,
        after.frames@ == outer.frames@,
    ensures
        walked(outer, after, ds),
{
}

/// A class, interface, record or annotation type becomes a Java type and
/// its JVM projection; its body members are walked inside it.
fn extract_class_like(ctx: &mut ParseContext, node: &SyntaxNode, java_kind: JavaTypeKind)
    requires
        class_like_kind(node.kind@) == Some(java_kind),
    ensures
        walked(old(ctx), final(ctx), walk_here(old(ctx), *node, WalkMode::Top)),
    decreases size(*node), 0nat,
{
    let ghost before = *ctx;
    proof {
        lemma_kinds_distinct();
    }
    let name = match field(node, "name") {
        Some(n) => node_text(ctx.source, n).to_string(),
        None => {
            proof {
                assert(ctx.plan@.len() == before.plan@.len() + 2 * 0);
            }
            return;
        },
    };
    let modifiers = extract_modifiers(node);
    let java_payload = JavaNodePayload::Type(
        JavaTypeNode {
            header: java_header(ctx, name.as_str(), node, copy_modifiers(&modifiers)),
            kind: java_kind,
            type_parameters: extract_type_parameters(ctx.source, node),
            record_components: Vec::new(),
        },
    );
    let jvm_payload = JvmNodePayload::Type(
        JvmTypeNode {
            header: jvm_header(ctx, name.as_str(), node, modifiers),
            kind: jvm_kind(java_kind),
            type_parameters: extract_type_parameters(ctx.source, node),
            record_components: Vec::new(),
            enrichments: no_enrichments(),
        },
    );
    let ghost d = decl_spec(
        DeclShape::Type(java_kind),
        *node,
        *node,
        name@,
        before.package@,
        before.frames_spec(),
        type_params_of(before.src(), *node),
    );
    proof {
        assert(pair_ok(NodePayload::Java(java_payload), NodePayload::Jvm(jvm_payload), d, before.src(), before.path@));
    }
    let java_idx = emit_pair(ctx, java_payload, jvm_payload);
    proof {
        lemma_emitted(&before, &*ctx, java_payload, jvm_payload, d);
    }
    let ghost emitted = *ctx;
    let ghost name_view = name@;
    ctx.frames.push(EnclosingFrame { java_idx, name });
    proof {
        assert(ctx.frames_spec() =~= before.frames_spec().push((java_idx as nat, name_view)));
    }
    let ghost inner_start = *ctx;
    let ghost inner: Seq<DeclSpec> = Seq::empty();
    match find_class_body(node) {
        Some(body) => {
            proof {
                lemma_class_body_smaller(*node);
                lemma_child_size_bound(*body);
            }
            extract_all(ctx, &body.children, WalkMode::Member);
            proof {
                inner = walk_list(before.src(), before.package@, inner_start.frames_spec(), inner_start.plan@.len() as nat, body.children@, WalkMode::Member);
            }
        },
        None => {},
    }
    let ghost inner_end = *ctx;
    ctx.frames.pop();
    proof {
        assert(ctx.frames@ =~= before.frames@);
        lemma_walked_in_frame(&emitted, &inner_start, &inner_end, &*ctx, inner);
        lemma_walked_then(&before, &emitted, &*ctx, seq![d], inner);
    }
}

/// An enum becomes a Java enum type and its JVM projection; its constants
/// and body declarations are walked inside it.
fn extract_enum(ctx: &mut ParseContext, node: &SyntaxNode)
    requires
        node.kind@ == "enum_declaration"@,
    ensures
        walked(old(ctx), final(ctx), walk_here(old(ctx), *node, WalkMode::Top)),
    decreases size(*node), 0nat,
{
    let ghost before = *ctx;
    proof {
        lemma_kinds_distinct();
    }
    let name = match field(node, "name") {
        Some(n) => node_text(ctx.source, n).to_string(),
        None => {
            proof {
                assert(ctx.plan@.len() == before.plan@.len() + 2 * 0);
            }
            return;
        },
    };
    let modifiers = extract_modifiers(node);
    let java_payload = JavaNodePayload::Type(
        JavaTypeNode {
            header: java_header(ctx, name.as_str(), node, copy_modifiers(&modifiers)),
            kind: JavaTypeKind::Enum,
            type_parameters: Vec::new(),
            record_components: Vec::new(),
        },
    );
    let jvm_payload = JvmNodePayload::Type(
        JvmTypeNode {
            header: jvm_header(ctx, name.as_str(), node, modifiers),
            kind: JvmTypeKind::Enum,
            type_parameters: Vec::new(),
            record_components: Vec::new(),
            enrichments: no_enrichments(),
        },
    );
    let ghost d = decl_spec(
        DeclShape::Type(JavaTypeKind::Enum),
        *node,
        *node,
        name@,
        before.package@,
        before.frames_spec(),
        Seq::empty(),
    );
    proof {
        assert(pair_ok(NodePayload::Java(java_payload), NodePayload::Jvm(jvm_payload), d, before.src(), before.path@));
    }
    let java_idx = emit_pair(ctx, java_payload, jvm_payload);
    proof {
        lemma_emitted(&before, &*ctx, java_payload, jvm_payload, d);
    }
    let ghost emitted = *ctx;
    let ghost name_view = name@;
    ctx.frames.push(EnclosingFrame { java_idx, name });
    proof {
        assert(ctx.frames_spec() =~= before.frames_spec().push((java_idx as nat, name_view)));
    }
    let ghost inner_start = *ctx;
    let ghost inner: Seq<DeclSpec> = Seq::empty();
    match field(node, "body") {
        Some(body) => {
            proof {
                lemma_field_smaller(*node, "body"@);
                lemma_child_size_bound(*body);
            }
            extract_all(ctx, &body.children, WalkMode::EnumBody);
            proof {
                inner = walk_list(before.src(), before.package@, inner_start.frames_spec(), inner_start.plan@.len() as nat, body.children@, WalkMode::EnumBody);
            }
        },
        None => {},
    }
    let ghost inner_end = *ctx;
    ctx.frames.pop();
    proof {
        assert(ctx.frames@ =~= before.frames@);
        lemma_walked_in_frame(&emitted, &inner_start, &inner_end, &*ctx, inner);
        lemma_walked_then(&before, &emitted, &*ctx, seq![d], inner);
    }
}

/// Walk a top-level node: class-like declarations and enums.
fn extract_symbol(ctx: &mut ParseContext, node: &SyntaxNode)
    ensures
        walked(old(ctx), final(ctx), walk_here(old(ctx), *node, WalkMode::Top)),
    decreases size(*node), 1nat,
{
    let ghost before = *ctx;
    proof {
        lemma_kinds_distinct();
    }
    match class_like_kind_of(node.kind.as_str()) {
        Some(k) => extract_class_like(ctx, node, k),
        None => {
            if str_eq(node.kind.as_str(), "enum_declaration") {
                extract_enum(ctx, node);
            } else {
                proof {
                    assert(ctx.plan@.len() == before.plan@.len() + 2 * 0);
                }
            }
        },
    }
}

/// Walk a member of a class-like body: methods, constructors, fields and
/// nested types.
fn extract_body_member(ctx: &mut ParseContext, node: &SyntaxNode)
    ensures
        walked(old(ctx), final(ctx), walk_here(old(ctx), *node, WalkMode::Member)),
    decreases size(*node), 1nat,
{
    let ghost before = *ctx;
    proof {
        lemma_kinds_distinct();
    }
    let k = node.kind.as_str();
    if str_eq(k, "method_declaration") {
        extract_method(ctx, node);
    } else if str_eq(k, "constructor_declaration") {
        extract_constructor(ctx, node);
    } else if str_eq(k, "field_declaration") {
        extract_fields(ctx, node);
    } else {
        match class_like_kind_of(k) {
            Some(jk) => extract_class_like(ctx, node, jk),
            None => {
                if str_eq(k, "enum_declaration") {
                    extract_enum(ctx, node);
                } else {
                    proof {
                        assert(ctx.plan@.len() == before.plan@.len() + 2 * 0);
                    }
                }
            },
        }
    }
}

/// Walk an entry of an enum body: a constant, the body declarations, or
/// a member.
fn extract_enum_entry(ctx: &mut ParseContext, node: &SyntaxNode)
    ensures
        walked(old(ctx), final(ctx), walk_here(old(ctx), *node, WalkMode::EnumBody)),
    decreases size(*node), 2nat,
{
    proof {
        lemma_kinds_distinct();
    }
    let k = node.kind.as_str();
    if str_eq(k, "enum_constant") {
        extract_enum_constant(ctx, node);
    } else if str_eq(k, "enum_body_declarations") {
        proof {
            lemma_child_size_bound(*node);
        }
        extract_all(ctx, &node.children, WalkMode::Member);
    } else {
        extract_body_member(ctx, node);
    }
}

/// Walk every node of `ks` in order.
fn extract_all(ctx: &mut ParseContext, ks: &Vec<SyntaxNode>, mode: WalkMode)
    ensures
        walked(old(ctx), final(ctx), walk_list(old(ctx).src(), old(ctx).package@, old(ctx).frames_spec(), old(ctx).plan@.len() as nat, ks@, mode)),
    decreases kids_size(ks@), 3nat,
{
    let ghost before = *ctx;
    let ghost s = ks@;
    let ghost src = before.src();
    let ghost pkg = before.package@;
    let ghost fs = before.frames_spec();
    let ghost mut done: Seq<DeclSpec> = Seq::empty();
    proof {
        assert(s.subrange(0, s.len() as int) =~= s);
        assert(done + walk_list(src, pkg, fs, before.plan@.len() as nat, s, mode) =~= walk_list(src, pkg, fs, before.plan@.len() as nat, s, mode));
    }
    let mut i: usize = 0;
    while i < ks.len()
        invariant
            s == ks@,
            i <= s.len(),
            src == before.src(),
            pkg == before.package@,
            fs == before.frames_spec(),
            walked(&before, &*ctx, done),
            ctx.plan@.len() == before.plan@.len() + 2 * done.len(),
            done + walk_list(src, pkg, fs, ctx.plan@.len() as nat, s.subrange(i as int, s.len() as int), mode)
                == walk_list(src, pkg, fs, before.plan@.len() as nat, s, mode),
        decreases ks.len() - i,
    {
        let ghost rest = s.subrange(i as int, s.len() as int);
        proof {
            assert(rest[0] == s[i as int]);
            assert(rest.drop_first() =~= s.subrange(i + 1, s.len() as int));
            lemma_kids_size(s, i as int);
        }
        let ghost mid = *ctx;
        match mode {
            WalkMode::Top => extract_symbol(ctx, &ks[i]),
            WalkMode::Member => extract_body_member(ctx, &ks[i]),
            WalkMode::EnumBody => extract_enum_entry(ctx, &ks[i]),
        }
        proof {
            let a = walk_node(src, pkg, fs, mid.plan@.len() as nat, s[i as int], mode);
            lemma_walked_then(&before, &mid, &*ctx, done, a);
            assert(done + a + walk_list(src, pkg, fs, ctx.plan@.len() as nat, s.subrange(i + 1, s.len() as int), mode)
                =~= done + walk_list(src, pkg, fs, mid.plan@.len() as nat, rest, mode));
            done = done + a;
        }
        i += 1;
    }
    proof {
        assert(s.subrange(i as int, s.len() as int) =~= Seq::<SyntaxNode>::empty());
        assert(done + Seq::<DeclSpec>::empty() =~= done);
    }
}

/// The package name a package declaration names: the text of its first
/// scoped identifier or identifier child.
pub open spec fn package_name_in(src: Seq<u8>, ks: Seq<SyntaxNode>) -> Seq<char>
    decreases ks.len(),
{
    if ks.len() == 0 {
        Seq::empty()
    } else if ks[0].kind@ == "scoped_identifier"@ || ks[0].kind@ == "identifier"@ {
        text_of(src, ks[0])
    } else {
        package_name_in(src, ks.drop_first())
    }
}

/// The package of a file: what its last package declaration among `ks`
/// names, `current` when there is none.
pub open spec fn package_scan(src: Seq<u8>, ks: Seq<SyntaxNode>, current: Seq<char>) -> Seq<char>
    decreases ks.len(),
{
    if ks.len() == 0 {
        current
    } else {
        package_scan(
            src,
            ks.drop_first(),
            if ks[0].kind@ == "package_declaration"@ {
                package_name_in(src, ks[0].children@)
            } else {
                current
            },
        )
    }
}

/// One parsed Java file: its path, package, imports, and the plan of
/// (Java, JVM) payload pairs, parents before children.
#[derive(Debug)]
pub struct ParsedJavaFile {
    pub path: String,
    pub package: String,
    pub imports: Vec<Import>,
    plan: Vec<PendingNode>,
}

impl ParsedJavaFile {
    pub closed spec fn plan_spec(&self) -> Seq<PendingNode> {
        self.plan@
    }

    pub closed spec fn path_spec(&self) -> Seq<char> {
        self.path@
    }

    pub closed spec fn package_spec(&self) -> Seq<char> {
        self.package@
    }

    pub closed spec fn imports_spec(&self) -> Seq<Import> {
        self.imports@
    }

    /// The integration plan.
    pub fn plan(&self) -> (r: &[PendingNode])
        ensures
            r@ == self.plan_spec(),
    {
        self.plan.as_slice()
    }
}

/// `r` is the file planned from the syntax tree `root` of `source`.
pub open spec fn planned_from(r: ParsedJavaFile, path: Seq<char>, source: &str, root: SyntaxNode) -> bool {
    let src = source.spec_bytes();
    &&& r.path_spec() == path
    &&& r.package_spec() == package_scan(src, root.children@, Seq::empty())
    &&& import_views(r.imports_spec()) == imports_of(lines_of(source@, '\n', '\r'))
    &&& plan_has(
        r.plan_spec(),
        0,
        walk_list(src, r.package_spec(), Seq::empty(), 0, root.children@, WalkMode::Top),
        src,
        path,
    )
}

fn package_name(source: &str, node: &SyntaxNode) -> (r: String)
    ensures
        r@ == package_name_in(source.spec_bytes(), node.children@),
{
    let ghost s = node.children@;
    proof {
        assert(s.subrange(0, s.len() as int) =~= s);
    }
    let mut i: usize = 0;
    while i < node.children.len()
        invariant
            s == node.children@,
            i <= s.len(),
            package_name_in(source.spec_bytes(), s) == package_name_in(source.spec_bytes(), s.subrange(i as int, s.len() as int)),
        decreases node.children.len() - i,
    {
        let ghost rest = s.subrange(i as int, s.len() as int);
        proof {
            assert(rest[0] == s[i as int]);
            assert(rest.drop_first() =~= s.subrange(i + 1, s.len() as int));
        }
        let k = node.children[i].kind.as_str();
        if str_eq(k, "scoped_identifier") || str_eq(k, "identifier") {
            return node_text(source, &node.children[i]).to_string();
        }
        i += 1;
    }
    proof {
        reveal_strlit("");
    }
    String::new()
}

/// Plan a Java file from its syntax tree: the package is read first, so
/// every FQN is built with it, then each top-level declaration is walked
/// in order; the imports are read from the source lines.
pub fn plan_syntax(path: &str, source: &str, root: &SyntaxNode) -> (r: ParsedJavaFile)
    ensures
        planned_from(r, path@, source, *root),
{
    let ghost src = source.spec_bytes();
    let ghost ks = root.children@;
    let mut package = String::new();
    proof {
        reveal_strlit("");
        assert(ks.subrange(0, ks.len() as int) =~= ks);
    }
    let mut i: usize = 0;
    while i < root.children.len()
        invariant
            ks == root.children@,
            src == source.spec_bytes(),
            i <= ks.len(),
            package_scan(src, ks, Seq::empty()) == package_scan(src, ks.subrange(i as int, ks.len() as int), package@),
        decreases root.children.len() - i,
    {
        let ghost rest = ks.subrange(i as int, ks.len() as int);
        proof {
            assert(rest[0] == ks[i as int]);
            assert(rest.drop_first() =~= ks.subrange(i + 1, ks.len() as int));
        }
        if str_eq(root.children[i].kind.as_str(), "package_declaration") {
            package = package_name(source, &root.children[i]);
        }
        i += 1;
    }
    proof {
        assert(ks.subrange(i as int, ks.len() as int) =~= Seq::<SyntaxNode>::empty());
    }
    let mut ctx = ParseContext {
        source,
        path,
        plan: Vec::new(),
        package,
        frames: Vec::new(),
    };
    proof {
        assert(ctx.frames_spec() =~= Seq::<(nat, Seq<char>)>::empty());
    }
    extract_all(&mut ctx, &root.children, WalkMode::Top);
    let imports = extract_imports(source);
    ParsedJavaFile { path: path.to_string(), package: ctx.package, imports, plan: ctx.plan }
}

/// Parse a Java source file with tree-sitter and plan it: the plan of
/// (see [`plan_syntax`]) the copy of the Java tree of the source bytes.
pub fn parse_java_to_graph(path: &str, source: &str) -> (r: ParsedJavaFile)
    ensures
        r.path_spec() == path@,
        exists|root: SyntaxNode|
            copied_from(root, source.spec_bytes(), Seq::empty(), usize::MAX as nat) && well_copied(root)
                && planned_from(r, path@, source, root),
{
    match crate::languages::java::tree::parse_syntax(source) {
        Some(root) => plan_syntax(path, source, &root),
        None => {
            proof {
                assert(false);
            }
            ParsedJavaFile { path: path.to_string(), package: String::new(), imports: Vec::new(), plan: Vec::new() }
        },
    }
}

/// The parent a plan entry gets on integration: the node of the entry its
/// parent index names, when that entry came earlier.
pub open spec fn integrated_parent(plan: Seq<PendingNode>, ids: Seq<NodeId>, i: int) -> Option<NodeId> {
    match plan[i].parent_spec() {
        Some(p) => if p < i {
            Some(ids[p as int])
        } else {
            None
        },
        None => None,
    }
}

/// Where each plan entry's node is filed, entry for entry.
pub open spec fn plan_slots(plan: Seq<PendingNode>) -> Seq<Option<KeySlot>> {
    plan.map_values(|p: PendingNode| slot_of(p.payload_spec()))
}

/// Insert every plan entry into `graph`, in plan order and under the
/// node of its parent entry, then file each new node in `registries`
/// where its payload belongs. Returns the new node ids in plan order and
/// the registrations made, for the caller to release when the nodes go.
pub fn integrate(
    graph: &mut Graph<NodePayload>,
    registries: &mut Registries,
    parsed: ParsedJavaFile,
) -> (r: (Vec<NodeId>, Vec<Registration>))
    requires
        old(graph).wf(),
        old(registries).wf(),
        old(graph).generations().len() + parsed.plan_spec().len() < u32::MAX,
    ensures
        final(graph).wf(),
        final(registries).wf(),
        r.0@.len() == parsed.plan_spec().len(),
        forall|i: int|
            0 <= i < r.0@.len() ==> {
                &&& !old(graph).nodes().contains_key(#[trigger] r.0@[i])
                &&& final(graph).nodes().contains_key(r.0@[i])
                &&& final(graph).nodes()[r.0@[i]].payload == parsed.plan_spec()[i].payload_spec()
                &&& final(graph).nodes()[r.0@[i]].parent == integrated_parent(parsed.plan_spec(), r.0@, i)
            },
        forall|id: NodeId| #[trigger] old(graph).nodes().contains_key(id) ==> final(graph).nodes().contains_key(id),
        forall|id: NodeId|
            #[trigger] old(graph).nodes().contains_key(id) ==> final(graph).nodes()[id].payload == old(
                graph,
            ).nodes()[id].payload && final(graph).nodes()[id].parent == old(graph).nodes()[id].parent,
        forall|j: int|
            0 <= j < r.1@.len() ==> exists|i: int|
                0 <= i < r.0@.len() && (#[trigger] r.1@[j]).node() == r.0@[i] && Some(r.1@[j].slot())
                    == slot_of(parsed.plan_spec()[i].payload_spec()),
        filed_all(*old(registries), *final(registries), plan_slots(parsed.plan_spec()), r.0@, r.0@.len() as nat),
{
    let ghost plan = parsed.plan_spec();
    let ghost slots = plan_slots(plan);
    let ghost start = graph.nodes();
    let ParsedJavaFile { path: _, package: _, imports: _, plan: entries } = parsed;
    let mut inserted: Vec<NodeId> = Vec::new();
    for pending in it: entries.into_iter()
        invariant
            it.seq() == plan,
            graph.wf(),
            graph.generations().len() <= old(graph).generations().len() + it.index(),
            old(graph).generations().len() + plan.len() < u32::MAX,
            inserted@.len() == it.index(),
            forall|id: NodeId| #[trigger] start.contains_key(id) ==> graph.nodes().contains_key(id),
            forall|id: NodeId|
                #[trigger] start.contains_key(id) ==> graph.nodes()[id].payload == start[id].payload
                    && graph.nodes()[id].parent == start[id].parent,
            forall|i: int| 0 <= i < inserted@.len() ==> {
                &&& !start.contains_key(#[trigger] inserted@[i])
                &&& graph.nodes().contains_key(inserted@[i])
                &&& graph.nodes()[inserted@[i]].payload == plan[i].payload_spec()
                &&& graph.nodes()[inserted@[i]].parent == integrated_parent(plan, inserted@, i)
            },
    {
        let ghost k = inserted@.len() as int;
        proof {
            assert(pending == plan[k]);
        }
        let PendingNode { payload, parent: local } = pending;
        let parent = match local {
            Some(p) => if p < inserted.len() {
                Some(inserted[p])
            } else {
                None
            },
            None => None,
        };
        let id = graph.insert(payload, parent);
        let ghost prev = inserted@;
        inserted.push(id);
        proof {
            assert forall|i: int| 0 <= i < k + 1 implies {
                &&& !start.contains_key(#[trigger] inserted@[i])
                &&& graph.nodes().contains_key(inserted@[i])
                &&& graph.nodes()[inserted@[i]].payload == plan[i].payload_spec()
                &&& graph.nodes()[inserted@[i]].parent == integrated_parent(plan, inserted@, i)
            } by {
                if i < k {
                    assert(inserted@[i] == prev[i]);
                    assert(inserted@[i] != id);
                }
                if let Some(p) = plan[i].parent_spec() {
                    if p < i {
                        assert(inserted@[p as int] == prev[p as int]);
                    }
                }
            }
        }
    }
    let mut handles: Vec<Registration> = Vec::new();
    let mut j: usize = 0;
    let ghost start_registries = *registries;
    proof {
        lemma_filed_all_none(start_registries, slots, inserted@);
    }
    while j < inserted.len()
        invariant
            j <= inserted@.len(),
            slots == plan_slots(plan),
            filed_all(start_registries, *registries, slots, inserted@, j as nat),
            inserted@.len() == plan.len(),
            registries.wf(),
            graph.wf(),
            forall|i: int| 0 <= i < inserted@.len() ==> {
                &&& !start.contains_key(#[trigger] inserted@[i])
                &&& graph.nodes().contains_key(inserted@[i])
                &&& graph.nodes()[inserted@[i]].payload == plan[i].payload_spec()
                &&& graph.nodes()[inserted@[i]].parent == integrated_parent(plan, inserted@, i)
            },
            forall|id: NodeId| #[trigger] start.contains_key(id) ==> graph.nodes().contains_key(id),
            forall|id: NodeId|
                #[trigger] start.contains_key(id) ==> graph.nodes()[id].payload == start[id].payload
                    && graph.nodes()[id].parent == start[id].parent,
            forall|h: int|
                0 <= h < handles@.len() ==> exists|i: int|
                    0 <= i < inserted@.len() && (#[trigger] handles@[h]).node() == inserted@[i]
                        && Some(handles@[h].slot()) == slot_of(plan[i].payload_spec()),
        decreases inserted.len() - j,
    {
        let id = inserted[j];
        match graph.get(id) {
            Some(node) => {
                let ghost mid = *registries;
                let mut made = node.payload.on_created(id, registries);
                let ghost before = handles@;
                let ghost added = made@;
                proof {
                    assert(node.payload == plan[j as int].payload_spec());
                    assert(slots[j as int] == slot_of(node.payload));
                    lemma_filed_all_step(start_registries, mid, *registries, slots, inserted@, j as nat);
                }
                handles.append(&mut made);
                proof {
                    assert forall|h: int|
                        0 <= h < handles@.len() implies exists|i: int|
                            0 <= i < inserted@.len() && (#[trigger] handles@[h]).node() == inserted@[i]
                                && Some(handles@[h].slot()) == slot_of(plan[i].payload_spec()) by {
                        if h < before.len() {
                            assert(handles@[h] == before[h]);
                        } else {
                            assert(handles@[h] == added[h - before.len()]);
                            assert(handles@[h].node() == inserted@[j as int]);
                        }
                    }
                }
            },
            None => {
                proof {
                    assert(graph.nodes().contains_key(inserted@[j as int]));
                }
            },
        }
        j += 1;
    }
    (inserted, handles)
}

impl crate::integration::IntegrationJob<NodePayload> for ParsedJavaFile {
    open spec fn node_count(&self) -> nat {
        self.plan_spec().len()
    }

    fn path(&self) -> (r: &str)
        ensures
            r@ == self.path_spec(),
    {
        self.path.as_str()
    }

    fn integrate(self, graph: &mut Graph<NodePayload>, ctx: &mut Registries, interner: &crate::interner::Interner) -> (r: (
        Vec<NodeId>,
        Vec<Registration>,
    )) {
        integrate(graph, ctx, self)
    }
}

} // verus!
