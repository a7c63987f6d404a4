//! The Java-local type shape the source walker produces, its printed
//! form, and its conversion to the canonical JVM-level [`CoreTypeRef`].
use vstd::prelude::*;

use crate::type_ref::{
    arg_separator, joined_text, models_of, primitive_name, primitive_named, type_text, BoundModel, PrimitiveKind, TypeModel, TypeRef as CoreTypeRef,
};

verus! {

/// A type as written in Java source.
#[derive(Debug, PartialEq)]
pub enum TypeRef {
    Simple(String),
    Qualified(String),
    Parameterized(String, Vec<TypeRef>),
    Array(Box<TypeRef>),
    Primitive(String),
    Void,
    Wildcard,
}

/// The mathematical value of a Java-local [`TypeRef`].
pub enum JavaTypeModel {
    Simple(Seq<char>),
    Qualified(Seq<char>),
    Parameterized(Seq<char>, Seq<JavaTypeModel>),
    Array(Box<JavaTypeModel>),
    Primitive(Seq<char>),
    Void,
    Wildcard,
}

pub open spec fn java_model_of(t: TypeRef) -> JavaTypeModel
    decreases t,
{
    match t {
        TypeRef::Simple(s) => JavaTypeModel::Simple(s@),
        TypeRef::Qualified(s) => JavaTypeModel::Qualified(s@),
        TypeRef::Parameterized(n, args) => JavaTypeModel::Parameterized(n@, java_models_of(args@)),
        TypeRef::Array(inner) => JavaTypeModel::Array(Box::new(java_model_of(*inner))),
        TypeRef::Primitive(s) => JavaTypeModel::Primitive(s@),
        TypeRef::Void => JavaTypeModel::Void,
        TypeRef::Wildcard => JavaTypeModel::Wildcard,
    }
}

pub open spec fn java_models_of(ts: Seq<TypeRef>) -> Seq<JavaTypeModel>
    decreases ts,
{
    if ts.len() == 0 {
        Seq::empty()
    } else {
        java_models_of(ts.drop_last()).push(java_model_of(ts.last()))
    }
}

impl View for TypeRef {
    type V = JavaTypeModel;

    open spec fn view(&self) -> JavaTypeModel {
        java_model_of(*self)
    }
}

proof fn lemma_java_models_of(ts: Seq<TypeRef>)
    ensures
        java_models_of(ts).len() == ts.len(),
        forall|i: int| 0 <= i < ts.len() ==> #[trigger] java_models_of(ts)[i] == java_model_of(ts[i]),
    decreases ts.len(),
{
    if ts.len() > 0 {
        lemma_java_models_of(ts.drop_last());
        assert forall|i: int| 0 <= i < ts.len() implies #[trigger] java_models_of(ts)[i]
            == java_model_of(ts[i]) by {
            if i < ts.len() - 1 {
                assert(ts.drop_last()[i] == ts[i]);
            }
        }
    }
}

/// The models of a concatenation are the concatenated models.
pub proof fn lemma_java_models_append(a: Seq<TypeRef>, b: Seq<TypeRef>)
    ensures
        java_models_of(a + b) == java_models_of(a) + java_models_of(b),
    decreases b.len(),
{
    if b.len() == 0 {
        assert(a + b =~= a);
        assert(java_models_of(a) + java_models_of(b) =~= java_models_of(a));
    } else {
        lemma_java_models_append(a, b.drop_last());
        assert((a + b).drop_last() =~= a + b.drop_last());
        assert((a + b).last() == b.last());
        assert(java_models_of(a) + java_models_of(b) =~= (java_models_of(a) + java_models_of(
            b.drop_last(),
        )).push(java_model_of(b.last())));
    }
}

/// The printed form: names as written, `Name<A, B>`, `T[]`, `void`, `?`.
pub open spec fn java_text(m: JavaTypeModel) -> Seq<char>
    decreases m,
{
    match m {
        JavaTypeModel::Simple(s) => s,
        JavaTypeModel::Qualified(s) => s,
        JavaTypeModel::Primitive(s) => s,
        JavaTypeModel::Parameterized(n, args) => n + "<"@ + java_joined(args) + ">"@,
        JavaTypeModel::Array(inner) => java_text(*inner) + "[]"@,
        JavaTypeModel::Void => "void"@,
        JavaTypeModel::Wildcard => "?"@,
    }
}

/// The printed forms of `ms`, separated by `", "`.
pub open spec fn java_joined(ms: Seq<JavaTypeModel>) -> Seq<char>
    decreases ms,
{
    if ms.len() == 0 {
        Seq::empty()
    } else if ms.len() == 1 {
        java_text(ms[0])
    } else {
        java_joined(ms.drop_last()) + arg_separator() + java_text(ms.last())
    }
}

/// The canonical type of a Java-local one: a primitive keyword becomes
/// its primitive (an unknown keyword a named type), names and qualified
/// names become named types, the raw name of a parameterized type a named
/// raw type, a wildcard an unbounded wildcard.
pub open spec fn core_of(m: JavaTypeModel) -> TypeModel
    decreases m,
{
    match m {
        JavaTypeModel::Void => TypeModel::Void,
        JavaTypeModel::Primitive(s) => match primitive_named(s) {
            Some(pk) => TypeModel::Primitive(pk),
            None => TypeModel::Simple(s),
        },
        JavaTypeModel::Simple(s) => TypeModel::Simple(s),
        JavaTypeModel::Qualified(s) => TypeModel::Simple(s),
        JavaTypeModel::Parameterized(n, args) => TypeModel::Parameterized(
            Box::new(TypeModel::Simple(n)),
            cores_of(args),
        ),
        JavaTypeModel::Array(inner) => TypeModel::Array(Box::new(core_of(*inner))),
        JavaTypeModel::Wildcard => TypeModel::Wildcard(BoundModel::Unbounded),
    }
}

pub open spec fn cores_of(ms: Seq<JavaTypeModel>) -> Seq<TypeModel>
    decreases ms,
{
    if ms.len() == 0 {
        Seq::empty()
    } else {
        cores_of(ms.drop_last()).push(core_of(ms.last()))
    }
}

impl TypeRef {
    /// The printed form, see [`java_text`].
    pub fn to_string_repr(&self) -> (s: String)
        ensures
            s@ == java_text(self@),
        decreases self,
    {
        match self {
            TypeRef::Simple(s) => String::from_str(s.as_str()),
            TypeRef::Qualified(s) => String::from_str(s.as_str()),
            TypeRef::Primitive(s) => String::from_str(s.as_str()),
            TypeRef::Parameterized(name, args) => {
                let mut s = String::from_str(name.as_str());
                s.append("<");
                let j = join_reprs(args);
                s.append(j.as_str());
                s.append(">");
                s
            },
            TypeRef::Array(inner) => {
                let mut s = inner.to_string_repr();
                s.append("[]");
                s
            },
            TypeRef::Void => String::from_str("void"),
            TypeRef::Wildcard => String::from_str("?"),
        }
    }

    /// The canonical JVM-level type, see [`core_of`].
    pub fn to_core(&self) -> (r: CoreTypeRef)
        ensures
            r@ == core_of(self@),
        decreases self,
    {
        match self {
            TypeRef::Void => CoreTypeRef::Void,
            TypeRef::Primitive(s) => match PrimitiveKind::from_str(s.as_str()) {
                Some(pk) => CoreTypeRef::Primitive(pk),
                None => CoreTypeRef::simple(s.as_str()),
            },
            TypeRef::Simple(s) => CoreTypeRef::simple(s.as_str()),
            TypeRef::Qualified(s) => CoreTypeRef::simple(s.as_str()),
            TypeRef::Parameterized(name, args) => {
                let raw = CoreTypeRef::simple(name.as_str());
                let a = cores_each(args);
                CoreTypeRef::parameterized(raw, a)
            },
            TypeRef::Array(inner) => CoreTypeRef::array(inner.to_core()),
            TypeRef::Wildcard => CoreTypeRef::Wildcard { bound: None },
        }
    }
}

proof fn lemma_java_joined_step(ms: Seq<JavaTypeModel>, i: int)
    requires
        0 <= i < ms.len(),
    ensures
        java_joined(ms.take(i + 1)) == java_joined(ms.take(i)) + (if i > 0 {
            arg_separator()
        } else {
            Seq::<char>::empty()
        }) + java_text(ms[i]),
{
    assert(ms.take(i + 1).drop_last() =~= ms.take(i));
    if i == 0 {
        assert(java_joined(ms.take(0)) =~= Seq::<char>::empty());
        assert(Seq::<char>::empty() + Seq::<char>::empty() + java_text(ms[0]) =~= java_text(ms[0]));
    }
}

fn join_reprs(ts: &Vec<TypeRef>) -> (s: String)
    ensures
        s@ == java_joined(java_models_of(ts@)),
    decreases ts@,
{
    let mut s = String::new();
    let mut i: usize = 0;
    proof {
        lemma_java_models_of(ts@);
    }
    while i < ts.len()
        invariant
            i <= ts.len(),
            java_models_of(ts@).len() == ts@.len(),
            forall|j: int|
                0 <= j < ts@.len() ==> #[trigger] java_models_of(ts@)[j] == java_model_of(ts@[j]),
            s@ == java_joined(java_models_of(ts@).take(i as int)),
        decreases ts.len() - i,
    {
        proof {
            assert(decreases_to!(ts@ => ts@[i as int]));
            lemma_java_joined_step(java_models_of(ts@), i as int);
        }
        if i > 0 {
            s.append(", ");
        }
        let t = ts[i].to_string_repr();
        s.append(t.as_str());
        proof {
            if i == 0 {
                assert(s@ =~= Seq::<char>::empty() + Seq::<char>::empty() + t@);
            }
        }
        i += 1;
    }
    proof {
        assert(java_models_of(ts@).take(ts@.len() as int) =~= java_models_of(ts@));
    }
    s
}

fn cores_each(ts: &Vec<TypeRef>) -> (r: Vec<CoreTypeRef>)
    ensures
        models_of(r@) == cores_of(java_models_of(ts@)),
    decreases ts@,
{
    let mut r: Vec<CoreTypeRef> = Vec::new();
    let mut i: usize = 0;
    proof {
        lemma_java_models_of(ts@);
    }
    while i < ts.len()
        invariant
            i <= ts.len(),
            java_models_of(ts@).len() == ts@.len(),
            forall|j: int|
                0 <= j < ts@.len() ==> #[trigger] java_models_of(ts@)[j] == java_model_of(ts@[j]),
            models_of(r@) == cores_of(java_models_of(ts@).take(i as int)),
        decreases ts.len() - i,
    {
        proof {
            assert(decreases_to!(ts@ => ts@[i as int]));
        }
        let c = ts[i].to_core();
        let ghost before = r@;
        r.push(c);
        proof {
            assert(r@.drop_last() =~= before);
            let m = java_models_of(ts@);
            assert(m.take(i + 1).drop_last() =~= m.take(i as int));
            assert(m.take(i + 1).last() == java_model_of(ts@[i as int]));
        }
        i += 1;
    }
    proof {
        assert(java_models_of(ts@).take(ts@.len() as int) =~= java_models_of(ts@));
    }
    r
}

/// Converting to the canonical type keeps the printed form: the core
/// type prints exactly as the Java-local one did.
pub proof fn lemma_core_prints_the_same(m: JavaTypeModel)
    ensures
        type_text(core_of(m)) == java_text(m),
    decreases m,
{
    if m is Primitive {
        lemma_primitive_prints_the_same(m->Primitive_0);
    } else if m is Parameterized {
        lemma_cores_print_the_same(m->Parameterized_1);
        assert(type_text(TypeModel::Simple(m->Parameterized_0)) == m->Parameterized_0);
    } else if m is Array {
        lemma_core_prints_the_same(*m->Array_0);
    } else if m is Wildcard {
        assert(type_text(TypeModel::Wildcard(BoundModel::Unbounded)) == "?"@);
    }
}

proof fn lemma_primitive_prints_the_same(s: Seq<char>)
    ensures
        type_text(core_of(JavaTypeModel::Primitive(s))) == s,
{
    if s == "boolean"@ {
    } else if s == "byte"@ {
    } else if s == "short"@ {
    } else if s == "int"@ {
    } else if s == "long"@ {
    } else if s == "float"@ {
    } else if s == "double"@ {
    } else if s == "char"@ {
    } else {
        assert(primitive_named(s) is None);
    }
}

pub proof fn lemma_cores_print_the_same(ms: Seq<JavaTypeModel>)
    ensures
        joined_text(cores_of(ms), arg_separator()) == java_joined(ms),
    decreases ms,
{
    if ms.len() > 0 {
        lemma_cores_of_len(ms);
        lemma_core_prints_the_same(ms.last());
        if ms.len() == 1 {
            assert(cores_of(ms)[0] == core_of(ms[0]));
        } else {
            lemma_cores_print_the_same(ms.drop_last());
            assert(cores_of(ms).drop_last() == cores_of(ms.drop_last()));
            assert(cores_of(ms).last() == core_of(ms.last()));
        }
    }
}

proof fn lemma_cores_of_len(ms: Seq<JavaTypeModel>)
    ensures
        cores_of(ms).len() == ms.len(),
        ms.len() > 0 ==> cores_of(ms)[0] == core_of(ms[0]),
    decreases ms.len(),
{
    if ms.len() > 0 {
        lemma_cores_of_len(ms.drop_last());
        if ms.len() > 1 {
            assert(ms.drop_last()[0] == ms[0]);
        }
    }
}

} // verus!
