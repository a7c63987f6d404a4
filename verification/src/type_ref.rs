//! Structured types at the JVM level: the type vocabulary every language
//! projects into for cross-language interop — primitives, named types,
//! parameterized types, type variables, wildcards, arrays and
//! intersections — with erasure (JLS §4.6), substitution of type
//! variables, the primitive boxing and widening tables, and the printed
//! form of a type.
use vstd::prelude::*;

use crate::text::{str_eq, IntoText};

verus! {

/// A structured JVM-level type reference.
#[derive(Debug, PartialEq, Eq, Hash)]
pub enum TypeRef {
    /// `void`
    Void,
    /// Primitives: `int`, `boolean`, `double`, ...
    Primitive(PrimitiveKind),
    /// A named type, simple (`String`) or qualified (`java.util.List`).
    Simple { name: String },
    /// A parameterized type: `List<String>`, `Map<K, V>`.
    Parameterized { raw: Box<TypeRef>, args: Vec<TypeRef> },
    /// A reference to a type variable: `T`, `E`.
    TypeVariable { name: String },
    /// A wildcard: `?`, `? extends Foo`, `? super Bar`.
    Wildcard { bound: Option<WildcardBound> },
    /// An array type: `int[]`, `String[][]`.
    Array { element: Box<TypeRef> },
    /// An intersection type (type parameter bounds): `A & B`.
    Intersection { types: Vec<TypeRef> },
    /// Unresolved / error sentinel.
    Unknown,
}

#[derive(Debug, Clone, Copy, PartialEq, Eq, Hash, Structural)]
pub enum PrimitiveKind {
    Boolean,
    Byte,
    Short,
    Int,
    Long,
    Float,
    Double,
    Char,
}

#[derive(Debug, PartialEq, Eq, Hash)]
pub enum WildcardBound {
    /// `? extends Foo`
    Extends(Box<TypeRef>),
    /// `? super Foo`
    Super(Box<TypeRef>),
}

/// A type parameter declaration: `T`, `T extends Comparable<T>`,
/// `T extends A & B`. No bounds means the implicit `Object` bound.
#[derive(Debug, PartialEq, Eq, Hash)]
pub struct TypeParam {
    pub name: String,
    pub bounds: Vec<TypeRef>,
}

/// The mathematical value of a [`TypeRef`]: names as character
/// sequences, argument lists as sequences.
pub enum TypeModel {
    Void,
    Primitive(PrimitiveKind),
    Simple(Seq<char>),
    Parameterized(Box<TypeModel>, Seq<TypeModel>),
    TypeVariable(Seq<char>),
    Wildcard(BoundModel),
    Array(Box<TypeModel>),
    Intersection(Seq<TypeModel>),
    Unknown,
}

/// The mathematical value of a wildcard's bound.
pub enum BoundModel {
    Unbounded,
    Extends(Box<TypeModel>),
    Super(Box<TypeModel>),
}

pub open spec fn model_of(t: TypeRef) -> TypeModel
    decreases t,
{
    match t {
        TypeRef::Void => TypeModel::Void,
        TypeRef::Primitive(p) => TypeModel::Primitive(p),
        TypeRef::Simple { name } => TypeModel::Simple(name@),
        TypeRef::Parameterized { raw, args } => TypeModel::Parameterized(
            Box::new(model_of(*raw)),
            models_of(args@),
        ),
        TypeRef::TypeVariable { name } => TypeModel::TypeVariable(name@),
        TypeRef::Wildcard { bound } => TypeModel::Wildcard(
            match bound {
                None => BoundModel::Unbounded,
                Some(WildcardBound::Extends(b)) => BoundModel::Extends(Box::new(model_of(*b))),
                Some(WildcardBound::Super(b)) => BoundModel::Super(Box::new(model_of(*b))),
            },
        ),
        TypeRef::Array { element } => TypeModel::Array(Box::new(model_of(*element))),
        TypeRef::Intersection { types } => TypeModel::Intersection(models_of(types@)),
        TypeRef::Unknown => TypeModel::Unknown,
    }
}

pub open spec fn models_of(ts: Seq<TypeRef>) -> Seq<TypeModel>
    decreases ts,
{
    if ts.len() == 0 {
        Seq::empty()
    } else {
        models_of(ts.drop_last()).push(model_of(ts.last()))
    }
}

impl View for TypeRef {
    type V = TypeModel;

    open spec fn view(&self) -> TypeModel {
        model_of(*self)
    }
}

pub proof fn lemma_models_of(ts: Seq<TypeRef>)
    ensures
        models_of(ts).len() == ts.len(),
        forall|i: int| 0 <= i < ts.len() ==> #[trigger] models_of(ts)[i] == model_of(ts[i]),
    decreases ts.len(),
{
    if ts.len() > 0 {
        lemma_models_of(ts.drop_last());
        assert forall|i: int| 0 <= i < ts.len() implies #[trigger] models_of(ts)[i] == model_of(
            ts[i],
        ) by {
            if i < ts.len() - 1 {
                assert(ts.drop_last()[i] == ts[i]);
            }
        }
    }
}

/// The name of `java.lang.Object`, what unbounded variables erase to.
pub open spec fn object_name() -> Seq<char> {
    "java.lang.Object"@
}

/// Erasure (JLS §4.6): parameterized types erase to their raw type, type
/// variables and unbounded or `super` wildcards to `Object`, an `extends`
/// wildcard to its bound, an intersection to its first member, arrays
/// element-wise; everything else to itself.
pub open spec fn erasure_of(m: TypeModel) -> TypeModel
    decreases m,
{
    match m {
        TypeModel::Parameterized(raw, _) => erasure_of(*raw),
        TypeModel::TypeVariable(_) => TypeModel::Simple(object_name()),
        TypeModel::Wildcard(BoundModel::Extends(b)) => erasure_of(*b),
        TypeModel::Wildcard(_) => TypeModel::Simple(object_name()),
        TypeModel::Array(e) => TypeModel::Array(Box::new(erasure_of(*e))),
        TypeModel::Intersection(ts) => if ts.len() > 0 {
            erasure_of(ts[0])
        } else {
            TypeModel::Simple(object_name())
        },
        other => other,
    }
}

/// A type in erased form: no parameters, variables, wildcards or
/// intersections anywhere in it.
pub open spec fn is_erased(m: TypeModel) -> bool
    decreases m,
{
    match m {
        TypeModel::Parameterized(_, _) => false,
        TypeModel::TypeVariable(_) => false,
        TypeModel::Wildcard(_) => false,
        TypeModel::Intersection(_) => false,
        TypeModel::Array(e) => is_erased(*e),
        _ => true,
    }
}

/// The type bound to `name` by the first binding that names it.
pub open spec fn binding_of(bindings: Seq<(Seq<char>, TypeModel)>, name: Seq<char>) -> Option<
    TypeModel,
>
    decreases bindings.len(),
{
    if bindings.len() == 0 {
        None
    } else if bindings[0].0 == name {
        Some(bindings[0].1)
    } else {
        binding_of(bindings.subrange(1, bindings.len() as int), name)
    }
}

/// Substitution of bound type variables, through parameters, arrays,
/// wildcard bounds and intersections; unbound variables stay as they are.
pub open spec fn substitute_of(m: TypeModel, b: Seq<(Seq<char>, TypeModel)>) -> TypeModel
    decreases m,
{
    match m {
        TypeModel::TypeVariable(n) => match binding_of(b, n) {
            Some(t) => t,
            None => TypeModel::TypeVariable(n),
        },
        TypeModel::Parameterized(raw, args) => TypeModel::Parameterized(
            Box::new(substitute_of(*raw, b)),
            substitute_all(args, b),
        ),
        TypeModel::Array(e) => TypeModel::Array(Box::new(substitute_of(*e, b))),
        TypeModel::Wildcard(BoundModel::Extends(t)) => TypeModel::Wildcard(
            BoundModel::Extends(Box::new(substitute_of(*t, b))),
        ),
        TypeModel::Wildcard(BoundModel::Super(t)) => TypeModel::Wildcard(
            BoundModel::Super(Box::new(substitute_of(*t, b))),
        ),
        TypeModel::Intersection(ts) => TypeModel::Intersection(substitute_all(ts, b)),
        other => other,
    }
}

pub open spec fn substitute_all(ms: Seq<TypeModel>, b: Seq<(Seq<char>, TypeModel)>) -> Seq<
    TypeModel,
>
    decreases ms,
{
    if ms.len() == 0 {
        Seq::empty()
    } else {
        substitute_all(ms.drop_last(), b).push(substitute_of(ms.last(), b))
    }
}

/// The Java keyword of a primitive.
pub open spec fn primitive_name(p: PrimitiveKind) -> Seq<char> {
    match p {
        PrimitiveKind::Boolean => "boolean"@,
        PrimitiveKind::Byte => "byte"@,
        PrimitiveKind::Short => "short"@,
        PrimitiveKind::Int => "int"@,
        PrimitiveKind::Long => "long"@,
        PrimitiveKind::Float => "float"@,
        PrimitiveKind::Double => "double"@,
        PrimitiveKind::Char => "char"@,
    }
}

/// The printed form of a type: `List<String>`, `? extends Number`,
/// `int[]`, `A & B`, `<unknown>`.
pub open spec fn type_text(m: TypeModel) -> Seq<char>
    decreases m,
{
    match m {
        TypeModel::Void => "void"@,
        TypeModel::Primitive(p) => primitive_name(p),
        TypeModel::Simple(n) => n,
        TypeModel::Parameterized(raw, args) => type_text(*raw) + "<"@ + joined_text(
            args,
            arg_separator(),
        ) + ">"@,
        TypeModel::TypeVariable(n) => n,
        TypeModel::Wildcard(BoundModel::Unbounded) => "?"@,
        TypeModel::Wildcard(BoundModel::Extends(t)) => "? extends "@ + type_text(*t),
        TypeModel::Wildcard(BoundModel::Super(t)) => "? super "@ + type_text(*t),
        TypeModel::Array(e) => type_text(*e) + "[]"@,
        TypeModel::Intersection(ts) => joined_text(ts, " & "@),
        TypeModel::Unknown => "<unknown>"@,
    }
}

/// What separates the printed arguments of a parameterized type.
pub open spec fn arg_separator() -> Seq<char> {
    ", "@
}

/// The printed forms of `ms`, separated by `sep`.
pub open spec fn joined_text(ms: Seq<TypeModel>, sep: Seq<char>) -> Seq<char>
    decreases ms,
{
    if ms.len() == 0 {
        Seq::empty()
    } else if ms.len() == 1 {
        type_text(ms[0])
    } else {
        joined_text(ms.drop_last(), sep) + sep + type_text(ms.last())
    }
}

impl TypeRef {
    /// A named type: `TypeRef::simple("java.util.List")`.
    pub fn simple<T: IntoText>(name: T) -> (r: TypeRef)
        ensures
            r@ == TypeModel::Simple(name@),
    {
        TypeRef::Simple { name: name.into_text() }
    }

    /// A type variable: `TypeRef::type_var("T")`.
    pub fn type_var<T: IntoText>(name: T) -> (r: TypeRef)
        ensures
            r@ == TypeModel::TypeVariable(name@),
    {
        TypeRef::TypeVariable { name: name.into_text() }
    }

    /// An array of `element`.
    pub fn array(element: TypeRef) -> (r: TypeRef)
        ensures
            r@ == TypeModel::Array(Box::new(element@)),
    {
        TypeRef::Array { element: Box::new(element) }
    }

    /// `raw` applied to `args`.
    pub fn parameterized(raw: TypeRef, args: Vec<TypeRef>) -> (r: TypeRef)
        ensures
            r@ == TypeModel::Parameterized(Box::new(raw@), models_of(args@)),
    {
        TypeRef::Parameterized { raw: Box::new(raw), args }
    }

    /// `? extends bound`.
    pub fn wildcard_extends(bound: TypeRef) -> (r: TypeRef)
        ensures
            r@ == TypeModel::Wildcard(BoundModel::Extends(Box::new(bound@))),
    {
        TypeRef::Wildcard { bound: Some(WildcardBound::Extends(Box::new(bound))) }
    }

    /// `? super bound`.
    pub fn wildcard_super(bound: TypeRef) -> (r: TypeRef)
        ensures
            r@ == TypeModel::Wildcard(BoundModel::Super(Box::new(bound@))),
    {
        TypeRef::Wildcard { bound: Some(WildcardBound::Super(Box::new(bound))) }
    }

    /// Is this a primitive type?
    pub fn is_primitive(&self) -> (b: bool)
        ensures
            b == (self@ is Primitive),
    {
        match self {
            TypeRef::Primitive(_) => true,
            _ => false,
        }
    }

    /// Is this `void`?
    pub fn is_void(&self) -> (b: bool)
        ensures
            b == (self@ is Void),
    {
        match self {
            TypeRef::Void => true,
            _ => false,
        }
    }

    /// A deep copy.
    pub fn duplicate(&self) -> (r: TypeRef)
        ensures
            r@ == self@,
        decreases self,
    {
        match self {
            TypeRef::Void => TypeRef::Void,
            TypeRef::Primitive(p) => TypeRef::Primitive(*p),
            TypeRef::Simple { name } => TypeRef::Simple { name: String::from_str(name.as_str()) },
            TypeRef::Parameterized { raw, args } => {
                let r = raw.duplicate();
                let a = duplicate_all(args);
                TypeRef::Parameterized { raw: Box::new(r), args: a }
            },
            TypeRef::TypeVariable { name } => TypeRef::TypeVariable {
                name: String::from_str(name.as_str()),
            },
            TypeRef::Wildcard { bound } => match bound {
                None => TypeRef::Wildcard { bound: None },
                Some(WildcardBound::Extends(b)) => TypeRef::Wildcard {
                    bound: Some(WildcardBound::Extends(Box::new(b.duplicate()))),
                },
                Some(WildcardBound::Super(b)) => TypeRef::Wildcard {
                    bound: Some(WildcardBound::Super(Box::new(b.duplicate()))),
                },
            },
            TypeRef::Array { element } => TypeRef::Array { element: Box::new(element.duplicate()) },
            TypeRef::Intersection { types } => TypeRef::Intersection { types: duplicate_all(types) },
            TypeRef::Unknown => TypeRef::Unknown,
        }
    }

    /// Structural equality of the two types.
    pub fn same_type(&self, other: &TypeRef) -> (b: bool)
        ensures
            b == (self@ == other@),
        decreases self,
    {
        match (self, other) {
            (TypeRef::Void, TypeRef::Void) => true,
            (TypeRef::Primitive(p), TypeRef::Primitive(q)) => *p == *q,
            (TypeRef::Simple { name: a }, TypeRef::Simple { name: b }) => str_eq(
                a.as_str(),
                b.as_str(),
            ),
            (
                TypeRef::Parameterized { raw: r1, args: a1 },
                TypeRef::Parameterized { raw: r2, args: a2 },
            ) => {
                if !r1.same_type(r2) {
                    return false;
                }
                same_types(a1, a2)
            },
            (TypeRef::TypeVariable { name: a }, TypeRef::TypeVariable { name: b }) => str_eq(
                a.as_str(),
                b.as_str(),
            ),
            (TypeRef::Wildcard { bound: b1 }, TypeRef::Wildcard { bound: b2 }) => match (b1, b2) {
                (None, None) => true,
                (Some(WildcardBound::Extends(x)), Some(WildcardBound::Extends(y))) => x.same_type(y),
                (Some(WildcardBound::Super(x)), Some(WildcardBound::Super(y))) => x.same_type(y),
                _ => false,
            },
            (TypeRef::Array { element: e1 }, TypeRef::Array { element: e2 }) => e1.same_type(e2),
            (TypeRef::Intersection { types: t1 }, TypeRef::Intersection { types: t2 }) => same_types(
                t1,
                t2,
            ),
            (TypeRef::Unknown, TypeRef::Unknown) => true,
            _ => false,
        }
    }
}

impl Clone for TypeRef {
    fn clone(&self) -> (r: Self)
        ensures
            r@ == self@,
    {
        self.duplicate()
    }
}

/// A deep copy of every type in `ts`.
pub(crate) fn duplicate_all(ts: &Vec<TypeRef>) -> (r: Vec<TypeRef>)
    ensures
        models_of(r@) == models_of(ts@),
    decreases ts@,
{
    let mut r: Vec<TypeRef> = Vec::new();
    let mut i: usize = 0;
    proof {
        lemma_models_of(ts@);
    }
    while i < ts.len()
        invariant
            i <= ts.len(),
            r@.len() == i,
            forall|j: int| 0 <= j < i ==> model_of(#[trigger] r@[j]) == model_of(ts@[j]),
        decreases ts.len() - i,
    {
        proof {
            assert(decreases_to!(ts@ => ts@[i as int]));
        }
        let d = ts[i].duplicate();
        r.push(d);
        i += 1;
    }
    proof {
        lemma_models_of(r@);
        lemma_models_of(ts@);
        assert(models_of(r@) =~= models_of(ts@));
    }
    r
}

/// Element-wise structural equality of two type lists.
pub(crate) fn same_types(a: &Vec<TypeRef>, b: &Vec<TypeRef>) -> (r: bool)
    ensures
        r == (models_of(a@) == models_of(b@)),
    decreases a@,
{
    proof {
        lemma_models_of(a@);
        lemma_models_of(b@);
    }
    if a.len() != b.len() {
        return false;
    }
    let mut i: usize = 0;
    while i < a.len()
        invariant
            i <= a.len(),
            a.len() == b.len(),
            models_of(a@).len() == a@.len(),
            models_of(b@).len() == b@.len(),
            forall|j: int| 0 <= j < a@.len() ==> #[trigger] models_of(a@)[j] == model_of(a@[j]),
            forall|j: int| 0 <= j < b@.len() ==> #[trigger] models_of(b@)[j] == model_of(b@[j]),
            forall|j: int| 0 <= j < i ==> model_of(#[trigger] a@[j]) == model_of(b@[j]),
        decreases a.len() - i,
    {
        proof {
            assert(decreases_to!(a@ => a@[i as int]));
        }
        if !a[i].same_type(&b[i]) {
            proof {
                assert(models_of(a@)[i as int] != models_of(b@)[i as int]);
            }
            return false;
        }
        i += 1;
    }
    proof {
        assert(models_of(a@) =~= models_of(b@));
    }
    true
}

impl TypeRef {
    /// Erasure (JLS §4.6), see [`erasure_of`].
    pub fn erasure(&self) -> (r: TypeRef)
        ensures
            r@ == erasure_of(self@),
        decreases self,
    {
        match self {
            TypeRef::Parameterized { raw, .. } => raw.erasure(),
            TypeRef::TypeVariable { .. } => TypeRef::simple("java.lang.Object"),
            TypeRef::Wildcard { bound } => match bound {
                Some(WildcardBound::Extends(t)) => t.erasure(),
                _ => TypeRef::simple("java.lang.Object"),
            },
            TypeRef::Array { element } => TypeRef::array(element.erasure()),
            TypeRef::Intersection { types } => {
                proof {
                    lemma_models_of(types@);
                }
                if types.len() > 0 {
                    proof {
                        assert(decreases_to!(types@ => types@[0]));
                    }
                    types[0].erasure()
                } else {
                    TypeRef::simple("java.lang.Object")
                }
            },
            _ => self.duplicate(),
        }
    }

    /// Replace every type variable bound in `bindings` (the first binding
    /// of a name wins) by its type; see [`substitute_of`].
    pub fn substitute(&self, bindings: &Vec<(String, TypeRef)>) -> (r: TypeRef)
        ensures
            r@ == substitute_of(self@, bindings_model(bindings@)),
        decreases self,
    {
        match self {
            TypeRef::TypeVariable { name } => match lookup_binding(bindings, name.as_str()) {
                Some(i) => bindings[i].1.duplicate(),
                None => self.duplicate(),
            },
            TypeRef::Parameterized { raw, args } => {
                let r = raw.substitute(bindings);
                let a = substitute_each(args, bindings);
                TypeRef::Parameterized { raw: Box::new(r), args: a }
            },
            TypeRef::Array { element } => TypeRef::Array {
                element: Box::new(element.substitute(bindings)),
            },
            TypeRef::Wildcard { bound } => match bound {
                Some(WildcardBound::Extends(t)) => TypeRef::Wildcard {
                    bound: Some(WildcardBound::Extends(Box::new(t.substitute(bindings)))),
                },
                Some(WildcardBound::Super(t)) => TypeRef::Wildcard {
                    bound: Some(WildcardBound::Super(Box::new(t.substitute(bindings)))),
                },
                None => TypeRef::Wildcard { bound: None },
            },
            TypeRef::Intersection { types } => TypeRef::Intersection {
                types: substitute_each(types, bindings),
            },
            _ => self.duplicate(),
        }
    }

    /// The printed form, see [`type_text`].
    pub fn to_string(&self) -> (s: String)
        ensures
            s@ == type_text(self@),
        decreases self,
    {
        match self {
            TypeRef::Void => String::from_str("void"),
            TypeRef::Primitive(p) => String::from_str(p.name()),
            TypeRef::Simple { name } => String::from_str(name.as_str()),
            TypeRef::Parameterized { raw, args } => {
                let mut s = raw.to_string();
                s.append("<");
                let j = join_each(args, ", ");
                s.append(j.as_str());
                s.append(">");
                s
            },
            TypeRef::TypeVariable { name } => String::from_str(name.as_str()),
            TypeRef::Wildcard { bound } => match bound {
                None => String::from_str("?"),
                Some(WildcardBound::Extends(t)) => {
                    let mut s = String::from_str("? extends ");
                    let b = t.to_string();
                    s.append(b.as_str());
                    s
                },
                Some(WildcardBound::Super(t)) => {
                    let mut s = String::from_str("? super ");
                    let b = t.to_string();
                    s.append(b.as_str());
                    s
                },
            },
            TypeRef::Array { element } => {
                let mut s = element.to_string();
                s.append("[]");
                s
            },
            TypeRef::Intersection { types } => join_each(types, " & "),
            TypeRef::Unknown => String::from_str("<unknown>"),
        }
    }
}

/// The bindings, each name and type taken by its view.
pub open spec fn bindings_model(b: Seq<(String, TypeRef)>) -> Seq<(Seq<char>, TypeModel)> {
    b.map_values(|p: (String, TypeRef)| (p.0@, p.1@))
}

/// The index of the first binding named `name`.
fn lookup_binding(bindings: &Vec<(String, TypeRef)>, name: &str) -> (r: Option<usize>)
    ensures
        match r {
            Some(i) => i < bindings@.len() && binding_of(bindings_model(bindings@), name@) == Some(
                bindings@[i as int].1@,
            ),
            None => binding_of(bindings_model(bindings@), name@) is None,
        },
{
    let ghost bm = bindings_model(bindings@);
    let mut i: usize = 0;
    proof {
        assert(bm.subrange(0, bm.len() as int) =~= bm);
    }
    while i < bindings.len()
        invariant
            i <= bindings@.len(),
            bm == bindings_model(bindings@),
            bm.len() == bindings@.len(),
            binding_of(bm, name@) == binding_of(bm.subrange(i as int, bm.len() as int), name@),
        decreases bindings.len() - i,
    {
        let ghost rest = bm.subrange(i as int, bm.len() as int);
        proof {
            assert(rest[0] == bm[i as int]);
            assert(rest.subrange(1, rest.len() as int) =~= bm.subrange(i + 1, bm.len() as int));
        }
        if str_eq(bindings[i].0.as_str(), name) {
            return Some(i);
        }
        i += 1;
    }
    None
}

/// `substitute` applied to every type in `ts`.
fn substitute_each(ts: &Vec<TypeRef>, bindings: &Vec<(String, TypeRef)>) -> (r: Vec<TypeRef>)
    ensures
        models_of(r@) == substitute_all(models_of(ts@), bindings_model(bindings@)),
    decreases ts@,
{
    let ghost b = bindings_model(bindings@);
    let mut r: Vec<TypeRef> = Vec::new();
    let mut i: usize = 0;
    proof {
        lemma_models_of(ts@);
    }
    while i < ts.len()
        invariant
            i <= ts.len(),
            b == bindings_model(bindings@),
            models_of(ts@).len() == ts@.len(),
            forall|j: int| 0 <= j < ts@.len() ==> #[trigger] models_of(ts@)[j] == model_of(ts@[j]),
            models_of(r@) == substitute_all(models_of(ts@).take(i as int), b),
        decreases ts.len() - i,
    {
        proof {
            assert(decreases_to!(ts@ => ts@[i as int]));
        }
        let d = ts[i].substitute(bindings);
        let ghost before = r@;
        r.push(d);
        proof {
            assert(r@.drop_last() =~= before);
            let m = models_of(ts@);
            assert(m.take(i + 1).drop_last() =~= m.take(i as int));
            assert(m.take(i + 1).last() == model_of(ts@[i as int]));
        }
        i += 1;
    }
    proof {
        assert(models_of(ts@).take(ts@.len() as int) =~= models_of(ts@));
    }
    r
}

proof fn lemma_joined_step(ms: Seq<TypeModel>, sep: Seq<char>, i: int)
    requires
        0 <= i < ms.len(),
    ensures
        joined_text(ms.take(i + 1), sep) == joined_text(ms.take(i), sep) + (if i > 0 {
            sep
        } else {
            Seq::<char>::empty()
        }) + type_text(ms[i]),
{
    assert(ms.take(i + 1).drop_last() =~= ms.take(i));
    if i == 0 {
        assert(joined_text(ms.take(0), sep) =~= Seq::<char>::empty());
        assert(Seq::<char>::empty() + Seq::<char>::empty() + type_text(ms[0]) =~= type_text(ms[0]));
    }
}

/// The printed forms of `ts`, separated by `sep`.
fn join_each(ts: &Vec<TypeRef>, sep: &str) -> (s: String)
    ensures
        s@ == joined_text(models_of(ts@), sep@),
    decreases ts@,
{
    let mut s = String::from_str("");
    let mut i: usize = 0;
    proof {
        lemma_models_of(ts@);
        reveal_strlit("");
    }
    while i < ts.len()
        invariant
            i <= ts.len(),
            models_of(ts@).len() == ts@.len(),
            forall|j: int| 0 <= j < ts@.len() ==> #[trigger] models_of(ts@)[j] == model_of(ts@[j]),
            s@ == joined_text(models_of(ts@).take(i as int), sep@),
        decreases ts.len() - i,
    {
        proof {
            assert(decreases_to!(ts@ => ts@[i as int]));
            lemma_joined_step(models_of(ts@), sep@, i as int);
        }
        if i > 0 {
            s.append(sep);
        }
        let t = ts[i].to_string();
        s.append(t.as_str());
        proof {
            if i == 0 {
                assert(s@ =~= Seq::<char>::empty() + Seq::<char>::empty() + t@);
            }
        }
        i += 1;
    }
    proof {
        assert(models_of(ts@).take(ts@.len() as int) =~= models_of(ts@));
    }
    s
}

impl TypeParam {
    /// A type parameter with no bounds.
    pub fn new<T: IntoText>(name: T) -> (r: TypeParam)
        ensures
            r.name@ == name@,
            r.bounds@.len() == 0,
    {
        TypeParam { name: name.into_text(), bounds: Vec::new() }
    }

    /// A type parameter with the given upper bounds.
    pub fn with_bounds<T: IntoText>(name: T, bounds: Vec<TypeRef>) -> (r: TypeParam)
        ensures
            r.name@ == name@,
            r.bounds == bounds,
    {
        TypeParam { name: name.into_text(), bounds }
    }
}

/// The fully-qualified name of a primitive's wrapper class.
pub open spec fn boxed_name(p: PrimitiveKind) -> Seq<char> {
    match p {
        PrimitiveKind::Boolean => "java.lang.Boolean"@,
        PrimitiveKind::Byte => "java.lang.Byte"@,
        PrimitiveKind::Short => "java.lang.Short"@,
        PrimitiveKind::Int => "java.lang.Integer"@,
        PrimitiveKind::Long => "java.lang.Long"@,
        PrimitiveKind::Float => "java.lang.Float"@,
        PrimitiveKind::Double => "java.lang.Double"@,
        PrimitiveKind::Char => "java.lang.Character"@,
    }
}

/// The primitive whose keyword is `n`, if any.
pub open spec fn primitive_named(n: Seq<char>) -> Option<PrimitiveKind> {
    if n == "boolean"@ {
        Some(PrimitiveKind::Boolean)
    } else if n == "byte"@ {
        Some(PrimitiveKind::Byte)
    } else if n == "short"@ {
        Some(PrimitiveKind::Short)
    } else if n == "int"@ {
        Some(PrimitiveKind::Int)
    } else if n == "long"@ {
        Some(PrimitiveKind::Long)
    } else if n == "float"@ {
        Some(PrimitiveKind::Float)
    } else if n == "double"@ {
        Some(PrimitiveKind::Double)
    } else if n == "char"@ {
        Some(PrimitiveKind::Char)
    } else {
        None
    }
}

/// Widening primitive conversion (JLS §5.1.2).
pub open spec fn widens(from: PrimitiveKind, to: PrimitiveKind) -> bool {
    match from {
        PrimitiveKind::Byte => to is Short || to is Int || to is Long || to is Float || to is Double,
        PrimitiveKind::Short => to is Int || to is Long || to is Float || to is Double,
        PrimitiveKind::Char => to is Int || to is Long || to is Float || to is Double,
        PrimitiveKind::Int => to is Long || to is Float || to is Double,
        PrimitiveKind::Long => to is Float || to is Double,
        PrimitiveKind::Float => to is Double,
        _ => false,
    }
}

impl PrimitiveKind {
    /// The Java keyword of this primitive.
    pub fn name(&self) -> (r: &'static str)
        ensures
            r@ == primitive_name(*self),
    {
        match self {
            PrimitiveKind::Boolean => "boolean",
            PrimitiveKind::Byte => "byte",
            PrimitiveKind::Short => "short",
            PrimitiveKind::Int => "int",
            PrimitiveKind::Long => "long",
            PrimitiveKind::Float => "float",
            PrimitiveKind::Double => "double",
            PrimitiveKind::Char => "char",
        }
    }

    /// The FQN of the boxed wrapper type.
    pub fn boxed_fqn(&self) -> (r: &'static str)
        ensures
            r@ == boxed_name(*self),
    {
        match self {
            PrimitiveKind::Boolean => "java.lang.Boolean",
            PrimitiveKind::Byte => "java.lang.Byte",
            PrimitiveKind::Short => "java.lang.Short",
            PrimitiveKind::Int => "java.lang.Integer",
            PrimitiveKind::Long => "java.lang.Long",
            PrimitiveKind::Float => "java.lang.Float",
            PrimitiveKind::Double => "java.lang.Double",
            PrimitiveKind::Char => "java.lang.Character",
        }
    }

    /// Parse a primitive type name.
    pub fn from_str(s: &str) -> (r: Option<PrimitiveKind>)
        ensures
            r == primitive_named(s@),
    {
        if str_eq(s, "boolean") {
            Some(PrimitiveKind::Boolean)
        } else if str_eq(s, "byte") {
            Some(PrimitiveKind::Byte)
        } else if str_eq(s, "short") {
            Some(PrimitiveKind::Short)
        } else if str_eq(s, "int") {
            Some(PrimitiveKind::Int)
        } else if str_eq(s, "long") {
            Some(PrimitiveKind::Long)
        } else if str_eq(s, "float") {
            Some(PrimitiveKind::Float)
        } else if str_eq(s, "double") {
            Some(PrimitiveKind::Double)
        } else if str_eq(s, "char") {
            Some(PrimitiveKind::Char)
        } else {
            None
        }
    }

    /// Can this primitive be widened to `target`? (JLS §5.1.2)
    pub fn widens_to(&self, target: &PrimitiveKind) -> (b: bool)
        ensures
            b == widens(*self, *target),
    {
        match self {
            PrimitiveKind::Byte => match target {
                PrimitiveKind::Short | PrimitiveKind::Int | PrimitiveKind::Long
                | PrimitiveKind::Float | PrimitiveKind::Double => true,
                _ => false,
            },
            PrimitiveKind::Short | PrimitiveKind::Char => match target {
                PrimitiveKind::Int | PrimitiveKind::Long | PrimitiveKind::Float
                | PrimitiveKind::Double => true,
                _ => false,
            },
            PrimitiveKind::Int => match target {
                PrimitiveKind::Long | PrimitiveKind::Float | PrimitiveKind::Double => true,
                _ => false,
            },
            PrimitiveKind::Long => match target {
                PrimitiveKind::Float | PrimitiveKind::Double => true,
                _ => false,
            },
            PrimitiveKind::Float => match target {
                PrimitiveKind::Double => true,
                _ => false,
            },
            _ => false,
        }
    }
}

/// Erasure always yields an erased type.
pub proof fn lemma_erasure_is_erased(m: TypeModel)
    ensures
        is_erased(erasure_of(m)),
    decreases m,
{
    match m {
        TypeModel::Parameterized(raw, _) => lemma_erasure_is_erased(*raw),
        TypeModel::Wildcard(BoundModel::Extends(b)) => lemma_erasure_is_erased(*b),
        TypeModel::Array(e) => lemma_erasure_is_erased(*e),
        TypeModel::Intersection(ts) => {
            if ts.len() > 0 {
                lemma_erasure_is_erased(ts[0]);
            }
        },
        _ => {},
    }
}

/// An erased type erases to itself.
pub proof fn lemma_erased_is_fixed(m: TypeModel)
    requires
        is_erased(m),
    ensures
        erasure_of(m) == m,
    decreases m,
{
    match m {
        TypeModel::Array(e) => lemma_erased_is_fixed(*e),
        _ => {},
    }
}

/// Erasure is idempotent: erasing an erased type changes nothing.
pub proof fn lemma_erasure_idempotent(m: TypeModel)
    ensures
        erasure_of(erasure_of(m)) == erasure_of(m),
{
    lemma_erasure_is_erased(m);
    lemma_erased_is_fixed(erasure_of(m));
}

/// Substituting with no bindings changes nothing.
pub proof fn lemma_substitute_nothing(m: TypeModel)
    ensures
        substitute_of(m, Seq::empty()) == m,
    decreases m,
{
    match m {
        TypeModel::Parameterized(raw, args) => {
            lemma_substitute_nothing(*raw);
            lemma_substitute_all_nothing(args);
        },
        TypeModel::Array(e) => lemma_substitute_nothing(*e),
        TypeModel::Wildcard(BoundModel::Extends(t)) => lemma_substitute_nothing(*t),
        TypeModel::Wildcard(BoundModel::Super(t)) => lemma_substitute_nothing(*t),
        TypeModel::Intersection(ts) => lemma_substitute_all_nothing(ts),
        _ => {},
    }
}

pub proof fn lemma_substitute_all_nothing(ms: Seq<TypeModel>)
    ensures
        substitute_all(ms, Seq::empty()) == ms,
    decreases ms,
{
    if ms.len() > 0 {
        lemma_substitute_all_nothing(ms.drop_last());
        lemma_substitute_nothing(ms.last());
        assert(ms.drop_last().push(ms.last()) =~= ms);
    }
}

/// Parsing a primitive's keyword gives the primitive back.
pub proof fn lemma_primitive_name_round_trip(p: PrimitiveKind)
    ensures
        primitive_named(primitive_name(p)) == Some(p),
{
    reveal_strlit("boolean");
    reveal_strlit("byte");
    reveal_strlit("short");
    reveal_strlit("int");
    reveal_strlit("long");
    reveal_strlit("float");
    reveal_strlit("double");
    reveal_strlit("char");
    let names = seq!["boolean"@, "byte"@, "short"@, "int"@, "long"@, "float"@, "double"@, "char"@];
    assert forall|i: int, j: int| 0 <= i < j < 8 implies names[i] != names[j] by {
        if names[i].len() == names[j].len() {
            if names[i][0] == names[j][0] {
                assert(names[i][1] != names[j][1]);
            } else {
                assert(names[i][0] != names[j][0]);
            }
        }
    }
    assert(names[0] != names[7]);
    assert(names[1] != names[4]);
    assert(names[1] != names[7]);
    assert(names[4] != names[7]);
    assert(names[2] != names[5]);
}

/// Widening is a strict order: no primitive widens to itself, and
/// widening twice is widening once.
pub proof fn lemma_widening_strict_order(a: PrimitiveKind, b: PrimitiveKind, c: PrimitiveKind)
    ensures
        !widens(a, a),
        widens(a, b) && widens(b, c) ==> widens(a, c),
        widens(a, b) ==> !widens(b, a),
{
}

/// The place of a numeric primitive on the JLS §5.1.2 widening chain
/// `byte < short < int < long < float < double`; `char` joins the chain
/// at `int`, `boolean` is not on it.
pub open spec fn chain_place(p: PrimitiveKind) -> Option<int> {
    match p {
        PrimitiveKind::Byte => Some(0),
        PrimitiveKind::Short => Some(1),
        PrimitiveKind::Int => Some(2),
        PrimitiveKind::Long => Some(3),
        PrimitiveKind::Float => Some(4),
        PrimitiveKind::Double => Some(5),
        _ => None,
    }
}

/// Widening follows the chain: a type on the chain widens exactly to the
/// types further along it; `char` widens exactly to `int` and everything
/// after; nothing widens to `char`, and `boolean` neither widens nor is
/// widened to.
pub proof fn lemma_widening_is_the_chain(from: PrimitiveKind, to: PrimitiveKind)
    ensures
        from != PrimitiveKind::Char && chain_place(from) is Some && chain_place(to) is Some ==> (
        widens(from, to) <==> chain_place(from)->0 < chain_place(to)->0),
        from == PrimitiveKind::Char ==> (widens(from, to) <==> chain_place(to) is Some && chain_place(
            to,
        )->0 >= 2),
        to == PrimitiveKind::Char ==> !widens(from, to),
        from == PrimitiveKind::Boolean || to == PrimitiveKind::Boolean ==> !widens(from, to),
{
}

/// Every step of the widening chain is a widening: byte to short, short
/// to int, char to int, int to long, long to float, float to double.
pub proof fn lemma_widening_steps()
    ensures
        widens(PrimitiveKind::Byte, PrimitiveKind::Short),
        widens(PrimitiveKind::Short, PrimitiveKind::Int),
        widens(PrimitiveKind::Char, PrimitiveKind::Int),
        widens(PrimitiveKind::Int, PrimitiveKind::Long),
        widens(PrimitiveKind::Long, PrimitiveKind::Float),
        widens(PrimitiveKind::Float, PrimitiveKind::Double),
{
}

/// A type variable `v` occurs somewhere in a type.
pub open spec fn mentions(m: TypeModel, v: Seq<char>) -> bool
    decreases m, 0nat,
{
    match m {
        TypeModel::TypeVariable(n) => n == v,
        TypeModel::Parameterized(raw, args) => mentions(*raw, v) || mentions_any(args, v),
        TypeModel::Array(e) => mentions(*e, v),
        TypeModel::Wildcard(BoundModel::Extends(t)) => mentions(*t, v),
        TypeModel::Wildcard(BoundModel::Super(t)) => mentions(*t, v),
        TypeModel::Intersection(ts) => mentions_any(ts, v),
        _ => false,
    }
}

/// A type variable `v` occurs somewhere in one of `ms`.
pub open spec fn mentions_any(ms: Seq<TypeModel>, v: Seq<char>) -> bool
    decreases ms, 0nat,
{
    if ms.len() == 0 {
        false
    } else {
        mentions_any(ms.drop_last(), v) || mentions(ms.last(), v)
    }
}

proof fn lemma_binding_is_a_target(b: Seq<(Seq<char>, TypeModel)>, n: Seq<char>)
    ensures
        binding_of(b, n) matches Some(t) ==> exists|j: int| 0 <= j < b.len() && #[trigger] b[j].1 == t && b[j].0 == n,
        binding_of(b, n) is None ==> forall|j: int| 0 <= j < b.len() ==> #[trigger] b[j].0 != n,
    decreases b.len(),
{
    if b.len() > 0 {
        let rest = b.subrange(1, b.len() as int);
        lemma_binding_is_a_target(rest, n);
        if b[0].0 != n {
            if let Some(t) = binding_of(rest, n) {
                let j = choose|j: int| 0 <= j < rest.len() && #[trigger] rest[j].1 == t && rest[j].0 == n;
                assert(b[j + 1] == rest[j]);
            } else {
                assert forall|j: int| 0 <= j < b.len() implies #[trigger] b[j].0 != n by {
                    if j > 0 {
                        assert(b[j] == rest[j - 1]);
                    }
                }
            }
        } else {
            assert(b[0].1 == b[0].1);
        }
    }
}

/// Substituting with a binding for `v` whose targets do not mention `v`
/// leaves no `v` anywhere in the result: every occurrence, under
/// parameters, array elements, both wildcard bounds and intersections,
/// is replaced.
pub proof fn lemma_substitution_leaves_no_bound_variable(m: TypeModel, b: Seq<(Seq<char>, TypeModel)>, v: Seq<char>)
    requires
        binding_of(b, v) is Some,
        forall|j: int| 0 <= j < b.len() ==> !mentions(#[trigger] b[j].1, v),
    ensures
        !mentions(substitute_of(m, b), v),
    decreases m,
{
    match m {
        TypeModel::TypeVariable(n) => {
            lemma_binding_is_a_target(b, n);
            lemma_binding_is_a_target(b, v);
            if let Some(t) = binding_of(b, n) {
                let j = choose|j: int| 0 <= j < b.len() && #[trigger] b[j].1 == t && b[j].0 == n;
                assert(!mentions(b[j].1, v));
            } else {
                if n == v {
                    let t = binding_of(b, v)->0;
                    let j = choose|j: int| 0 <= j < b.len() && #[trigger] b[j].1 == t && b[j].0 == v;
                    assert(b[j].0 != n);
                }
            }
        },
        TypeModel::Parameterized(raw, args) => {
            lemma_substitution_leaves_no_bound_variable(*raw, b, v);
            lemma_substitution_all_leaves_no_bound_variable(args, b, v);
        },
        TypeModel::Array(e) => lemma_substitution_leaves_no_bound_variable(*e, b, v),
        TypeModel::Wildcard(BoundModel::Extends(t)) => lemma_substitution_leaves_no_bound_variable(*t, b, v),
        TypeModel::Wildcard(BoundModel::Super(t)) => lemma_substitution_leaves_no_bound_variable(*t, b, v),
        TypeModel::Intersection(ts) => lemma_substitution_all_leaves_no_bound_variable(ts, b, v),
        _ => {},
    }
}

pub proof fn lemma_substitution_all_leaves_no_bound_variable(
    ms: Seq<TypeModel>,
    b: Seq<(Seq<char>, TypeModel)>,
    v: Seq<char>,
)
    requires
        binding_of(b, v) is Some,
        forall|j: int| 0 <= j < b.len() ==> !mentions(#[trigger] b[j].1, v),
    ensures
        !mentions_any(substitute_all(ms, b), v),
    decreases ms,
{
    if ms.len() > 0 {
        lemma_substitution_all_leaves_no_bound_variable(ms.drop_last(), b, v);
        lemma_substitution_leaves_no_bound_variable(ms.last(), b, v);
        assert(substitute_all(ms, b).drop_last() =~= substitute_all(ms.drop_last(), b));
    }
}

/// Substitution goes through every constructor: into a parameterized
/// type's raw type and each argument, an array's element, either bound
/// of a wildcard, each member of an intersection; a bound variable
/// becomes its first binding, and everything else is left as it is.
pub proof fn lemma_substitution_commutes(m: TypeModel, b: Seq<(Seq<char>, TypeModel)>)
    ensures
        m matches TypeModel::Wildcard(BoundModel::Super(t)) ==> substitute_of(m, b) == TypeModel::Wildcard(
            BoundModel::Super(Box::new(substitute_of(*t, b))),
        ),
        m matches TypeModel::Wildcard(BoundModel::Extends(t)) ==> substitute_of(m, b) == TypeModel::Wildcard(
            BoundModel::Extends(Box::new(substitute_of(*t, b))),
        ),
        m matches TypeModel::Array(e) ==> substitute_of(m, b) == TypeModel::Array(Box::new(substitute_of(*e, b))),
        m matches TypeModel::Parameterized(raw, args) ==> ({
            let r = substitute_of(m, b);
            &&& r is Parameterized
            &&& r->Parameterized_0 == Box::new(substitute_of(*raw, b))
            &&& r->Parameterized_1.len() == args.len()
            &&& forall|i: int| 0 <= i < args.len() ==> #[trigger] r->Parameterized_1[i] == substitute_of(args[i], b)
        }),
        m matches TypeModel::Intersection(ts) ==> ({
            let r = substitute_of(m, b);
            &&& r is Intersection
            &&& r->Intersection_0.len() == ts.len()
            &&& forall|i: int| 0 <= i < ts.len() ==> #[trigger] r->Intersection_0[i] == substitute_of(ts[i], b)
        }),
        m matches TypeModel::TypeVariable(n) ==> substitute_of(m, b) == match binding_of(b, n) {
            Some(t) => t,
            None => m,
        },
        (m is Void || m is Primitive || m is Simple || m is Unknown || m == TypeModel::Wildcard(
            BoundModel::Unbounded,
        )) ==> substitute_of(m, b) == m,
{
    match m {
        TypeModel::Parameterized(_, args) => lemma_substitute_all_pointwise(args, b),
        TypeModel::Intersection(ts) => lemma_substitute_all_pointwise(ts, b),
        _ => {},
    }
}

proof fn lemma_substitute_all_pointwise(ms: Seq<TypeModel>, b: Seq<(Seq<char>, TypeModel)>)
    ensures
        substitute_all(ms, b).len() == ms.len(),
        forall|i: int| 0 <= i < ms.len() ==> #[trigger] substitute_all(ms, b)[i] == substitute_of(ms[i], b),
    decreases ms.len(),
{
    if ms.len() > 0 {
        lemma_substitute_all_pointwise(ms.drop_last(), b);
        assert forall|i: int| 0 <= i < ms.len() implies #[trigger] substitute_all(ms, b)[i] == substitute_of(ms[i], b) by {
            if i < ms.len() - 1 {
                assert(ms.drop_last()[i] == ms[i]);
            }
        }
    }
}

} // verus!
