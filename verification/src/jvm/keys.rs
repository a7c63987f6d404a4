//! Typed registry keys for the JVM projection. Each registry has its own
//! typed key; keys compare by value.
use vstd::prelude::*;

use crate::jvm::fqn::Fqn;
use crate::registry::key::{RegistryKey, SimpleNamed};
use crate::text::{last_segment_spec, str_eq, IntoText};
use crate::type_ref::{duplicate_all, models_of, same_types, TypeModel, TypeRef};

verus! {

/// Key identifying a JVM type (class, interface, enum, record, annotation
/// type) by its fully-qualified name.
#[derive(Debug, Clone, PartialEq, Eq, Hash)]
pub struct JvmTypeKey {
    pub fqn: Fqn,
}

impl View for JvmTypeKey {
    type V = Seq<char>;

    open spec fn view(&self) -> Seq<char> {
        self.fqn@
    }
}

impl JvmTypeKey {
    pub fn new<T: IntoText>(fqn: T) -> (r: Self)
        ensures
            r@ == fqn@,
    {
        JvmTypeKey { fqn: Fqn::new(fqn) }
    }
}

impl SimpleNamed for JvmTypeKey {
    open spec fn simple_name_of(v: Seq<char>) -> Seq<char> {
        last_segment_spec(v)
    }

    fn simple_name(&self) -> (r: &str) {
        self.fqn.simple_name()
    }
}

impl RegistryKey for JvmTypeKey {
    fn same_key(&self, other: &Self) -> (b: bool) {
        self.fqn.same(&other.fqn)
    }

    fn clone_key(&self) -> (r: Self) {
        JvmTypeKey { fqn: self.fqn.duplicate() }
    }
}

/// Key identifying a JVM field by its declaring type and simple name.
#[derive(Debug, Clone, PartialEq, Eq, Hash)]
pub struct JvmFieldKey {
    pub owner: Fqn,
    pub name: String,
}

impl View for JvmFieldKey {
    type V = (Seq<char>, Seq<char>);

    open spec fn view(&self) -> (Seq<char>, Seq<char>) {
        (self.owner@, self.name@)
    }
}

impl JvmFieldKey {
    pub fn new<O: IntoText, N: IntoText>(owner: O, name: N) -> (r: Self)
        ensures
            r@ == (owner@, name@),
    {
        JvmFieldKey { owner: Fqn::new(owner), name: name.into_text() }
    }
}

impl SimpleNamed for JvmFieldKey {
    open spec fn simple_name_of(v: (Seq<char>, Seq<char>)) -> Seq<char> {
        v.1
    }

    fn simple_name(&self) -> (r: &str) {
        self.name.as_str()
    }
}

impl RegistryKey for JvmFieldKey {
    fn same_key(&self, other: &Self) -> (b: bool) {
        self.owner.same(&other.owner) && str_eq(self.name.as_str(), other.name.as_str())
    }

    fn clone_key(&self) -> (r: Self) {
        JvmFieldKey {
            owner: self.owner.duplicate(),
            name: String::from_str(self.name.as_str()),
        }
    }
}

/// Key identifying a package by its dotted name.
#[derive(Debug, Clone, PartialEq, Eq, Hash)]
pub struct PackageKey {
    pub package: Fqn,
}

impl View for PackageKey {
    type V = Seq<char>;

    open spec fn view(&self) -> Seq<char> {
        self.package@
    }
}

impl PackageKey {
    pub fn new<T: IntoText>(package: T) -> (r: Self)
        ensures
            r@ == package@,
    {
        PackageKey { package: Fqn::new(package) }
    }
}

impl SimpleNamed for PackageKey {
    open spec fn simple_name_of(v: Seq<char>) -> Seq<char> {
        last_segment_spec(v)
    }

    fn simple_name(&self) -> (r: &str) {
        self.package.simple_name()
    }
}

impl RegistryKey for PackageKey {
    fn same_key(&self, other: &Self) -> (b: bool) {
        self.package.same(&other.package)
    }

    fn clone_key(&self) -> (r: Self) {
        PackageKey { package: self.package.duplicate() }
    }
}

/// Key identifying a JVM method by its declaring type, simple name, and
/// erased parameter list. Producers pre-erase the parameter types and
/// write them fully qualified; the key compares them as given.
#[derive(Debug, PartialEq, Eq)]
pub struct JvmMethodKey {
    pub owner: Fqn,
    pub name: String,
    pub param_types: Vec<TypeRef>,
}

impl View for JvmMethodKey {
    type V = (Seq<char>, Seq<char>, Seq<TypeModel>);

    open spec fn view(&self) -> (Seq<char>, Seq<char>, Seq<TypeModel>) {
        (self.owner@, self.name@, models_of(self.param_types@))
    }
}

impl JvmMethodKey {
    pub fn new<O: IntoText, N: IntoText>(owner: O, name: N, param_types: Vec<TypeRef>) -> (r: Self)
        ensures
            r@ == (owner@, name@, models_of(param_types@)),
    {
        JvmMethodKey { owner: Fqn::new(owner), name: name.into_text(), param_types }
    }
}

impl Clone for JvmMethodKey {
    fn clone(&self) -> (r: Self)
        ensures
            r@ == self@,
    {
        self.clone_key()
    }
}

impl SimpleNamed for JvmMethodKey {
    open spec fn simple_name_of(v: (Seq<char>, Seq<char>, Seq<TypeModel>)) -> Seq<char> {
        v.1
    }

    fn simple_name(&self) -> (r: &str) {
        self.name.as_str()
    }
}

impl RegistryKey for JvmMethodKey {
    fn same_key(&self, other: &Self) -> (b: bool) {
        self.owner.same(&other.owner) && str_eq(self.name.as_str(), other.name.as_str())
            && same_types(&self.param_types, &other.param_types)
    }

    fn clone_key(&self) -> (r: Self) {
        JvmMethodKey {
            owner: self.owner.duplicate(),
            name: String::from_str(self.name.as_str()),
            param_types: duplicate_all(&self.param_types),
        }
    }
}

/// Key identifying a JVM constructor by its declaring type and erased
/// parameter list; its simple name is the declaring type's.
#[derive(Debug, PartialEq, Eq)]
pub struct JvmConstructorKey {
    pub owner: Fqn,
    pub param_types: Vec<TypeRef>,
}

impl View for JvmConstructorKey {
    type V = (Seq<char>, Seq<TypeModel>);

    open spec fn view(&self) -> (Seq<char>, Seq<TypeModel>) {
        (self.owner@, models_of(self.param_types@))
    }
}

impl JvmConstructorKey {
    pub fn new<O: IntoText>(owner: O, param_types: Vec<TypeRef>) -> (r: Self)
        ensures
            r@ == (owner@, models_of(param_types@)),
    {
        JvmConstructorKey { owner: Fqn::new(owner), param_types }
    }
}

impl Clone for JvmConstructorKey {
    fn clone(&self) -> (r: Self)
        ensures
            r@ == self@,
    {
        self.clone_key()
    }
}

impl SimpleNamed for JvmConstructorKey {
    open spec fn simple_name_of(v: (Seq<char>, Seq<TypeModel>)) -> Seq<char> {
        last_segment_spec(v.0)
    }

    fn simple_name(&self) -> (r: &str) {
        self.owner.simple_name()
    }
}

impl RegistryKey for JvmConstructorKey {
    fn same_key(&self, other: &Self) -> (b: bool) {
        self.owner.same(&other.owner) && same_types(&self.param_types, &other.param_types)
    }

    fn clone_key(&self) -> (r: Self) {
        JvmConstructorKey {
            owner: self.owner.duplicate(),
            param_types: duplicate_all(&self.param_types),
        }
    }
}

} // verus!
