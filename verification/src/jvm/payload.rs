//! The JVM-projection node payloads: what the JVM can express about a
//! declaration, and the registry key each one is filed under.
use vstd::prelude::*;

use crate::jvm::annotation::AnnotationInstance;
use crate::jvm::constant::ConstantValue;
use crate::jvm::fqn::Fqn;
use crate::jvm::keys::{JvmConstructorKey, JvmFieldKey, JvmMethodKey, JvmTypeKey, PackageKey};
use crate::jvm::record::RecordComponent;
use crate::modifier::Modifier;
use crate::primitives::Location;
use crate::text::IntoText;
use crate::type_ref::{duplicate_all, models_of, TypeModel, TypeParam, TypeRef};

verus! {

#[derive(Debug, Clone, Copy, PartialEq, Eq, Hash, Structural)]
pub enum JvmTypeKind {
    Class,
    Interface,
    Enum,
    Record,
    Annotation,
}

/// Facts about a declaration that JVM languages add on top of bytecode.
#[derive(Debug, Clone, Default, PartialEq, Eq)]
pub struct JvmEnrichments {
    pub nullability: Option<NullabilityInfo>,
}

#[derive(Debug, Clone, Copy, PartialEq, Eq, Hash, Structural)]
pub enum NullabilityInfo {
    NonNull,
    Nullable,
}

/// What every JVM declaration carries: its simple name, FQN, source
/// location (none for compiled artifacts), modifiers and annotations.
#[derive(Debug, PartialEq)]
pub struct JvmDeclHeader {
    pub name: String,
    pub fqn: Fqn,
    pub location: Option<Location>,
    pub modifiers: Vec<Modifier>,
    pub annotations: Vec<AnnotationInstance>,
}

impl JvmDeclHeader {
    /// A header with no location, modifiers or annotations.
    pub fn new<N: IntoText, F: IntoText>(name: N, fqn: F) -> (r: Self)
        ensures
            r.name@ == name@,
            r.fqn@ == fqn@,
            r.location is None,
            r.modifiers@.len() == 0,
            r.annotations@.len() == 0,
    {
        JvmDeclHeader {
            name: name.into_text(),
            fqn: Fqn::new(fqn),
            location: None,
            modifiers: Vec::new(),
            annotations: Vec::new(),
        }
    }
}

#[derive(Debug, PartialEq)]
pub struct JvmTypeNode {
    pub header: JvmDeclHeader,
    pub kind: JvmTypeKind,
    pub type_parameters: Vec<TypeParam>,
    pub record_components: Vec<RecordComponent>,
    pub enrichments: JvmEnrichments,
}

#[derive(Debug, PartialEq)]
pub struct JvmParameter {
    pub name: String,
    pub param_type: TypeRef,
    pub is_varargs: bool,
    pub enrichments: JvmEnrichments,
}

#[derive(Debug, PartialEq)]
pub struct JvmMethodNode {
    pub header: JvmDeclHeader,
    pub owner: Fqn,
    pub return_type: TypeRef,
    pub parameters: Vec<JvmParameter>,
    pub type_parameters: Vec<TypeParam>,
    pub throws: Vec<TypeRef>,
    pub enrichments: JvmEnrichments,
}

/// The declared types of a parameter list, in order.
pub open spec fn param_types(ps: Seq<JvmParameter>) -> Seq<TypeModel>
    decreases ps.len(),
{
    if ps.len() == 0 {
        Seq::empty()
    } else {
        param_types(ps.drop_last()).push(ps.last().param_type@)
    }
}

/// A copy of the declared types of `ps`.
fn types_of_params(ps: &Vec<JvmParameter>) -> (r: Vec<TypeRef>)
    ensures
        models_of(r@) == param_types(ps@),
{
    let mut r: Vec<TypeRef> = Vec::new();
    let mut i: usize = 0;
    while i < ps.len()
        invariant
            i <= ps@.len(),
            models_of(r@) == param_types(ps@.take(i as int)),
        decreases ps.len() - i,
    {
        let t = ps[i].param_type.duplicate();
        let ghost before = r@;
        r.push(t);
        proof {
            assert(r@.drop_last() =~= before);
            assert(ps@.take(i + 1).drop_last() =~= ps@.take(i as int));
        }
        i += 1;
    }
    proof {
        assert(ps@.take(ps@.len() as int) =~= ps@);
    }
    r
}

impl JvmMethodNode {
    /// The method's registry key: owner, name and parameter types.
    pub fn key(&self) -> (k: JvmMethodKey)
        ensures
            k@ == (self.owner@, self.header.name@, param_types(self.parameters@)),
    {
        JvmMethodKey::new(
            self.owner.duplicate(),
            self.header.name.as_str(),
            types_of_params(&self.parameters),
        )
    }
}

#[derive(Debug, PartialEq)]
pub struct JvmConstructorNode {
    pub header: JvmDeclHeader,
    pub owner: Fqn,
    pub parameters: Vec<JvmParameter>,
    pub type_parameters: Vec<TypeParam>,
    pub throws: Vec<TypeRef>,
}

impl JvmConstructorNode {
    /// The constructor's registry key: owner and parameter types.
    pub fn key(&self) -> (k: JvmConstructorKey)
        ensures
            k@ == (self.owner@, param_types(self.parameters@)),
    {
        JvmConstructorKey::new(self.owner.duplicate(), types_of_params(&self.parameters))
    }
}

#[derive(Debug, PartialEq)]
pub struct JvmFieldNode {
    pub header: JvmDeclHeader,
    pub owner: Fqn,
    pub field_type: TypeRef,
    pub constant_value: Option<ConstantValue>,
    pub initialized: bool,
    pub enrichments: JvmEnrichments,
}

impl JvmFieldNode {
    /// The field's registry key: owner and name.
    pub fn key(&self) -> (k: JvmFieldKey)
        ensures
            k@ == (self.owner@, self.header.name@),
    {
        JvmFieldKey::new(self.owner.duplicate(), self.header.name.as_str())
    }
}

#[derive(Debug, PartialEq)]
pub struct JvmEnumConstantNode {
    pub header: JvmDeclHeader,
    pub enum_owner: Fqn,
}

impl JvmEnumConstantNode {
    /// An enum constant is filed as a field of its enum.
    pub fn key(&self) -> (k: JvmFieldKey)
        ensures
            k@ == (self.enum_owner@, self.header.name@),
    {
        JvmFieldKey::new(self.enum_owner.duplicate(), self.header.name.as_str())
    }
}

#[derive(Debug, PartialEq)]
pub struct JvmAnnotationElementNode {
    pub header: JvmDeclHeader,
    pub owner: Fqn,
    pub element_type: TypeRef,
    pub default_value: Option<ConstantValue>,
}

impl JvmAnnotationElementNode {
    /// An annotation element is filed as a method without parameters.
    pub fn key(&self) -> (k: JvmMethodKey)
        ensures
            k@ == (self.owner@, self.header.name@, Seq::<TypeModel>::empty()),
    {
        let k = JvmMethodKey::new(self.owner.duplicate(), self.header.name.as_str(), Vec::new());
        proof {
            assert(models_of(Seq::<TypeRef>::empty()) =~= Seq::<TypeModel>::empty());
        }
        k
    }
}

#[derive(Debug, PartialEq)]
pub struct JvmPackageNode {
    pub header: JvmDeclHeader,
}

impl JvmPackageNode {
    /// A package is filed under its dotted name.
    pub fn key(&self) -> (k: PackageKey)
        ensures
            k@ == self.header.fqn@,
    {
        PackageKey::new(self.header.fqn.duplicate())
    }
}

/// A JVM-projection node.
#[derive(Debug, PartialEq)]
pub enum JvmNodePayload {
    Type(JvmTypeNode),
    Method(JvmMethodNode),
    Constructor(JvmConstructorNode),
    Field(JvmFieldNode),
    EnumConstant(JvmEnumConstantNode),
    AnnotationElement(JvmAnnotationElementNode),
    Parameter(JvmParameter),
    Package(JvmPackageNode),
}

/// The declaration header of a JVM node (parameters have none).
pub open spec fn jvm_header_of(p: JvmNodePayload) -> Option<JvmDeclHeader> {
    match p {
        JvmNodePayload::Type(n) => Some(n.header),
        JvmNodePayload::Method(n) => Some(n.header),
        JvmNodePayload::Constructor(n) => Some(n.header),
        JvmNodePayload::Field(n) => Some(n.header),
        JvmNodePayload::EnumConstant(n) => Some(n.header),
        JvmNodePayload::AnnotationElement(n) => Some(n.header),
        JvmNodePayload::Package(n) => Some(n.header),
        JvmNodePayload::Parameter(_) => None,
    }
}

impl JvmNodePayload {
    /// The declaration header, if the node has one.
    pub fn header(&self) -> (r: Option<&JvmDeclHeader>)
        ensures
            match r {
                Some(h) => jvm_header_of(*self) == Some(*h),
                None => jvm_header_of(*self) is None,
            },
    {
        match self {
            JvmNodePayload::Type(n) => Some(&n.header),
            JvmNodePayload::Method(n) => Some(&n.header),
            JvmNodePayload::Constructor(n) => Some(&n.header),
            JvmNodePayload::Field(n) => Some(&n.header),
            JvmNodePayload::EnumConstant(n) => Some(&n.header),
            JvmNodePayload::AnnotationElement(n) => Some(&n.header),
            JvmNodePayload::Package(n) => Some(&n.header),
            JvmNodePayload::Parameter(_) => None,
        }
    }
}

} // verus!
