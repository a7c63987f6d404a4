//! Java-side node payloads: the Java source model of each declaration.
//! Every one of them is filed in the Java symbol registry under its FQN.
use vstd::prelude::*;

use crate::jvm::annotation::AnnotationInstance;
use crate::jvm::constant::ConstantValue;
use crate::jvm::fqn::Fqn;
use crate::jvm::record::RecordComponent;
use crate::modifier::Modifier;
use crate::primitives::Location;
use crate::text::IntoText;
use crate::type_ref::{TypeParam, TypeRef};

verus! {

#[derive(Debug, Clone, Copy, PartialEq, Eq, Hash, Structural)]
pub enum JavaTypeKind {
    Class,
    Interface,
    Enum,
    Record,
    Annotation,
}

/// What every Java declaration carries.
#[derive(Debug, PartialEq)]
pub struct JavaDeclHeader {
    pub name: String,
    pub fqn: Fqn,
    pub location: Option<Location>,
    pub modifiers: Vec<Modifier>,
    pub annotations: Vec<AnnotationInstance>,
}

impl JavaDeclHeader {
    /// A header with no location, modifiers or annotations.
    pub fn new<N: IntoText, F: IntoText>(name: N, fqn: F) -> (r: Self)
        ensures
            r.name@ == name@,
            r.fqn@ == fqn@,
            r.location is None,
            r.modifiers@.len() == 0,
            r.annotations@.len() == 0,
    {
        JavaDeclHeader {
            name: name.into_text(),
            fqn: Fqn::new(fqn),
            location: None,
            modifiers: Vec::new(),
            annotations: Vec::new(),
        }
    }
}

#[derive(Debug, PartialEq)]
pub struct JavaParameter {
    pub name: String,
    pub param_type: TypeRef,
    pub is_varargs: bool,
}

#[derive(Debug, PartialEq)]
pub struct JavaTypeNode {
    pub header: JavaDeclHeader,
    pub kind: JavaTypeKind,
    pub type_parameters: Vec<TypeParam>,
    pub record_components: Vec<RecordComponent>,
}

#[derive(Debug, PartialEq)]
pub struct JavaMethodNode {
    pub header: JavaDeclHeader,
    pub return_type: TypeRef,
    pub parameters: Vec<JavaParameter>,
    pub type_parameters: Vec<TypeParam>,
    pub throws: Vec<TypeRef>,
    /// The declaration carries a `{ ... }` body.
    pub has_body: bool,
}

#[derive(Debug, PartialEq)]
pub struct JavaConstructorNode {
    pub header: JavaDeclHeader,
    pub parameters: Vec<JavaParameter>,
    pub type_parameters: Vec<TypeParam>,
    pub throws: Vec<TypeRef>,
}

#[derive(Debug, PartialEq)]
pub struct JavaFieldNode {
    pub header: JavaDeclHeader,
    pub field_type: TypeRef,
    pub constant_value: Option<ConstantValue>,
    pub initialized: bool,
}

#[derive(Debug, PartialEq)]
pub struct JavaEnumConstantNode {
    pub header: JavaDeclHeader,
    pub enum_owner: Fqn,
}

#[derive(Debug, PartialEq)]
pub struct JavaAnnotationElementNode {
    pub header: JavaDeclHeader,
    pub element_type: TypeRef,
    pub default_value: Option<ConstantValue>,
}

#[derive(Debug, PartialEq)]
pub struct JavaPackageNode {
    pub header: JavaDeclHeader,
}

/// Where a type name is used, and the FQNs it may stand for, in the order
/// they are tried.
#[derive(Debug, PartialEq)]
pub struct JavaTypeUseHeader {
    pub location: Location,
    pub candidate_fqns: Vec<Fqn>,
}

/// A use of a type name in a Java file.
#[derive(Debug, PartialEq)]
pub struct JavaTypeUseNode {
    pub header: JavaTypeUseHeader,
}

/// A Java-side node.
#[derive(Debug, PartialEq)]
pub enum JavaNodePayload {
    Type(JavaTypeNode),
    Method(JavaMethodNode),
    Constructor(JavaConstructorNode),
    Field(JavaFieldNode),
    EnumConstant(JavaEnumConstantNode),
    AnnotationElement(JavaAnnotationElementNode),
    Parameter(JavaParameter),
    Package(JavaPackageNode),
    TypeUse(JavaTypeUseNode),
}

/// The declaration header of a Java node (parameters and type uses have
/// none).
pub open spec fn java_header_of(p: JavaNodePayload) -> Option<JavaDeclHeader> {
    match p {
        JavaNodePayload::Type(n) => Some(n.header),
        JavaNodePayload::Method(n) => Some(n.header),
        JavaNodePayload::Constructor(n) => Some(n.header),
        JavaNodePayload::Field(n) => Some(n.header),
        JavaNodePayload::EnumConstant(n) => Some(n.header),
        JavaNodePayload::AnnotationElement(n) => Some(n.header),
        JavaNodePayload::Package(n) => Some(n.header),
        JavaNodePayload::Parameter(_) => None,
        JavaNodePayload::TypeUse(_) => None,
    }
}

impl JavaNodePayload {
    /// The declaration header, if the node has one.
    pub fn header(&self) -> (r: Option<&JavaDeclHeader>)
        ensures
            match r {
                Some(h) => java_header_of(*self) == Some(*h),
                None => java_header_of(*self) is None,
            },
    {
        match self {
            JavaNodePayload::Type(n) => Some(&n.header),
            JavaNodePayload::Method(n) => Some(&n.header),
            JavaNodePayload::Constructor(n) => Some(&n.header),
            JavaNodePayload::Field(n) => Some(&n.header),
            JavaNodePayload::EnumConstant(n) => Some(&n.header),
            JavaNodePayload::AnnotationElement(n) => Some(&n.header),
            JavaNodePayload::Package(n) => Some(&n.header),
            JavaNodePayload::Parameter(_) => None,
            JavaNodePayload::TypeUse(_) => None,
        }
    }
}

} // verus!
