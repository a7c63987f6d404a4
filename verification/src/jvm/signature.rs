//! Declaration signatures: what a method, field, class, record or
//! annotation element declares beyond its name.
use vstd::prelude::*;

pub use crate::jvm::constant::ConstantValue;
pub use crate::jvm::record::RecordComponent;
use crate::type_ref::{TypeParam, TypeRef};

verus! {

#[derive(Debug, PartialEq)]
pub enum Signature {
    Method {
        return_type: TypeRef,
        parameters: Vec<MethodParam>,
        type_parameters: Vec<TypeParam>,
        throws: Vec<TypeRef>,
    },
    Field { field_type: TypeRef, constant_value: Option<ConstantValue>, initialized: bool },
    Class { type_parameters: Vec<TypeParam> },
    Record { type_parameters: Vec<TypeParam>, components: Vec<RecordComponent> },
    AnnotationElement { element_type: TypeRef, default_value: Option<ConstantValue> },
}

/// One formal parameter of a method or constructor.
#[derive(Debug, PartialEq)]
pub struct MethodParam {
    pub name: String,
    pub param_type: TypeRef,
    pub is_varargs: bool,
}

} // verus!
