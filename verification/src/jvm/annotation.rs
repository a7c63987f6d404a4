//! Annotation instances as the JVM sees them.
use vstd::prelude::*;

use crate::jvm::constant::ConstantValue;
use crate::type_ref::TypeRef;

verus! {

/// One annotation use: the annotation type's FQN and its element values.
#[derive(Debug, PartialEq)]
pub struct AnnotationInstance {
    pub fqn: String,
    pub elements: Vec<(String, AnnotationValue)>,
}

/// The value of one annotation element.
#[derive(Debug, PartialEq)]
pub enum AnnotationValue {
    Const(ConstantValue),
    ClassLiteral(TypeRef),
    EnumRef { type_fqn: String, constant: String },
    Annotation(Box<AnnotationInstance>),
    Array(Vec<AnnotationValue>),
}

} // verus!
