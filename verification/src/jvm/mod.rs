//! JVM interop layer — the shared vocabulary every JVM language projects
//! into: fully-qualified names and the typed registry keys.

pub mod annotation;
pub mod constant;
pub mod container;
pub mod fqn;
pub mod keys;
pub mod payload;
pub mod record;
pub mod registries;
pub mod signature;

pub use fqn::Fqn;
pub use keys::{JvmConstructorKey, JvmFieldKey, JvmMethodKey, JvmTypeKey, PackageKey};
pub use registries::JvmRegistries;
pub use crate::type_ref::{PrimitiveKind, TypeParam, TypeRef, WildcardBound};
pub use annotation::{AnnotationInstance, AnnotationValue};
pub use constant::ConstantValue;
pub use payload::{
    JvmAnnotationElementNode, JvmConstructorNode, JvmDeclHeader, JvmEnrichments,
    JvmEnumConstantNode, JvmFieldNode, JvmMethodNode, JvmNodePayload, JvmPackageNode,
    JvmParameter, JvmTypeKind, JvmTypeNode, NullabilityInfo,
};
pub use record::RecordComponent;
pub use crate::modifier::Modifier;
pub use crate::symbol_kind::SymbolKind;
