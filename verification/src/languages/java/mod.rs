//! Java language module: the Java-side key, registry bag and payloads,
//! the line-based syntactic helpers, and the Java-local type shape.

pub mod diagnostics;
pub mod keys;
pub mod parser;
pub mod payload;
pub mod registries;
pub mod syntax;
pub mod tree;
pub mod types;

pub use keys::JavaSymbolKey;
pub use payload::{
    JavaAnnotationElementNode, JavaConstructorNode, JavaDeclHeader, JavaEnumConstantNode,
    JavaFieldNode, JavaMethodNode, JavaNodePayload, JavaPackageNode, JavaParameter,
    JavaTypeKind, JavaTypeNode,
};
pub use registries::JavaRegistries;
pub use syntax::{extract_imports, extract_package, word_at_position, Import};
