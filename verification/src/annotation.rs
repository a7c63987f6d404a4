//! Annotation instances of the symbol-table model (shared with the JVM
//! layer).

pub use crate::jvm::annotation::{AnnotationInstance, AnnotationValue};
