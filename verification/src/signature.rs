//! Declaration signatures of the symbol-table model (shared with the JVM
//! layer).

pub use crate::jvm::signature::{ConstantValue, MethodParam, RecordComponent, Signature};
