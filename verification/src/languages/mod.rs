//! Per-language modules.

pub mod java;
pub mod kotlin;
pub mod scala;
