//! Compile-time constant values of fields and annotation elements.
use vstd::prelude::*;

verus! {

/// A constant value. A floating-point constant is kept as the bit
/// pattern of its `f64` (`f64::to_bits`): the library stores and compares
/// it, never computes with it.
#[derive(Debug, Clone, PartialEq)]
pub enum ConstantValue {
    Int(i64),
    Float(u64),
    String(String),
    Bool(bool),
    Char(char),
    Null,
}

} // verus!
