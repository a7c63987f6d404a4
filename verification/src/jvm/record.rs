//! Record components (JLS §8.10.1).
use vstd::prelude::*;

use crate::type_ref::TypeRef;

verus! {

/// One component of a record header: its name and declared type.
#[derive(Debug, PartialEq)]
pub struct RecordComponent {
    pub name: String,
    pub component_type: TypeRef,
}

} // verus!
