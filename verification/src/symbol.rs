//! The flat-record symbol of the symbol-table model: one struct for every
//! declared thing — class, method, field, package, parameter — whose
//! `kind` says which of the optional parts are meaningful.
use vstd::prelude::*;

use crate::jvm::annotation::AnnotationInstance;
use crate::jvm::signature::Signature;
use crate::modifier::Modifier;
use crate::primitives::location::Location;
use crate::relation::Relation;
use crate::symbol_id::SymbolId;
use crate::symbol_kind::SymbolKind;

verus! {

/// A declared element of the project.
///
/// `id`, `parent` and `children` form the containment tree; `relations`
/// carries the cross-tree edges (extends, implements, overrides);
/// `signature` carries the kind-specific structure, when there is any.
#[derive(Debug, PartialEq)]
pub struct Symbol {
    /// Handle into the owning symbol table.
    pub id: SymbolId,
    /// Fully qualified, dotted name (`com.example.Service.process`).
    pub fqn: String,
    /// Simple name as written.
    pub name: String,
    pub kind: SymbolKind,
    /// Source range of the declaration; `None` for symbols read from
    /// compiled artifacts and for synthetic ones.
    pub location: Option<Location>,
    /// Modifiers in source order.
    pub modifiers: Vec<Modifier>,
    pub annotations: Vec<AnnotationInstance>,
    /// Containing symbol; `None` only for top-level ones.
    pub parent: Option<SymbolId>,
    /// Contained symbols.
    pub children: Vec<SymbolId>,
    pub relations: Vec<Relation>,
    pub signature: Option<Signature>,
}

} // verus!
