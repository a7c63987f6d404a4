//! beans-core: the symbolic engine — a generational graph arena and the
//! typed-key registries that index it, plus the JVM / Java vocabulary
//! that projects into them.

pub mod annotation;
pub mod beans;
pub mod completion;
pub mod diagnostics;
pub mod fix;
pub mod graph;
pub mod integration;
pub mod interner;
pub mod jvm;
pub mod language;
pub mod languages;
pub mod location;
pub mod modifier;
pub mod multi_query;
pub mod payload;
pub mod primitives;
pub mod query;
pub mod registries;
pub mod registry;
pub mod resolve;
pub mod relation;
pub mod signature;
pub mod symbol;
pub mod symbol_id;
pub mod symbol_kind;
pub mod symbol_table;
pub mod text;
pub mod type_ref;

pub use query::{all_matches, first_match, ByFqn, Queryable};
pub use beans::Beans;
pub use multi_query::{MultiQuery, MultiSubscriptionHandle, RegistryQuery};
pub use diagnostics::{Diagnostic, DiagnosticSeverity};
pub use fix::{Fix, SourceEdit};
pub use modifier::Modifier;
pub use payload::NodePayload;
pub use primitives::Location;
pub use registries::Registries;
pub use symbol_id::SymbolId;
pub use symbol_kind::SymbolKind;
pub use type_ref::{PrimitiveKind, TypeRef};
pub use registry::{
    FallbackSubscription, Query, QueryResult, Registry, SimpleNamed, Subscription, Watch,
};
