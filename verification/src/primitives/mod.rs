//! Source vocabulary shared by every layer.

pub mod location;

pub use location::Location;
