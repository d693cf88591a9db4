//! Bidirectional label/code registries for unit-only enumerations.
//!
//! A table is resolved from an ordered list of declarations: each label takes
//! its explicit code, or the code after the previous one (0 for the first).
//! Explicit codes may not step back. A registry over a table answers lookups in
//! both directions through caches that are built on first use and then kept.

pub mod declaration;
pub mod linked_map;
pub mod registry;
pub mod table;

pub use declaration::{BuildError, Declaration, Discriminant};
pub use registry::{LookupError, Registry};
pub use table::Table;
