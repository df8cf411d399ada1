//! Compact URIs (CURIEs): a registry that maps prefix names to base
//! identifiers, expands compact identifiers into full ones, and shrinks
//! full identifiers back into compact form.
pub mod curie;
pub mod laws;
pub mod registry;
mod text;

pub use curie::{Curie, CurieView};
pub use registry::{ExpansionError, InvalidPrefixError, PrefixMapping, RegistryView};
