//! A local, content-addressed mirror of a compact-index package registry.
//!
//! The library holds the data model of a mirror (gems, namespaces, indices),
//! the merge rule that protects downloaded state, the compact-index parsers,
//! content integrity identifiers, the store capabilities with an in-memory
//! store, and the decisions of a synchronisation run. The network and the
//! file system are driven from outside: a run is an `IndexSync` session that
//! names each fetch and records each answer.

pub mod integrity;
pub mod model;
pub mod error;
pub mod text;
pub mod parse;
pub mod store;
pub mod sync;
pub mod session;
