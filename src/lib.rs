//! Documentation extracted from a package's source tree, kept in a
//! per-package cache, and looked up by symbol name.

pub mod model;
pub mod extract;
pub mod paths;
pub mod order;
pub mod store;
pub mod query;
pub mod generate;
pub mod laws;
