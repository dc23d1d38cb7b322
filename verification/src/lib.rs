//! Read-only query logic of the OpenParts distribution API: an in-memory
//! index of parts, devices, packages and sources, the search and lookup
//! operations the HTTP layer serves, artifact content hashing, and the
//! decisions of the data loader.

pub mod config;
pub mod error;
pub mod hash;
pub mod keyed;
pub mod laws;
pub mod loader;
pub mod routes;
pub mod sort;
pub mod store;
pub mod text;
