//! Registry-and-projection core for browsing embedded graph databases.
//!
//! The library keeps a merged registry of database files (scanned from a root
//! directory plus explicitly registered ones) and projects heterogeneously
//! typed query result rows into a deduplicated, referentially consistent
//! node/link graph.

pub mod executor;
pub mod graph;
pub mod listing;
pub mod paths;
pub mod registry;
pub mod text;
pub mod value;
