//! Tracks nightly container builds and the commits they were built from:
//! reads build identifiers out of registry tags, merges them into a
//! persisted set of nightlies, finds the first nightly that contains a
//! change by walking the commit graph, and renders the report of what
//! changed between two nightlies.

pub mod diff;
pub mod error;
pub mod locate;
pub mod nightly;
pub mod order;
pub mod registry;
pub mod repo;
pub mod report;
pub mod select;
pub mod text;
pub mod time;
