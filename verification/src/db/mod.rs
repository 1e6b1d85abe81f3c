//! The metadata store: the tables of inodes, attributes, directory entries,
//! tombstones, sync state, cached chunks and key/value pairs.
pub mod laws;
pub mod model;
pub mod repository;
pub mod rules;
pub mod schema;
