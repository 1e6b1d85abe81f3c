//! Helpers around the mount point.
pub mod mount;
