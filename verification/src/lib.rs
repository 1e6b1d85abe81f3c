//! A remote drive as a local filesystem: the metadata store with its rules,
//! the operations of the filesystem, the cache of byte ranges, and the
//! synchronizer that pulls remote changes and pushes local ones.
//!
//! The library decides and keeps the books; it does no input or output.
//! Every operation takes what it needs to know of the world as arguments,
//! the time and the length of a local copy among them, and says in its
//! contract what it leaves in the store and what it answers.
use vstd::prelude::*;

pub mod auth;
pub mod calendar;
pub mod config;
pub mod db;
pub mod fuse;
pub mod gdrive;
pub mod gui;
pub mod ipc;
pub mod ranges;
pub mod sync;
pub mod table;
pub mod text;
pub mod utils;

verus! {

} // verus!
