//! The synchronizer: the first walk over the remote account, the pull of
//! remote changes, and the push of local ones.
pub mod bootstrap;
pub mod syncer;
pub mod uploader;
