//! The filesystem as the kernel sees it: attributes, shortcuts for native
//! cloud documents, and the operations on files and directories.
pub mod attr;
pub mod blob;
pub mod cache;
pub mod changes;
pub mod directory;
pub mod filesystem;
pub mod shortcuts;
