//! What the remote service answers.
pub mod error;
