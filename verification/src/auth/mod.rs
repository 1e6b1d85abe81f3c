//! Where the credentials of the account are kept.
pub mod keyring;
