//! The failures of the remote service.
use vstd::prelude::*;
use vstd::string::*;

verus! {

/// Why a call of the remote service failed.
#[derive(Debug)]
pub enum DriveError {
    /// The account may not do this, as with a shared file that it cannot
    /// delete.
    InsufficientPermissions(String),
    /// The network failed.
    Network(String),
    /// The service answered with an error.
    ApiError(String),
    /// The credentials were refused.
    Auth(String),
    /// Anything else.
    Other(String),
}

impl DriveError {
    /// Whether the failure is permanent: a new attempt would fail again.
    pub fn is_permanent(&self) -> (r: bool)
        ensures
            r == (*self is InsufficientPermissions),
    {
        match self {
            DriveError::InsufficientPermissions(_) => true,
            _ => false,
        }
    }
}

} // verus!
