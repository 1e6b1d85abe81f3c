//! The place of the refresh token in the keyring of the desktop.
use vstd::prelude::*;
use vstd::string::*;

verus! {

/// Names the keyring entry that holds the refresh token.
pub struct TokenStorage {
    service: String,
}

impl TokenStorage {
    /// The storage under the service name of the application.
    pub fn new() -> (storage: Self)
        ensures
            storage.service_spec() == "org.gnome.FedoraDrive"@,
    {
        TokenStorage { service: String::from_str("org.gnome.FedoraDrive") }
    }

    /// The service name of the keyring entry.
    pub closed spec fn service_spec(&self) -> Seq<char> {
        self.service@
    }

    /// The service name of the keyring entry.
    pub fn service(&self) -> (name: &str)
        ensures
            name@ == self.service_spec(),
    {
        self.service.as_str()
    }

    /// The entries of the keyring, each as `(service, account)`, that are to
    /// be deleted so that no credential is left: the one entry of the refresh
    /// token. That an entry is not there is no failure.
    pub fn clear_all_credentials(&self) -> (entries: Vec<(String, String)>)
        ensures
            entries@.len() == 1,
            entries@[0].0@ == self.service_spec(),
            entries@[0].1@ == "refresh_token"@,
    {
        let mut entries: Vec<(String, String)> = Vec::new();
        entries.push((self.service.clone(), String::from_str("refresh_token")));
        entries
    }

    /// The account name of the keyring entry.
    pub fn account(&self) -> (name: &'static str)
        ensures
            name@ == "refresh_token"@,
    {
        "refresh_token"
    }
}

} // verus!
