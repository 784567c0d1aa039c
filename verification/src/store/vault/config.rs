//! The configuration of a Vault store.

use crate::store::memory::config::{default_name, name_or_default};
use crate::error::{Error, ErrorModel};
use vstd::prelude::*;

verus! {

/// Which mount a store uses, and which collection where none is named.
#[derive(Clone, Debug, PartialEq, Eq)]
pub struct VaultConfig {
    pub default_collection: String,
    pub mount_point: String,
}

/// The mount that an optional name stands for.
pub open spec fn mount_of(given: Option<String>) -> Seq<char> {
    match given {
        Some(name) => name@,
        None => "secret"@,
    }
}

impl VaultConfig {
    pub fn new(default_collection: Option<String>, mount_point: Option<String>) -> (config: Self)
        ensures
            config.default_collection@ == default_name(default_collection),
            config.mount_point@ == mount_of(mount_point),
    {
        VaultConfig {
            default_collection: name_or_default(default_collection),
            mount_point: match mount_point {
                Some(name) => name,
                None => "secret".to_owned(),
            },
        }
    }
}

impl Default for VaultConfig {
    fn default() -> (config: Self)
        ensures
            config.default_collection@ == "default_collection"@,
            config.mount_point@ == "secret"@,
    {
        VaultConfig::new(None, None)
    }
}

/// The error for a request that the client could not carry out, given the client's words.
pub fn map_vault_err(message: String) -> (error: Error)
    ensures
        error@ == (ErrorModel::StoreConnection { message: message@ }),
{
    Error::StoreConnection { message }
}

/// A store uses the mount that is named, and `secret` where none is.
pub proof fn law_mount(name: String)
    ensures
        mount_of(Some(name)) == name@,
        mount_of(None) == "secret"@,
{
}

} // verus!
