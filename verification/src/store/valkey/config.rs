//! The configuration of a Valkey store.

use crate::error::{Error, ErrorModel};
use crate::store::memory::config::{default_name, name_or_default};
use crate::utils::compound::Subspace;
use vstd::prelude::*;

verus! {

/// Which collection is used where none is named, and the namespace of the keys.
#[derive(Clone, Debug, PartialEq, Eq)]
pub struct ValkeyConfig {
    pub default_collection: String,
    pub keyspace: Subspace,
}

impl ValkeyConfig {
    pub fn new(default_collection: Option<String>) -> (config: Self)
        ensures
            config.default_collection@ == default_name(default_collection),
            config.keyspace@ == Seq::<char>::empty(),
    {
        ValkeyConfig {
            default_collection: name_or_default(default_collection),
            keyspace: Subspace::default(),
        }
    }

    /// The same configuration with another namespace.
    pub fn with_keyspace(self, keyspace: &str) -> (config: Self)
        ensures
            config.default_collection == self.default_collection,
            config.keyspace@ == keyspace@,
    {
        ValkeyConfig {
            default_collection: self.default_collection,
            keyspace: Subspace::new(keyspace),
        }
    }
}

impl Default for ValkeyConfig {
    fn default() -> (config: Self)
        ensures
            config.default_collection@ == "default_collection"@,
            config.keyspace@ == Seq::<char>::empty(),
    {
        ValkeyConfig::new(None)
    }
}

/// The error for a request that the client could not carry out, given the client's words.
pub fn map_valkey_err(message: String) -> (error: Error)
    ensures
        error@ == (ErrorModel::StoreConnection { message: message@ }),
{
    Error::StoreConnection { message }
}

} // verus!
