//! The configuration of a RocksDB store.

use crate::error::{Error, ErrorModel};
use crate::store::memory::config::{default_name, name_or_default};
use vstd::prelude::*;

verus! {

/// Which collection is used where none is named.
#[derive(Clone, Debug, PartialEq, Eq)]
pub struct RocksDBConfig {
    pub default_collection: String,
}

impl RocksDBConfig {
    pub fn new(default_collection: Option<String>) -> (config: Self)
        ensures
            config.default_collection@ == default_name(default_collection),
    {
        RocksDBConfig { default_collection: name_or_default(default_collection) }
    }
}

impl Default for RocksDBConfig {
    fn default() -> (config: Self)
        ensures
            config.default_collection@ == "default_collection"@,
    {
        RocksDBConfig::new(None)
    }
}

/// The error for a request that the database could not carry out, given the database's words.
pub fn map_rocksdb_err(message: String) -> (error: Error)
    ensures
        error@ == (ErrorModel::StoreConnection { message: message@ }),
{
    Error::StoreConnection { message }
}

} // verus!
