//! The configuration of a MongoDB store.

use crate::store::memory::config::{default_name, name_or_default};
use vstd::prelude::*;

verus! {

/// The database that is used where none is named.
pub const DEFAULT_DB: &'static str = "kv_store";

/// Which collection is used where none is named.
#[derive(Clone, Debug, PartialEq, Eq)]
pub struct MongoConfig {
    pub default_collection: String,
}

impl MongoConfig {
    pub fn new(default_collection: Option<String>) -> (config: Self)
        ensures
            config.default_collection@ == default_name(default_collection),
    {
        MongoConfig { default_collection: name_or_default(default_collection) }
    }
}

} // verus!
