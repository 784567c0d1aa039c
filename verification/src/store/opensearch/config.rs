//! The configuration of an OpenSearch store.

use crate::error::{Error, ErrorModel};
use vstd::prelude::*;

verus! {

/// What a store's indices start with, and which collection is used where none is named.
#[derive(Clone, Debug, PartialEq, Eq)]
pub struct OpenSearchConfig {
    pub index_prefix: String,
    pub default_collection: String,
}

impl OpenSearchConfig {
    pub fn new(index_prefix: &str) -> (config: Self)
        ensures
            config.index_prefix@ == index_prefix@,
            config.default_collection@ == "default_collection"@,
    {
        OpenSearchConfig {
            index_prefix: index_prefix.to_owned(),
            default_collection: "default_collection".to_owned(),
        }
    }
}

/// The error for a request that the client could not carry out, given the client's words.
pub fn map_os_err(message: String) -> (error: Error)
    ensures
        error@ == (ErrorModel::StoreConnection { message: message@ }),
{
    Error::StoreConnection { message }
}

} // verus!
