//! The configuration of an S3 store.

use crate::store::memory::config::{default_name, name_or_default};
use crate::error::{Error, ErrorModel};
use vstd::prelude::*;

verus! {

/// Which bucket a store uses, and which collection where none is named.
#[derive(Clone, Debug, PartialEq, Eq)]
pub struct S3Config {
    pub bucket_name: String,
    pub default_collection: String,
}

impl S3Config {
    pub fn new(bucket_name: &str, default_collection: Option<String>) -> (config: Self)
        ensures
            config.bucket_name@ == bucket_name@,
            config.default_collection@ == default_name(default_collection),
    {
        S3Config {
            bucket_name: bucket_name.to_owned(),
            default_collection: name_or_default(default_collection),
        }
    }
}

/// The error for a request that could not be put together, given the client's words.
pub fn build_err(message: String) -> (error: Error)
    ensures
        error@ == (ErrorModel::StoreSetup { message: message@ }),
{
    Error::StoreSetup { message }
}

} // verus!
