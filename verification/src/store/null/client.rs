//! The client and the configuration of a store that keeps nothing.

use vstd::prelude::*;

verus! {

/// There is nothing to connect to.
#[derive(Debug, Clone, Copy, PartialEq, Eq, Structural)]
pub struct NullClient;

impl NullClient {
    pub fn new() -> (client: Self)
        ensures
            client == NullClient,
    {
        NullClient
    }
}

impl Default for NullClient {
    fn default() -> (client: Self)
        ensures
            client == NullClient,
    {
        NullClient::new()
    }
}

/// There is nothing to set up.
#[derive(Debug, Clone, Copy, PartialEq, Eq, Structural)]
pub struct NullConfig;

} // verus!
