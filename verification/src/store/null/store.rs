//! A store that accepts every operation and keeps nothing.

use crate::store::null::client::{NullClient, NullConfig};
use crate::value::Value;
use vstd::prelude::*;

verus! {

/// A store that accepts every operation and keeps nothing: for tests, and as a fallback that does
/// nothing.
#[derive(Debug, Clone, Copy, PartialEq, Eq, Structural)]
pub struct NullStore {
    client: NullClient,
    config: NullConfig,
}

impl NullStore {
    pub fn new() -> (store: Self)
        ensures
            store.configuration() == NullConfig,
    {
        NullStore::with_config(NullConfig)
    }

    pub closed spec fn configuration(&self) -> NullConfig {
        self.config
    }

    pub fn with_config(config: NullConfig) -> (store: Self)
        ensures
            store.configuration() == config,
    {
        NullStore { client: NullClient::new(), config }
    }

    /// Nothing is found.
    pub fn get(&self, _key: &str, _collection: Option<&str>) -> (value: Option<Value>)
        ensures
            value is None,
    {
        None
    }

    /// Nothing is found.
    pub fn ttl(&self, _key: &str, _collection: Option<&str>) -> (value: Option<
        (Value, Option<u64>),
    >)
        ensures
            value is None,
    {
        None
    }

    /// The value is dropped.
    pub fn put(
        &mut self,
        _key: &str,
        _value: Value,
        _collection: Option<&str>,
        _ttl: Option<i64>,
    )
        ensures
            *final(self) == *old(self),
    {
    }

    /// Nothing is there to delete.
    pub fn delete(&mut self, _key: &str, _collection: Option<&str>) -> (deleted: bool)
        ensures
            !deleted,
            *final(self) == *old(self),
    {
        false
    }

    /// Nothing is found, as often as there are keys.
    pub fn get_many(&self, keys: &Vec<String>, _collection: Option<&str>) -> (values: Vec<
        Option<Value>,
    >)
        ensures
            values@ == Seq::new(keys@.len(), |i: int| None::<Value>),
    {
        let mut values: Vec<Option<Value>> = Vec::new();
        let mut i: usize = 0;
        while i < keys.len()
            invariant
                i <= keys@.len(),
                values@ =~= Seq::new(i as nat, |j: int| None::<Value>),
            decreases keys@.len() - i,
        {
            values.push(None);
            i += 1;
        }
        values
    }

    /// Nothing is found, as often as there are keys.
    pub fn ttl_many(&self, keys: &Vec<String>, _collection: Option<&str>) -> (values: Vec<
        Option<(Value, Option<u64>)>,
    >)
        ensures
            values@ == Seq::new(keys@.len(), |i: int| None::<(Value, Option<u64>)>),
    {
        let mut values: Vec<Option<(Value, Option<u64>)>> = Vec::new();
        let mut i: usize = 0;
        while i < keys.len()
            invariant
                i <= keys@.len(),
                values@ =~= Seq::new(i as nat, |j: int| None::<(Value, Option<u64>)>),
            decreases keys@.len() - i,
        {
            values.push(None);
            i += 1;
        }
        values
    }

    /// The values are dropped; not even their number is looked at.
    pub fn put_many(
        &mut self,
        _keys: &Vec<String>,
        _values: &Vec<Value>,
        _collection: Option<&str>,
        _ttl: Option<i64>,
    )
        ensures
            *final(self) == *old(self),
    {
    }

    /// Nothing is there to delete.
    pub fn delete_many(&mut self, _keys: &Vec<String>, _collection: Option<&str>) -> (count: usize)
        ensures
            count == 0,
            *final(self) == *old(self),
    {
        0
    }

    /// Nothing can have expired.
    pub fn cull(&mut self)
        ensures
            *final(self) == *old(self),
    {
    }

    /// There are no keys.
    pub fn keys(&self, _collection: Option<&str>, _limit: Option<usize>) -> (keys: Vec<String>)
        ensures
            keys@.len() == 0,
    {
        Vec::new()
    }

    /// There are no collections.
    pub fn collections(&self, _limit: Option<usize>) -> (names: Vec<String>)
        ensures
            names@.len() == 0,
    {
        Vec::new()
    }

    /// There is no collection to destroy.
    pub fn destroy_collection(&mut self, _collection: &str) -> (destroyed: bool)
        ensures
            !destroyed,
            *final(self) == *old(self),
    {
        false
    }

    /// The store is as good as destroyed.
    pub fn destroy(&mut self) -> (destroyed: bool)
        ensures
            destroyed,
            *final(self) == *old(self),
    {
        true
    }
}

impl Default for NullStore {
    fn default() -> (store: Self)
        ensures
            store.configuration() == NullConfig,
    {
        NullStore::new()
    }
}

} // verus!
