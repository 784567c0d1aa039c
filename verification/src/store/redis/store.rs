//! What a Redis store asks for.

use crate::error::{ErrorModel, Result};
use crate::entry::entry_for;
use crate::store::page::{page_limit, page_size};
use crate::store::redis::config::RedisConfig;
use crate::store::redis::feed::{CHANGE_REVISION_KEY, CHANGE_STREAM_KEY};
use crate::store::redis::scan::{
    check_doomed, foreign_fault, prefix_pattern, scan_pattern, NameScan, ScanTarget,
};
use crate::store::redis::write::{fresh_write, identities, identities_of, write_of, SlotWrite};
use crate::text::texts;
use crate::utils::compound::{collection_prefix, compound, compound_key, framed, Subspace};
use crate::value::Value;
use vstd::prelude::*;
#[allow(unused_imports)]
use vstd::string::*;

verus! {

/// A store in Redis.
///
/// Each collection is the prefix of a group of keys, and each slot holds an entry in an envelope
/// with its revision. The server drops what has expired.
pub struct RedisStore {
    config: RedisConfig,
}

/// The pattern for all keys of a collection.
pub fn collection_scan_pattern(collection: &str) -> (pattern: String)
    ensures
        pattern@ == prefix_pattern(framed(collection@)),
{
    scan_pattern(collection_prefix(collection).as_str())
}

impl RedisStore {
    /// The collection that is used where none is named.
    pub closed spec fn default_collection(&self) -> Seq<char> {
        self.config.default_collection@
    }

    /// The collection that an optional name stands for.
    pub open spec fn named(&self, collection: Option<&str>) -> Seq<char> {
        match collection {
            Some(n) => n@,
            None => self.default_collection(),
        }
    }

    pub fn with_config(config: RedisConfig) -> (store: Self)
        ensures
            store.default_collection() == config.default_collection@,
    {
        RedisStore { config }
    }

    /// The collection that an optional name stands for.
    pub fn collection_name<'a>(&'a self, collection: Option<&'a str>) -> (name: &'a str)
        ensures
            name@ == self.named(collection),
    {
        match collection {
            Some(name) => name,
            None => self.config.default_collection.as_str(),
        }
    }

    /// The key in the server for a key of a collection.
    pub fn identity(&self, key: &str, collection: Option<&str>) -> (identity: String)
        ensures
            identity@ == compound(self.named(collection), key@),
    {
        compound_key(self.collection_name(collection), key)
    }

    /// The keys in the server for some keys of a collection.
    pub fn identities(&self, keys: &Vec<String>, collection: Option<&str>) -> (list: Vec<String>)
        ensures
            texts(list@) == identities_of(Seq::empty(), self.named(collection), texts(keys@)),
    {
        identities(&Subspace::default(), self.collection_name(collection), keys)
    }

    /// Prepares the write of a value under a key with a fresh revision.
    pub fn prepare_put(
        &self,
        key: &str,
        value: Value,
        collection: Option<&str>,
        ttl: Option<i64>,
        now: i64,
    ) -> (write: Result<SlotWrite>)
        ensures
            match write {
                Ok(w) => write_of(
                    Seq::empty(),
                    self.named(collection),
                    key@,
                    value@,
                    ttl,
                    w.revision@,
                    now,
                ) == Ok::<_, ErrorModel>(w@),
                Err(e) => match entry_for(value@, ttl, now) {
                    Err(fault) => e@ == fault,
                    Ok(_) => e@ is RevisionGeneration,
                },
            },
    {
        fresh_write(
            &Subspace::default(),
            self.collection_name(collection),
            key,
            value,
            ttl,
            now,
        )
    }

    /// A scan for the keys of a collection, as many as a page holds.
    pub fn scan_keys(&self, collection: Option<&str>, limit: Option<usize>) -> (scan: NameScan)
        ensures
            scan.wf(),
            scan.found() == Set::<Seq<char>>::empty(),
            scan.limit() matches Some(n) && n == page_size(limit),
            scan.target() matches ScanTarget::Keys { server, prefix, collection: name }
                && server@ == "Redis"@ && prefix@ == Seq::<char>::empty() && name@ == self.named(
                collection,
            ),
    {
        let name = self.collection_name(collection).to_owned();
        let target = ScanTarget::Keys {
            server: "Redis".to_owned(),
            prefix: String::new(),
            collection: name,
        };
        NameScan::new(target, Some(page_limit(limit)))
    }

    /// A scan for the collections, as many as a page holds. The keys of the change feed belong to
    /// none.
    pub fn scan_collections(&self, limit: Option<usize>) -> (scan: NameScan)
        ensures
            scan.wf(),
            scan.found() == Set::<Seq<char>>::empty(),
            scan.limit() matches Some(n) && n == page_size(limit),
            scan.target() matches ScanTarget::Collections { internal } && texts(internal@) == seq![
                CHANGE_STREAM_KEY@,
                CHANGE_REVISION_KEY@,
            ],
    {
        let mut internal: Vec<String> = Vec::new();
        internal.push(CHANGE_STREAM_KEY.to_owned());
        internal.push(CHANGE_REVISION_KEY.to_owned());
        assert(texts(internal@) =~= seq![CHANGE_STREAM_KEY@, CHANGE_REVISION_KEY@]);
        NameScan::new(ScanTarget::Collections { internal }, Some(page_limit(limit)))
    }

    /// Checks that a batch of keys may be deleted with a collection, and says whether there is
    /// anything in it.
    pub fn check_doomed(collection: &str, batch: &Vec<String>) -> (any: Result<bool>)
        ensures
            ({
                let fault = foreign_fault(
                    "Redis"@,
                    Seq::empty(),
                    collection@,
                    texts(batch@),
                    batch@.len(),
                );
                match any {
                    Ok(b) => fault is None && b == (batch@.len() > 0),
                    Err(e) => fault == Some(e@),
                }
            }),
    {
        let prefix = String::new();
        check_doomed("Redis", prefix.as_str(), collection, batch)
    }
}

} // verus!
