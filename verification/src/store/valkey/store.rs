//! What a Valkey store asks for.

use crate::entry::entry_for;
use crate::error::{ErrorModel, Result};
use crate::store::batch::batch_fault;
use crate::store::page::{at_most, page_limit, page_size};
use crate::store::redis::scan::{
    check_doomed, collection_pattern, foreign_fault, prefix_pattern, scan_pattern, NameScan,
    ScanTarget,
};
use crate::store::redis::write::{
    fresh_write, fresh_writes, identities, identities_of, write_of, writes_batch, SlotWrite,
};
use crate::store::valkey::config::ValkeyConfig;
use crate::text::texts;
use crate::utils::compound::{compound, framed, subspace_compound_key, subspace_prefix, Subspace};
use crate::value::Value;
use vstd::prelude::*;
#[allow(unused_imports)]
use vstd::string::*;

verus! {

/// The key of the set in which the collections of a namespace are registered.
pub const COLLECTION_REGISTRY_KEY: &'static str = "__openkeyv_collections";

/// The pattern for all keys of a collection in a namespace.
pub fn collection_scan_pattern(keyspace: &Subspace, collection: &str) -> (pattern: String)
    ensures
        pattern@ == prefix_pattern(subspace_prefix(keyspace@) + framed(collection@)),
{
    collection_pattern(keyspace, collection)
}

/// How the collections are found.
#[derive(Debug, PartialEq, Eq)]
pub enum CollectionsPlan {
    /// They are known.
    Listed(Vec<String>),
    /// All keys are to be scanned, and what is found is to be registered.
    Scan,
}

/// A store in Valkey.
///
/// Each collection is the prefix of a group of keys in a namespace, and each slot holds an entry
/// in an envelope with its revision. The server drops what has expired.
pub struct ValkeyStore {
    config: ValkeyConfig,
}

impl ValkeyStore {
    /// The collection that is used where none is named.
    pub closed spec fn default_collection(&self) -> Seq<char> {
        self.config.default_collection@
    }

    /// The namespace of the keys.
    pub closed spec fn keyspace(&self) -> Seq<char> {
        self.config.keyspace@
    }

    /// The collection that an optional name stands for.
    pub open spec fn named(&self, collection: Option<&str>) -> Seq<char> {
        match collection {
            Some(n) => n@,
            None => self.default_collection(),
        }
    }

    pub fn with_config(config: ValkeyConfig) -> (store: Self)
        ensures
            store.default_collection() == config.default_collection@,
            store.keyspace() == config.keyspace@,
    {
        ValkeyStore { config }
    }

    /// The collection that an optional name stands for.
    pub fn collection_name<'a>(&'a self, collection: Option<&'a str>) -> (name: &'a str)
        ensures
            name@ == self.named(collection),
    {
        match collection {
            Some(name) => name,
            None => self.config.default_collection.as_str(),
        }
    }

    /// The key in the server for a key of a collection.
    pub fn identity(&self, key: &str, collection: Option<&str>) -> (identity: String)
        ensures
            identity@ == subspace_prefix(self.keyspace()) + compound(self.named(collection), key@),
    {
        subspace_compound_key(&self.config.keyspace, self.collection_name(collection), key)
    }

    /// The keys in the server for some keys of a collection.
    pub fn identities(&self, keys: &Vec<String>, collection: Option<&str>) -> (list: Vec<String>)
        ensures
            texts(list@) == identities_of(self.keyspace(), self.named(collection), texts(keys@)),
    {
        identities(&self.config.keyspace, self.collection_name(collection), keys)
    }

    /// The key of the registry of collections in this store's namespace.
    pub fn registry_key(&self) -> (key: String)
        ensures
            key@ == subspace_prefix(self.keyspace()) + COLLECTION_REGISTRY_KEY@,
    {
        self.config.keyspace.scope(COLLECTION_REGISTRY_KEY)
    }

    /// Prepares the write of a value under a key with a fresh revision.
    pub fn prepare_put(
        &self,
        key: &str,
        value: Value,
        collection: Option<&str>,
        ttl: Option<i64>,
        now: i64,
    ) -> (write: Result<SlotWrite>)
        ensures
            match write {
                Ok(w) => write_of(
                    self.keyspace(),
                    self.named(collection),
                    key@,
                    value@,
                    ttl,
                    w.revision@,
                    now,
                ) == Ok::<_, ErrorModel>(w@),
                Err(e) => match entry_for(value@, ttl, now) {
                    Err(fault) => e@ == fault,
                    Ok(_) => e@ is RevisionGeneration,
                },
            },
    {
        fresh_write(
            &self.config.keyspace,
            self.collection_name(collection),
            key,
            value,
            ttl,
            now,
        )
    }

    /// Prepares the writes of a batch, each with a fresh revision, before any is sent.
    pub fn prepare_put_many(
        &self,
        keys: &Vec<String>,
        values: &Vec<Value>,
        collection: Option<&str>,
        ttl: Option<i64>,
        now: i64,
    ) -> (writes: Result<Vec<SlotWrite>>)
        ensures
            match writes {
                Ok(w) => batch_fault(keys@.len(), values@.len(), ttl, now) is None && writes_batch(
                    w@,
                    self.keyspace(),
                    self.named(collection),
                    texts(keys@),
                    values@.map_values(|v: Value| v@),
                    ttl,
                    now,
                ),
                Err(e) => match batch_fault(keys@.len(), values@.len(), ttl, now) {
                    Some(fault) => e@ == fault,
                    None => keys@.len() > 0 && e@ is RevisionGeneration,
                },
            },
    {
        fresh_writes(
            &self.config.keyspace,
            self.collection_name(collection),
            keys,
            values,
            ttl,
            now,
        )
    }

    /// The pattern for the keys of a collection in this store's namespace.
    pub fn keys_pattern(&self, collection: &str) -> (pattern: String)
        ensures
            pattern@ == prefix_pattern(subspace_prefix(self.keyspace()) + framed(collection@)),
    {
        collection_scan_pattern(&self.config.keyspace, collection)
    }

    /// A scan for the keys of a collection, as many as a page holds.
    pub fn scan_keys(&self, collection: Option<&str>, limit: Option<usize>) -> (scan: NameScan)
        ensures
            scan.wf(),
            scan.found() == Set::<Seq<char>>::empty(),
            scan.limit() matches Some(n) && n == page_size(limit),
            scan.target() matches ScanTarget::Keys { server, prefix, collection: name }
                && server@ == "Valkey"@ && prefix@ == subspace_prefix(self.keyspace()) && name@
                == self.named(collection),
    {
        let name = self.collection_name(collection).to_owned();
        let target = ScanTarget::Keys {
            server: "Valkey".to_owned(),
            prefix: self.config.keyspace.prefix(),
            collection: name,
        };
        NameScan::new(target, Some(page_limit(limit)))
    }

    /// How the collections are found, given what is registered if there is a registry.
    ///
    /// Only the empty namespace may hold entries from before there was a registry, so that only
    /// there the keys are scanned.
    pub fn plan_collections(&self, registered: Option<Vec<String>>, limit: Option<usize>) -> (plan:
        CollectionsPlan)
        ensures
            match (registered, plan) {
                (Some(names), CollectionsPlan::Listed(page)) => texts(page@) == at_most(
                    texts(names@),
                    page_size(limit),
                ),
                (None, CollectionsPlan::Listed(page)) => self.keyspace().len() > 0 && page@.len()
                    == 0,
                (None, CollectionsPlan::Scan) => self.keyspace().len() == 0,
                (Some(_), CollectionsPlan::Scan) => false,
            },
    {
        match registered {
            Some(names) => {
                let ghost all = texts(names@);
                let size: usize = page_limit(limit);
                let mut page = names;
                if page.len() > size {
                    page.truncate(size);
                    assert(texts(page@) =~= all.take(size as int));
                }
                CollectionsPlan::Listed(page)
            },
            None => if self.config.keyspace.is_empty() {
                CollectionsPlan::Scan
            } else {
                CollectionsPlan::Listed(Vec::new())
            },
        }
    }

    /// A scan for all collections. The registry belongs to none.
    pub fn scan_collections(&self) -> (scan: NameScan)
        ensures
            scan.wf(),
            scan.found() == Set::<Seq<char>>::empty(),
            scan.limit() is None,
            scan.target() matches ScanTarget::Collections { internal } && texts(internal@) == seq![
                subspace_prefix(self.keyspace()) + COLLECTION_REGISTRY_KEY@,
            ],
    {
        let mut internal: Vec<String> = Vec::new();
        internal.push(self.registry_key());
        assert(texts(internal@) =~= seq![
            subspace_prefix(self.keyspace()) + COLLECTION_REGISTRY_KEY@,
        ]);
        NameScan::new(ScanTarget::Collections { internal }, None)
    }

    /// Checks that a batch of keys may be deleted with a collection, and says whether there is
    /// anything in it.
    pub fn check_doomed(&self, collection: &str, batch: &Vec<String>) -> (any: Result<bool>)
        ensures
            ({
                let fault = foreign_fault(
                    "Valkey"@,
                    subspace_prefix(self.keyspace()),
                    collection@,
                    texts(batch@),
                    batch@.len(),
                );
                match any {
                    Ok(b) => fault is None && b == (batch@.len() > 0),
                    Err(e) => fault == Some(e@),
                }
            }),
    {
        let prefix = self.config.keyspace.prefix();
        check_doomed("Valkey", prefix.as_str(), collection, batch)
    }

    /// The pattern for the keys that go with this store; none where the whole database goes.
    pub fn destroy_pattern(&self) -> (pattern: Option<String>)
        ensures
            match pattern {
                Some(p) => self.keyspace().len() > 0 && p@ == prefix_pattern(
                    subspace_prefix(self.keyspace()),
                ),
                None => self.keyspace().len() == 0,
            },
    {
        if self.config.keyspace.is_empty() {
            None
        } else {
            Some(scan_pattern(self.config.keyspace.prefix().as_str()))
        }
    }
}

/// A store uses the collection that is named, and its default one where none is.
pub proof fn law_named(store: ValkeyStore, name: &str)
    ensures
        store.named(Some(name)) == name@,
        store.named(None) == store.default_collection(),
{
}

} // verus!
