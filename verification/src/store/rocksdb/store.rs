//! What a RocksDB store asks for, and how its replies are judged.

use crate::entry::{
    countable, entry_bytes, entry_of, lasting, law_entry_roundtrip, EntryModel, EntryRead,
    ManagedEntry,
};
use crate::error::{Error, ErrorModel, Outcome, Result};
use crate::store::page::{page_limit, page_size};
use crate::store::rocksdb::config::RocksDBConfig;
use crate::store::rocksdb::walk::{
    compound_key, key_prefix, physical, prefix_of, CollectionWalk, KeyWalk,
};
use crate::text::texts;
use crate::value::{Value, ValueModel};
use vstd::prelude::*;
#[allow(unused_imports)]
use vstd::string::*;
use vstd::utf8::encode_utf8;

verus! {

/// A store in RocksDB.
///
/// Each collection is the prefix of a group of keys, and each value is the stored form of an
/// entry.
pub struct RocksDBStore {
    config: RocksDBConfig,
}

/// What the database says of one key.
#[derive(Debug, PartialEq, Eq)]
pub enum RocksReply {
    Found(Vec<u8>),
    Absent,
    /// The read failed, with a description.
    Failed(String),
}

/// The live entry in a reply at `now`, if there is one.
pub open spec fn live_in(reply: RocksReply, now: i64) -> Outcome<Option<EntryModel>> {
    match reply {
        RocksReply::Absent => Ok(None),
        RocksReply::Failed(message) => Err(ErrorModel::StoreConnection { message: message@ }),
        RocksReply::Found(bytes) => match entry_of(bytes@) {
            Err(e) => Err(e),
            Ok(entry) => if entry.expired(now) {
                Ok(None)
            } else {
                Ok(Some(entry))
            },
        },
    }
}

/// The model of an optional entry.
pub open spec fn entry_model(entry: Option<ManagedEntry>) -> Option<EntryModel> {
    match entry {
        Some(e) => Some(e@),
        None => None,
    }
}

/// The live entry in a reply at `now`, if there is one.
pub fn read_reply(reply: &RocksReply, now: i64) -> (entry: Result<Option<ManagedEntry>>)
    ensures
        match entry {
            Ok(e) => live_in(*reply, now) == Ok::<_, ErrorModel>(entry_model(e)),
            Err(e) => live_in(*reply, now) == Err::<Option<EntryModel>, _>(e@),
        },
{
    match reply {
        RocksReply::Absent => Ok(None),
        RocksReply::Failed(message) => Err(Error::StoreConnection { message: message.clone() }),
        RocksReply::Found(bytes) => match ManagedEntry::read(bytes.as_slice(), now)? {
            EntryRead::Live(entry) => Ok(Some(entry)),
            EntryRead::Expired => Ok(None),
        },
    }
}

/// The live entries in the first `n` replies, one by one.
pub open spec fn lives_in(replies: Seq<RocksReply>, now: i64, n: nat) -> Outcome<
    Seq<Option<EntryModel>>,
>
    decreases n,
{
    if n == 0 {
        Ok(Seq::empty())
    } else {
        match (lives_in(replies, now, (n - 1) as nat), live_in(replies[n - 1], now)) {
            (Err(e), _) => Err(e),
            (_, Err(e)) => Err(e),
            (Ok(before), Ok(entry)) => Ok(before.push(entry)),
        }
    }
}

proof fn lemma_lives_prefix(replies: Seq<RocksReply>, now: i64, k: nat, n: nat)
    requires
        k <= n,
        lives_in(replies, now, k) is Err,
    ensures
        lives_in(replies, now, n) == lives_in(replies, now, k),
    decreases n,
{
    if k < n {
        lemma_lives_prefix(replies, now, k, (n - 1) as nat);
    }
}

/// The model of a list of optional entries.
pub open spec fn entries_model(entries: Seq<Option<ManagedEntry>>) -> Seq<Option<EntryModel>> {
    entries.map_values(|e: Option<ManagedEntry>| entry_model(e))
}

/// The live entries in some replies, one by one.
pub fn read_replies(replies: &Vec<RocksReply>, now: i64) -> (entries: Result<
    Vec<Option<ManagedEntry>>,
>)
    ensures
        match entries {
            Ok(e) => lives_in(replies@, now, replies@.len()) == Ok::<_, ErrorModel>(
                entries_model(e@),
            ),
            Err(e) => lives_in(replies@, now, replies@.len()) == Err::<
                Seq<Option<EntryModel>>,
                _,
            >(e@),
        },
{
    let mut entries: Vec<Option<ManagedEntry>> = Vec::new();
    let mut i: usize = 0;
    assert(entries_model(entries@) =~= Seq::empty());
    while i < replies.len()
        invariant
            i <= replies@.len(),
            lives_in(replies@, now, i as nat) == Ok::<_, ErrorModel>(entries_model(entries@)),
        decreases replies@.len() - i,
    {
        let ghost before = entries@;
        proof {
            if lives_in(replies@, now, (i + 1) as nat) is Err {
                lemma_lives_prefix(replies@, now, (i + 1) as nat, replies@.len());
            }
        }
        let entry = read_reply(&replies[i], now)?;
        let ghost model = entry_model(entry);
        entries.push(entry);
        assert(entries_model(entries@) =~= entries_model(before).push(model));
        i += 1;
    }
    Ok(entries)
}

/// Whether stored bytes are to be culled at `now`.
pub fn is_doomed(bytes: &[u8], now: i64) -> (doomed: Result<bool>)
    ensures
        match doomed {
            Ok(b) => entry_of(bytes@) matches Ok(entry) && b == entry.expired(now),
            Err(e) => entry_of(bytes@) == Err::<EntryModel, _>(e@),
        },
{
    match ManagedEntry::read(bytes, now)? {
        EntryRead::Live(_) => Ok(false),
        EntryRead::Expired => Ok(true),
    }
}

/// The writes of a batch: the key in the database and the stored entry, in order.
pub open spec fn batch_of(
    collection: Seq<char>,
    keys: Seq<Seq<char>>,
    values: Seq<ValueModel>,
    ttl: Option<i64>,
    now: i64,
) -> Seq<(Seq<char>, Seq<u8>)> {
    Seq::new(
        keys.len(),
        |i: int|
            (physical(collection, keys[i]), entry_bytes(lasting(values[i], ttl, now))),
    )
}

/// The model of a list of writes.
pub open spec fn writes_model(writes: Seq<(String, Vec<u8>)>) -> Seq<(Seq<char>, Seq<u8>)> {
    writes.map_values(|w: (String, Vec<u8>)| (w.0@, w.1@))
}

impl RocksDBStore {
    /// The collection that is used where none is named.
    pub closed spec fn default_collection(&self) -> Seq<char> {
        self.config.default_collection@
    }

    /// The collection that an optional name stands for.
    pub open spec fn named(&self, collection: Option<&str>) -> Seq<char> {
        match collection {
            Some(n) => n@,
            None => self.default_collection(),
        }
    }

    pub fn with_config(config: RocksDBConfig) -> (store: Self)
        ensures
            store.default_collection() == config.default_collection@,
    {
        RocksDBStore { config }
    }

    /// The collection that an optional name stands for.
    pub fn collection_name<'a>(&'a self, collection: Option<&'a str>) -> (name: &'a str)
        ensures
            name@ == self.named(collection),
    {
        match collection {
            Some(name) => name,
            None => self.config.default_collection.as_str(),
        }
    }

    /// The key in the database for a key of a collection.
    pub fn identity(&self, key: &str, collection: Option<&str>) -> (identity: String)
        ensures
            identity@ == physical(self.named(collection), key@),
    {
        compound_key(self.collection_name(collection), key)
    }

    /// The stored form of a value. A time to live without a future makes it expire at once.
    pub fn prepare_put(value: Value, ttl: Option<i64>, now: i64) -> (bytes: Vec<u8>)
        requires
            countable(ttl, now),
        ensures
            bytes@ == entry_bytes(lasting(value@, ttl, now)),
    {
        let entry = ManagedEntry::for_lifetime(value, ttl, now);
        entry.encode()
    }

    /// The writes of a batch, in order: of two for one key, the later stands.
    pub fn prepare_put_many(
        &self,
        keys: &Vec<String>,
        values: &Vec<Value>,
        collection: Option<&str>,
        ttl: Option<i64>,
        now: i64,
    ) -> (writes: Result<Vec<(String, Vec<u8>)>>)
        requires
            countable(ttl, now),
        ensures
            match writes {
                Ok(w) => keys@.len() == values@.len() && writes_model(w@) == batch_of(
                    self.named(collection),
                    texts(keys@),
                    values@.map_values(|v: Value| v@),
                    ttl,
                    now,
                ),
                Err(e) => keys@.len() != values@.len() && e@ == (ErrorModel::BatchSizeMismatch {
                    keys: keys@.len(),
                    values: values@.len(),
                }),
            },
    {
        if keys.len() != values.len() {
            return Err(Error::BatchSizeMismatch { keys: keys.len(), values: values.len() });
        }
        let name = self.collection_name(collection);
        let ghost models = values@.map_values(|v: Value| v@);
        let ghost all = batch_of(name@, texts(keys@), models, ttl, now);
        let mut writes: Vec<(String, Vec<u8>)> = Vec::new();
        let mut i: usize = 0;
        while i < keys.len()
            invariant
                i <= keys@.len(),
                keys@.len() == values@.len(),
                countable(ttl, now),
                models == values@.map_values(|v: Value| v@),
                all == batch_of(name@, texts(keys@), models, ttl, now),
                writes_model(writes@) =~= all.take(i as int),
            decreases keys@.len() - i,
        {
            let ghost before = writes@;
            let bytes = RocksDBStore::prepare_put(values[i].clone(), ttl, now);
            let identity = compound_key(name, keys[i].as_str());
            let ghost write = (identity@, bytes@);
            writes.push((identity, bytes));
            proof {
                assert(texts(keys@)[i as int] == keys@[i as int]@);
                assert(models[i as int] == values@[i as int]@);
                assert(all[i as int] == write);
                assert(writes_model(writes@) =~= writes_model(before).push(write));
            }
            i += 1;
        }
        assert(all.take(i as int) =~= all);
        Ok(writes)
    }

    /// The milliseconds that an entry still lives, none where it does not expire.
    pub fn remaining(entry: &ManagedEntry, now: i64) -> (millis: u64)
        ensures
            millis == match entry@.ttl(now) {
                Some(left) => left,
                None => 0,
            },
    {
        match entry.ttl(now) {
            Some(left) => left,
            None => 0,
        }
    }

    /// A walk along the keys of a collection, for as many as a page holds.
    pub fn walk_keys(&self, collection: Option<&str>, limit: Option<usize>) -> (walk: KeyWalk)
        ensures
            walk.prefix() == prefix_of(self.named(collection)),
            walk.limit() == page_size(limit),
            walk.found() == Seq::<Seq<char>>::empty(),
    {
        KeyWalk::new(self.collection_name(collection), page_limit(limit))
    }

    /// A walk along all keys for the collections, for as many as a page holds.
    pub fn walk_collections(&self, limit: Option<usize>) -> (walk: CollectionWalk)
        ensures
            walk.wf(),
            walk.limit() == page_size(limit),
            walk.found() == Set::<Seq<char>>::empty(),
    {
        CollectionWalk::new(page_limit(limit))
    }

    /// Whether a key of the database goes when a collection is destroyed.
    pub fn goes_with(collection: &str, key: &[u8]) -> (goes: bool)
        ensures
            goes == encode_utf8(prefix_of(collection@)).is_prefix_of(key@),
    {
        let prefix = key_prefix(collection);
        let head = prefix.as_str().as_bytes();
        let n: usize = head.len();
        if key.len() < n {
            return false;
        }
        let start = vstd::slice::slice_subrange(key, 0, n);
        assert(start@ =~= key@.take(n as int));
        crate::text::bytes_eq(start, head)
    }
}

/// What was written is what is read back until it expires.
pub proof fn law_write_is_read_back(
    reply: RocksReply,
    value: ValueModel,
    ttl: Option<i64>,
    now: i64,
    later: i64,
)
    requires
        countable(ttl, now),
        reply matches RocksReply::Found(bytes) && bytes@ == entry_bytes(lasting(value, ttl, now)),
    ensures
        live_in(reply, later) == Ok::<_, ErrorModel>(
            if ttl matches Some(t) && now + t <= later {
                None
            } else {
                Some(lasting(value, ttl, now))
            },
        ),
{
    law_entry_roundtrip(lasting(value, ttl, now));
}

/// A reply gives an entry exactly where it holds the stored form of one that lives. It gives nothing
/// where there is none, or where its time has come. A failed request is a connection error.
pub proof fn law_reply(reply: RocksReply, now: i64)
    ensures
        match reply {
            RocksReply::Absent => live_in(reply, now) == Ok::<Option<EntryModel>, ErrorModel>(None),
            RocksReply::Failed(_) => live_in(reply, now) matches Err(e) && e is StoreConnection,
            RocksReply::Found(bytes) => match live_in(reply, now) {
                Ok(Some(entry)) => bytes@ == entry_bytes(entry) && (entry.expires_at matches Some(t)
                    ==> now < t),
                Ok(None) => exists|entry: EntryModel|
                    bytes@ == #[trigger] entry_bytes(entry) && (entry.expires_at matches Some(t)
                        && t <= now),
                Err(e) => e is Deserialization && forall|entry: EntryModel|
                    bytes@ != #[trigger] entry_bytes(entry),
            },
        },
{
    if let RocksReply::Found(bytes) = reply {
        crate::entry::law_entry_exact(bytes@);
        crate::entry::law_entry_errors(bytes@);
        if let Ok(entry) = entry_of(bytes@) {
            assert(bytes@ == entry_bytes(entry));
        }
    }
}

/// Replies are read one by one: as many items, at every place what that reply gives; the error is
/// that of the first one that fails.
pub proof fn law_replies_one_by_one(replies: Seq<RocksReply>, now: i64, n: nat)
    requires
        n <= replies.len(),
    ensures
        match lives_in(replies, now, n) {
            Ok(entries) => entries.len() == n && forall|i: int|
                0 <= i < n ==> live_in(#[trigger] replies[i], now) == Ok::<_, ErrorModel>(
                    entries[i],
                ),
            Err(e) => exists|k: int|
                {
                    &&& 0 <= k < n
                    &&& live_in(#[trigger] replies[k], now) == Err::<Option<EntryModel>, _>(e)
                    &&& forall|j: int| 0 <= j < k ==> live_in(#[trigger] replies[j], now) is Ok
                },
        },
    decreases n,
{
    if n > 0 {
        let m = (n - 1) as nat;
        law_replies_one_by_one(replies, now, m);
        match lives_in(replies, now, m) {
            Ok(before) => {
                assert forall|j: int| 0 <= j < m implies live_in(
                    #[trigger] replies[j],
                    now,
                ) is Ok by {
                    assert(live_in(replies[j], now) == Ok::<_, ErrorModel>(before[j]));
                }
                if let Err(e) = live_in(replies[m as int], now) {
                    assert(0 <= m < n);
                }
            },
            Err(e) => {
                let k = choose|k: int|
                    {
                        &&& 0 <= k < m
                        &&& live_in(#[trigger] replies[k], now) == Err::<Option<EntryModel>, _>(e)
                        &&& forall|j: int|
                            0 <= j < k ==> live_in(#[trigger] replies[j], now) is Ok
                    };
                assert(0 <= k < n);
            },
        }
    }
}

/// A batch writes each value under its own key, in order.
pub proof fn law_batch(
    collection: Seq<char>,
    keys: Seq<Seq<char>>,
    values: Seq<ValueModel>,
    ttl: Option<i64>,
    now: i64,
    i: int,
)
    requires
        0 <= i < keys.len(),
        countable(ttl, now),
    ensures
        ({
            let writes = batch_of(collection, keys, values, ttl, now);
            &&& writes.len() == keys.len()
            &&& writes[i].0 == collection + seq![':'] + keys[i]
            &&& entry_of(writes[i].1) matches Ok(entry) && entry.value == values[i]
                && entry.expires_at == match ttl {
                Some(t) => Some((now + t) as i64),
                None => None,
            }
        }),
{
    law_entry_roundtrip(lasting(values[i], ttl, now));
    let writes = batch_of(collection, keys, values, ttl, now);
    assert(writes[i].0 =~= collection + seq![':'] + keys[i]);
}

/// A store uses the collection that is named, and its default one where none is.
pub proof fn law_named(store: RocksDBStore, name: &str)
    ensures
        store.named(Some(name)) == name@,
        store.named(None) == store.default_collection(),
{
}

/// The lists of a read and of a write stand for their items, one for each, in order.
pub proof fn law_lists(
    entries: Seq<Option<ManagedEntry>>,
    writes: Seq<(String, Vec<u8>)>,
    i: int,
)
    ensures
        entries_model(entries).len() == entries.len(),
        writes_model(writes).len() == writes.len(),
        0 <= i < entries.len() ==> match entries[i] {
            Some(entry) => entries_model(entries)[i] == Some(entry@),
            None => entries_model(entries)[i] is None,
        },
        0 <= i < writes.len() ==> writes_model(writes)[i] == (writes[i].0@, writes[i].1@),
{
}

} // verus!
