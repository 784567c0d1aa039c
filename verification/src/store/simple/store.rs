//! A plain store in memory.

use crate::entry::{countable, lasting, EntryModel, ManagedEntry};
use crate::error::{Error, ErrorModel, Result};
use crate::ordered::KeyMap;
use crate::store::memory::config::{default_name, name_or_default};
use crate::store::page::{is_page, page_limit, page_of, page_size};
use crate::store::simple::client::{shelf_model, DataModel, ShelfModel, SimpleClient};
use crate::text::texts;
use crate::value::{Value, ValueModel};
use vstd::prelude::*;

verus! {

/// A plain store in memory: a map of collections, each a map of entries. For tests and
/// development.
pub struct SimpleStore {
    client: SimpleClient,
    default_collection: String,
}

/// What a reader sees of an entry: its value, and the milliseconds it still lives, none where it
/// does not expire.
pub type SeenModel = Option<(ValueModel, u64)>;

/// The milliseconds that an entry still lives, none where it does not expire.
pub open spec fn left_of(entry: EntryModel, now: i64) -> u64 {
    match entry.ttl(now) {
        Some(millis) => millis,
        None => 0,
    }
}

/// What a reader sees at `now` under a key.
pub open spec fn seen(data: DataModel, name: Seq<char>, key: Seq<char>, now: i64) -> SeenModel {
    if data.dom().contains(name) && data[name].dom().contains(key) && !data[name][key].expired(
        now,
    ) {
        Some((data[name][key].value, left_of(data[name][key], now)))
    } else {
        None
    }
}

/// The view of what a reader sees.
pub open spec fn seen_model(value: Option<(Value, u64)>) -> SeenModel {
    match value {
        Some((v, ttl)) => Some((v@, ttl)),
        None => None,
    }
}

/// A collection, empty where there is none.
pub open spec fn shelf_of(data: DataModel, name: Seq<char>) -> ShelfModel {
    if data.dom().contains(name) {
        data[name]
    } else {
        Map::empty()
    }
}

/// A collection after the first `n` of a batch were written to it, a later value of a key in
/// place of an earlier one.
pub open spec fn filled(
    shelf: ShelfModel,
    keys: Seq<Seq<char>>,
    values: Seq<ValueModel>,
    ttl: Option<i64>,
    now: i64,
    n: nat,
) -> ShelfModel
    decreases n,
{
    if n == 0 {
        shelf
    } else {
        filled(shelf, keys, values, ttl, now, (n - 1) as nat).insert(
            keys[n - 1],
            lasting(values[n - 1], ttl, now),
        )
    }
}

/// The data after a key was deleted.
pub open spec fn without_key(data: DataModel, name: Seq<char>, key: Seq<char>) -> DataModel {
    if data.dom().contains(name) {
        data.insert(name, data[name].remove(key))
    } else {
        data
    }
}

/// The data after the first `n` keys of a list were deleted.
pub open spec fn without_keys(
    data: DataModel,
    name: Seq<char>,
    keys: Seq<Seq<char>>,
    n: nat,
) -> DataModel
    decreases n,
{
    if n == 0 {
        data
    } else {
        without_key(without_keys(data, name, keys, (n - 1) as nat), name, keys[n - 1])
    }
}

/// How many of the first `n` keys of a list were there to delete.
pub open spec fn removed(data: DataModel, name: Seq<char>, keys: Seq<Seq<char>>, n: nat) -> nat
    decreases n,
{
    if n == 0 {
        0
    } else {
        let before = without_keys(data, name, keys, (n - 1) as nat);
        removed(data, name, keys, (n - 1) as nat) + if shelf_of(before, name).dom().contains(
            keys[n - 1],
        ) {
            1nat
        } else {
            0
        }
    }
}

/// The entries of a collection that have not expired.
pub open spec fn alive(shelf: ShelfModel, now: i64) -> ShelfModel {
    shelf.restrict(shelf.dom().filter(|k: Seq<char>| !shelf[k].expired(now)))
}

impl View for SimpleStore {
    type V = DataModel;

    closed spec fn view(&self) -> DataModel {
        self.client@
    }
}

impl SimpleStore {
    pub closed spec fn wf(&self) -> bool {
        self.client.wf()
    }

    /// The collection that is used where none is named.
    pub closed spec fn default_collection(&self) -> Seq<char> {
        self.default_collection@
    }

    /// The collection that an optional name stands for.
    pub open spec fn named(&self, collection: Option<&str>) -> Seq<char> {
        match collection {
            Some(n) => n@,
            None => self.default_collection(),
        }
    }

    pub fn new() -> (store: Self)
        ensures
            store.wf(),
            store@ == DataModel::empty(),
            store.default_collection() == "default_collection"@,
    {
        SimpleStore::with_options(None)
    }

    pub fn with_options(default_collection: Option<String>) -> (store: Self)
        ensures
            store.wf(),
            store@ == DataModel::empty(),
            store.default_collection() == default_name(default_collection),
    {
        SimpleStore {
            client: SimpleClient::new(),
            default_collection: name_or_default(default_collection),
        }
    }

    fn collection_name(&self, collection: Option<&str>) -> (name: String)
        ensures
            name@ == self.named(collection),
    {
        match collection {
            Some(name) => name.to_owned(),
            None => self.default_collection.clone(),
        }
    }

    fn look(&self, name: &str, key: &str, now: i64) -> (value: Option<(Value, u64)>)
        requires
            self.wf(),
        ensures
            seen_model(value) == seen(self@, name@, key@, now),
    {
        match self.client.find(name, key) {
            Some(entry) => if entry.is_expired(now) {
                None
            } else {
                let left: u64 = match entry.ttl(now) {
                    Some(millis) => millis,
                    None => 0,
                };
                Some((entry.value.clone(), left))
            },
            None => None,
        }
    }

    /// The value under a key.
    pub fn get(&self, key: &str, collection: Option<&str>, now: i64) -> (value: Option<Value>)
        requires
            self.wf(),
        ensures
            match value {
                Some(v) => seen(self@, self.named(collection), key@, now) matches Some(s) && s.0
                    == v@,
                None => seen(self@, self.named(collection), key@, now) is None,
            },
    {
        let name = self.collection_name(collection);
        match self.look(name.as_str(), key, now) {
            Some((value, _)) => Some(value),
            None => None,
        }
    }

    /// The value under a key, and the milliseconds it still lives, none where it does not expire.
    pub fn ttl(&self, key: &str, collection: Option<&str>, now: i64) -> (value: Option<
        (Value, u64),
    >)
        requires
            self.wf(),
        ensures
            seen_model(value) == seen(self@, self.named(collection), key@, now),
    {
        let name = self.collection_name(collection);
        self.look(name.as_str(), key, now)
    }

    /// The values under some keys, one by one.
    pub fn get_many(&self, keys: &Vec<String>, collection: Option<&str>, now: i64) -> (values: Vec<
        Option<Value>,
    >)
        requires
            self.wf(),
        ensures
            values@.len() == keys@.len(),
            forall|i: int|
                0 <= i < keys@.len() ==> match #[trigger] values@[i] {
                    Some(v) => seen(self@, self.named(collection), keys@[i]@, now) matches Some(s)
                        && s.0 == v@,
                    None => seen(self@, self.named(collection), keys@[i]@, now) is None,
                },
    {
        let mut values: Vec<Option<Value>> = Vec::new();
        let mut i: usize = 0;
        while i < keys.len()
            invariant
                i <= keys@.len(),
                self.wf(),
                values@.len() == i,
                forall|j: int|
                    0 <= j < i ==> match #[trigger] values@[j] {
                        Some(v) => seen(
                            self@,
                            self.named(collection),
                            keys@[j]@,
                            now,
                        ) matches Some(s) && s.0 == v@,
                        None => seen(self@, self.named(collection), keys@[j]@, now) is None,
                    },
            decreases keys@.len() - i,
        {
            let value = self.get(keys[i].as_str(), collection, now);
            values.push(value);
            i += 1;
        }
        values
    }

    /// The values under some keys with the milliseconds they still live, one by one.
    pub fn ttl_many(&self, keys: &Vec<String>, collection: Option<&str>, now: i64) -> (values: Vec<
        Option<(Value, u64)>,
    >)
        requires
            self.wf(),
        ensures
            values@.len() == keys@.len(),
            forall|i: int|
                0 <= i < keys@.len() ==> seen_model(#[trigger] values@[i]) == seen(
                    self@,
                    self.named(collection),
                    keys@[i]@,
                    now,
                ),
    {
        let mut values: Vec<Option<(Value, u64)>> = Vec::new();
        let mut i: usize = 0;
        while i < keys.len()
            invariant
                i <= keys@.len(),
                self.wf(),
                values@.len() == i,
                forall|j: int|
                    0 <= j < i ==> seen_model(#[trigger] values@[j]) == seen(
                        self@,
                        self.named(collection),
                        keys@[j]@,
                        now,
                    ),
            decreases keys@.len() - i,
        {
            let value = self.ttl(keys[i].as_str(), collection, now);
            values.push(value);
            i += 1;
        }
        values
    }

    fn take_shelf(&mut self, name: &str) -> (shelf: KeyMap<ManagedEntry>)
        requires
            old(self).wf(),
        ensures
            final(self).wf(),
            final(self)@ == old(self)@.remove(name@),
            final(self).default_collection() == old(self).default_collection(),
            shelf.wf(),
            shelf_model(shelf@) == shelf_of(old(self)@, name@),
    {
        match self.client.take(name) {
            Some(shelf) => shelf,
            None => {
                let shelf: KeyMap<ManagedEntry> = KeyMap::new();
                assert(shelf_model(shelf@) =~= Map::empty());
                shelf
            },
        }
    }

    fn place_shelf(&mut self, name: &str, shelf: KeyMap<ManagedEntry>)
        requires
            old(self).wf(),
            shelf.wf(),
        ensures
            final(self).wf(),
            final(self)@ == old(self)@.insert(name@, shelf_model(shelf@)),
            final(self).default_collection() == old(self).default_collection(),
    {
        self.client.place(name, shelf);
    }

    /// Writes a value under a key. A time to live without a future makes it expire at once.
    pub fn put(
        &mut self,
        key: &str,
        value: Value,
        collection: Option<&str>,
        ttl: Option<i64>,
        now: i64,
    )
        requires
            old(self).wf(),
            countable(ttl, now),
        ensures
            final(self).wf(),
            final(self).default_collection() == old(self).default_collection(),
            ({
                let name = old(self).named(collection);
                final(self)@ == old(self)@.insert(
                    name,
                    shelf_of(old(self)@, name).insert(key@, lasting(value@, ttl, now)),
                )
            }),
    {
        let entry = ManagedEntry::for_lifetime(value, ttl, now);
        let ghost start = self@;
        let name = self.collection_name(collection);
        let mut shelf = self.take_shelf(name.as_str());
        let ghost before = shelf_model(shelf@);
        let ghost model = entry@;
        let _ = shelf.insert(key.to_owned(), entry);
        assert(shelf_model(shelf@) =~= before.insert(key@, model));
        self.place_shelf(name.as_str(), shelf);
        assert(self@ =~= start.insert(name@, shelf_of(start, name@).insert(key@, model)));
    }

    /// Writes values under keys, one by one.
    pub fn put_many(
        &mut self,
        keys: &Vec<String>,
        values: &Vec<Value>,
        collection: Option<&str>,
        ttl: Option<i64>,
        now: i64,
    ) -> (result: Result<()>)
        requires
            old(self).wf(),
            countable(ttl, now),
        ensures
            final(self).wf(),
            final(self).default_collection() == old(self).default_collection(),
            ({
                let name = old(self).named(collection);
                if keys@.len() != values@.len() {
                    result matches Err(e) && e@ == (ErrorModel::BatchSizeMismatch {
                        keys: keys@.len(),
                        values: values@.len(),
                    }) && final(self)@ == old(self)@
                } else {
                    result is Ok && final(self)@ == old(self)@.insert(
                        name,
                        filled(
                            shelf_of(old(self)@, name),
                            texts(keys@),
                            values@.map_values(|v: Value| v@),
                            ttl,
                            now,
                            keys@.len(),
                        ),
                    )
                }
            }),
    {
        if keys.len() != values.len() {
            return Err(Error::BatchSizeMismatch { keys: keys.len(), values: values.len() });
        }
        let ghost start = self@;
        let ghost models = values@.map_values(|v: Value| v@);
        let name = self.collection_name(collection);
        let mut shelf = self.take_shelf(name.as_str());
        let ghost first = shelf_model(shelf@);
        let mut i: usize = 0;
        while i < keys.len()
            invariant
                i <= keys@.len(),
                keys@.len() == values@.len(),
                countable(ttl, now),
                models == values@.map_values(|v: Value| v@),
                shelf.wf(),
                shelf_model(shelf@) == filled(first, texts(keys@), models, ttl, now, i as nat),
            decreases keys@.len() - i,
        {
            proof {
                assert(texts(keys@)[i as int] == keys@[i as int]@);
                assert(models[i as int] == values@[i as int]@);
            }
            let entry = ManagedEntry::for_lifetime(values[i].clone(), ttl, now);
            let ghost before = shelf_model(shelf@);
            let ghost model = entry@;
            let _ = shelf.insert(keys[i].clone(), entry);
            assert(shelf_model(shelf@) =~= before.insert(keys@[i as int]@, model));
            i += 1;
        }
        self.place_shelf(name.as_str(), shelf);
        proof {
            assert(self@ =~= start.insert(
                name@,
                filled(first, texts(keys@), models, ttl, now, keys@.len()),
            ));
        }
        Ok(())
    }

    /// Deletes a key, and says whether it was there.
    pub fn delete(&mut self, key: &str, collection: Option<&str>) -> (deleted: bool)
        requires
            old(self).wf(),
        ensures
            final(self).wf(),
            final(self).default_collection() == old(self).default_collection(),
            final(self)@ == without_key(old(self)@, old(self).named(collection), key@),
            deleted == shelf_of(old(self)@, old(self).named(collection)).dom().contains(key@),
    {
        let ghost start = self@;
        let name = self.collection_name(collection);
        match self.client.take(name.as_str()) {
            Some(taken) => {
                let mut shelf = taken;
                let ghost before = shelf_model(shelf@);
                let gone = shelf.remove(key).is_some();
                assert(shelf_model(shelf@) =~= before.remove(key@));
                assert(before.dom().contains(key@) <==> gone);
                self.client.place(name.as_str(), shelf);
                assert(self@ =~= without_key(start, name@, key@));
                gone
            },
            None => {
                assert(self@ =~= start);
                false
            },
        }
    }

    /// Deletes keys, one by one, and says how many were there.
    pub fn delete_many(&mut self, keys: &Vec<String>, collection: Option<&str>) -> (count: usize)
        requires
            old(self).wf(),
        ensures
            final(self).wf(),
            final(self).default_collection() == old(self).default_collection(),
            final(self)@ == without_keys(
                old(self)@,
                old(self).named(collection),
                texts(keys@),
                keys@.len(),
            ),
            count == removed(
                old(self)@,
                old(self).named(collection),
                texts(keys@),
                keys@.len(),
            ),
    {
        let ghost start = self@;
        let ghost name = self.named(collection);
        let mut count: usize = 0;
        let mut i: usize = 0;
        while i < keys.len()
            invariant
                i <= keys@.len(),
                count <= i,
                start == old(self)@,
                name == old(self).named(collection),
                self.wf(),
                self.default_collection() == old(self).default_collection(),
                self@ == without_keys(start, name, texts(keys@), i as nat),
                count == removed(start, name, texts(keys@), i as nat),
            decreases keys@.len() - i,
        {
            assert(texts(keys@)[i as int] == keys@[i as int]@);
            if self.delete(keys[i].as_str(), collection) {
                count += 1;
            }
            i += 1;
        }
        count
    }

    /// Takes out everything that has expired.
    pub fn cull(&mut self, now: i64)
        requires
            old(self).wf(),
        ensures
            final(self).wf(),
            final(self).default_collection() == old(self).default_collection(),
            final(self)@ == old(self)@.map_values(|shelf: ShelfModel| alive(shelf, now)),
    {
        let ghost start = self@;
        let names = self.client.names();
        let ghost all = texts(names@);
        let mut i: usize = 0;
        while i < names.len()
            invariant
                i <= names@.len(),
                self.wf(),
                self.default_collection() == old(self).default_collection(),
                start == old(self)@,
                all == texts(names@),
                all.no_duplicates(),
                all.to_set() == start.dom(),
                self@.dom() == start.dom(),
                forall|j: int| 0 <= j < i ==> self@[#[trigger] all[j]] == alive(start[all[j]], now),
                forall|j: int| i <= j < all.len() ==> self@[#[trigger] all[j]] == start[all[j]],
            decreases names@.len() - i,
        {
            let ghost before = self@;
            assert(all[i as int] == names@[i as int]@);
            assert(all.to_set().contains(all[i as int]));
            let shelf = self.take_shelf(names[i].as_str());
            let shelf = drop_expired(shelf, now);
            self.place_shelf(names[i].as_str(), shelf);
            proof {
                assert(self@.dom() =~= start.dom());
                assert forall|j: int| 0 <= j < all.len() && j != i implies self@[#[trigger] all[j]]
                    == before[all[j]] by {
                    assert(all[j] != all[i as int]);
                }
            }
            i += 1;
        }
        proof {
            let target = start.map_values(|shelf: ShelfModel| alive(shelf, now));
            assert forall|name: Seq<char>| start.dom().contains(name) implies self@[name]
                == target[name] by {
                assert(all.contains(name));
                let j = choose|j: int| 0 <= j < all.len() && all[j] == name;
                assert(self@[all[j]] == alive(start[all[j]], now));
            }
            assert(self@ =~= target);
        }
    }

    /// The keys of a collection, expired ones too, as many as a page holds.
    pub fn keys(&self, collection: Option<&str>, limit: Option<usize>) -> (page: Vec<String>)
        requires
            self.wf(),
        ensures
            is_page(
                texts(page@),
                shelf_of(self@, self.named(collection)).dom(),
                page_size(limit),
            ),
    {
        let name = self.collection_name(collection);
        let keys = self.client.keys(name.as_str());
        assert(texts(keys@).to_set() =~= shelf_of(self@, name@).dom());
        page_of(keys, page_limit(limit))
    }

    /// The collections, as many as a page holds.
    pub fn collections(&self, limit: Option<usize>) -> (page: Vec<String>)
        requires
            self.wf(),
        ensures
            is_page(texts(page@), self@.dom(), page_size(limit)),
    {
        page_of(self.client.names(), page_limit(limit))
    }

    /// Takes a collection out with all its entries, and says whether there was one.
    pub fn destroy_collection(&mut self, collection: &str) -> (destroyed: bool)
        requires
            old(self).wf(),
        ensures
            final(self).wf(),
            final(self).default_collection() == old(self).default_collection(),
            final(self)@ == old(self)@.remove(collection@),
            destroyed == old(self)@.dom().contains(collection@),
    {
        self.client.take(collection).is_some()
    }

    /// Takes everything out.
    pub fn destroy(&mut self) -> (destroyed: bool)
        requires
            old(self).wf(),
        ensures
            final(self).wf(),
            final(self).default_collection() == old(self).default_collection(),
            final(self)@ == DataModel::empty(),
            destroyed,
    {
        self.client = SimpleClient::new();
        true
    }
}

impl Default for SimpleStore {
    fn default() -> (store: Self)
        ensures
            store.wf(),
            store@ == DataModel::empty(),
            store.default_collection() == "default_collection"@,
    {
        SimpleStore::new()
    }
}

fn drop_expired(shelf: KeyMap<ManagedEntry>, now: i64) -> (kept: KeyMap<ManagedEntry>)
    requires
        shelf.wf(),
    ensures
        kept.wf(),
        shelf_model(kept@) == alive(shelf_model(shelf@), now),
{
    let ghost first = shelf@;
    let keys = shelf.keys();
    let ghost all = texts(keys@);
    let mut kept = shelf;
    let mut i: usize = 0;
    while i < keys.len()
        invariant
            i <= keys@.len(),
            kept.wf(),
            all == texts(keys@),
            all.no_duplicates(),
            all.to_set() == first.dom(),
            kept@.submap_of(first),
            forall|j: int|
                0 <= j < all.len() ==> (kept@.dom().contains(#[trigger] all[j]) <==> j >= i
                    || !first[all[j]]@.expired(now)),
        decreases keys@.len() - i,
    {
        let ghost before = kept@;
        let key = keys[i].as_str();
        proof {
            assert(all[i as int] == key@);
            assert(all.to_set().contains(all[i as int]));
        }
        let expired = match kept.get(key) {
            Some(entry) => entry.is_expired(now),
            None => false,
        };
        if expired {
            let _ = kept.remove(key);
        }
        proof {
            assert(before[key@] == first[key@]);
            assert forall|j: int| 0 <= j < all.len() implies (kept@.dom().contains(
                #[trigger] all[j],
            ) <==> j >= i + 1 || !first[all[j]]@.expired(now)) by {
                if j != i {
                    assert(all[j] != all[i as int]);
                }
            }
        }
        i += 1;
    }
    proof {
        let model = shelf_model(first);
        let target = alive(model, now);
        assert forall|k: Seq<char>| shelf_model(kept@).dom().contains(k) <==> target.dom().contains(
            k,
        ) by {
            if first.dom().contains(k) {
                assert(all.to_set().contains(k));
                let j = choose|j: int| 0 <= j < all.len() && all[j] == k;
                assert(model[k] == first[k]@);
                assert(kept@.dom().contains(all[j]) <==> !first[all[j]]@.expired(now));
            }
        }
        assert(shelf_model(kept@) =~= target);
    }
    kept
}

/// What was written is what is read back until it expires, and a write touches no other key.
pub proof fn law_put_is_read_back(
    data: DataModel,
    name: Seq<char>,
    key: Seq<char>,
    entry: EntryModel,
    other_name: Seq<char>,
    other_key: Seq<char>,
    now: i64,
)
    ensures
        ({
            let after = data.insert(name, shelf_of(data, name).insert(key, entry));
            &&& seen(after, name, key, now) == if entry.expired(now) {
                None
            } else {
                Some((entry.value, left_of(entry, now)))
            }
            &&& (other_name, other_key) != (name, key) ==> seen(after, other_name, other_key, now)
                == seen(data, other_name, other_key, now)
        }),
{
}

/// Culling changes nothing that a reader sees.
pub proof fn law_cull_is_invisible(data: DataModel, name: Seq<char>, key: Seq<char>, now: i64)
    ensures
        seen(data.map_values(|shelf: ShelfModel| alive(shelf, now)), name, key, now) == seen(
            data,
            name,
            key,
            now,
        ),
{
}

/// A reader sees the value of an entry that is held and lives, with the milliseconds it has left,
/// none standing for an entry that never expires.
pub proof fn law_seen(data: DataModel, name: Seq<char>, key: Seq<char>, now: i64)
    ensures
        match seen(data, name, key, now) {
            Some((value, left)) => {
                &&& data.dom().contains(name)
                &&& data[name].dom().contains(key)
                &&& value == data[name][key].value
                &&& match data[name][key].expires_at {
                    Some(t) => now < t && left == t - now,
                    None => left == 0,
                }
            },
            None => !data.dom().contains(name) || !data[name].dom().contains(key) || (
            data[name][key].expires_at matches Some(t) && t <= now),
        },
{
}

/// Of a batch the last value of each key stays; every other key keeps what it held.
pub proof fn law_filled(
    shelf: ShelfModel,
    keys: Seq<Seq<char>>,
    values: Seq<ValueModel>,
    ttl: Option<i64>,
    now: i64,
    n: nat,
    key: Seq<char>,
)
    requires
        n <= keys.len(),
        countable(ttl, now),
    ensures
        forall|i: int|
            0 <= i < n && #[trigger] keys[i] == key && (forall|j: int|
                i < j < n ==> #[trigger] keys[j] != key) ==> {
                let after = filled(shelf, keys, values, ttl, now, n);
                &&& after.dom().contains(key)
                &&& after[key].value == values[i]
                &&& after[key].expires_at == match ttl {
                    Some(t) => Some((now + t) as i64),
                    None => None,
                }
            },
        (forall|i: int| 0 <= i < n ==> #[trigger] keys[i] != key) ==> {
            let after = filled(shelf, keys, values, ttl, now, n);
            &&& after.dom().contains(key) == shelf.dom().contains(key)
            &&& shelf.dom().contains(key) ==> after[key] == shelf[key]
        },
    decreases n,
{
    if n > 0 {
        law_filled(shelf, keys, values, ttl, now, (n - 1) as nat, key);
        if keys[n - 1] == key {
            assert forall|i: int|
                0 <= i < n && #[trigger] keys[i] == key && (forall|j: int|
                    i < j < n ==> #[trigger] keys[j] != key) implies i == n - 1 by {
                if i < n - 1 {
                    assert(keys[n - 1] != key);
                }
            }
        }
    }
}

/// Deleted keys are gone, every other key of every collection keeps what it held, and what is
/// counted is the number of keys that were there, each once.
pub proof fn law_deleted(data: DataModel, name: Seq<char>, keys: Seq<Seq<char>>, n: nat)
    requires
        n <= keys.len(),
        shelf_of(data, name).dom().finite(),
    ensures
        ({
            let after = without_keys(data, name, keys, n);
            &&& after.dom() == data.dom()
            &&& forall|other: Seq<char>|
                data.dom().contains(other) && other != name ==> #[trigger] after[other]
                    == data[other]
            &&& shelf_of(after, name) == shelf_of(data, name).remove_keys(keys.take(n as int).to_set())
            &&& removed(data, name, keys, n) == shelf_of(data, name).dom().intersect(
                keys.take(n as int).to_set(),
            ).len()
        }),
    decreases n,
{
    let shelf = shelf_of(data, name);
    if n > 0 {
        let m = (n - 1) as nat;
        law_deleted(data, name, keys, m);
        let gone = keys.take(m as int).to_set();
        let key = keys[m as int];
        assert(keys.take(n as int) =~= keys.take(m as int).push(key));
        assert(keys.take(n as int).to_set() =~= gone.insert(key)) by {
            assert forall|x: Seq<char>| #[trigger]
                keys.take(n as int).contains(x) <==> keys.take(m as int).contains(x) || x == key by {
                if keys.take(m as int).contains(x) {
                    let i = choose|i: int| 0 <= i < m && keys.take(m as int)[i] == x;
                    assert(keys.take(n as int)[i] == x);
                }
                if x == key {
                    assert(keys.take(n as int)[m as int] == x);
                }
            }
        }
        let after = without_keys(data, name, keys, n);
        assert(after.dom() =~= data.dom());
        assert(shelf_of(after, name) =~= shelf.remove_keys(gone.insert(key)));
        if shelf.dom().contains(key) && !gone.contains(key) {
            assert(shelf.dom().intersect(gone.insert(key)) =~= shelf.dom().intersect(gone).insert(
                key,
            ));
        } else {
            assert(shelf.dom().intersect(gone.insert(key)) =~= shelf.dom().intersect(gone));
        }
    } else {
        assert(keys.take(0).to_set() =~= Set::empty());
        assert(shelf.remove_keys(Set::empty()) =~= shelf);
        assert(shelf.dom().intersect(Set::empty()) =~= Set::empty());
    }
}

/// Culling keeps exactly what lives, as it was.
pub proof fn law_cull_keeps_the_living(shelf: ShelfModel, key: Seq<char>, now: i64)
    ensures
        alive(shelf, now).dom().contains(key) <==> shelf.dom().contains(key) && !(
        shelf[key].expires_at matches Some(t) && t <= now),
        alive(shelf, now).dom().contains(key) ==> alive(shelf, now)[key] == shelf[key],
{
}

/// A store uses the collection that is named, and its default one where none is.
pub proof fn law_named(store: SimpleStore, name: &str)
    ensures
        store.named(Some(name)) == name@,
        store.named(None) == store.default_collection(),
{
}

/// What a reader is told is what is seen: the value with the time it has left, or nothing.
pub proof fn law_seen_model(value: Option<(Value, u64)>)
    ensures
        match value {
            Some((v, left)) => seen_model(value) == Some((v@, left)),
            None => seen_model(value) is None,
        },
{
}

/// A deleted key is seen no more, and every other key is seen as before.
pub proof fn law_deleted_is_gone(
    data: DataModel,
    name: Seq<char>,
    key: Seq<char>,
    other_name: Seq<char>,
    other_key: Seq<char>,
    now: i64,
)
    ensures
        seen(without_key(data, name, key), name, key, now) is None,
        other_name != name || other_key != key ==> seen(
            without_key(data, name, key),
            other_name,
            other_key,
            now,
        ) == seen(data, other_name, other_key, now),
        without_key(data, name, key).dom() == data.dom(),
{
    assert(without_key(data, name, key).dom() =~= data.dom());
}

} // verus!
