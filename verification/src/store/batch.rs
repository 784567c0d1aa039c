//! What batch operations of the remote stores have in common.

use crate::entry::{
    entry_bytes, entry_for, entry_of, law_entry_roundtrip, ttl_fault, EntryModel, ManagedEntry,
};
use crate::error::{Error, ErrorModel, Outcome, Result};
use crate::ordered::KeyMap;
use crate::text::{concat, texts};
use crate::value::{Value, ValueModel};
use vstd::prelude::*;
#[allow(unused_imports)]
use vstd::string::*;

verus! {

/// What a stored record must be: an entry whose time of expiry the record repeats.
///
/// `backend` is the name that errors give the store.
pub open spec fn mirrored(
    backend: Seq<char>,
    key: Seq<char>,
    raw: Seq<u8>,
    expires_at: Option<i64>,
) -> Outcome<EntryModel> {
    match entry_of(raw) {
        Err(e) => Err(
            ErrorModel::Deserialization(
                "failed to decode "@ + backend + " OKVE1 entry for key "@ + key + ": "@ + e.text(),
            ),
        ),
        Ok(entry) => if entry.expires_at != expires_at {
            Err(
                ErrorModel::Deserialization(
                    backend + " expires_at does not match OKVE1 metadata for key "@ + key,
                ),
            )
        } else {
            Ok(entry)
        },
    }
}

/// A record that was made of an entry reads back as the entry.
pub proof fn law_mirrored_roundtrip(backend: Seq<char>, key: Seq<char>, entry: EntryModel)
    ensures
        mirrored(backend, key, entry_bytes(entry), entry.expires_at) == Ok::<_, ErrorModel>(entry),
{
    law_entry_roundtrip(entry);
}

/// Reads a stored record's entry and holds its time of expiry against the record's.
pub fn decode_mirrored(
    backend: &str,
    key: &str,
    raw: &[u8],
    expires_at: Option<i64>,
) -> (entry: Result<ManagedEntry>)
    ensures
        match entry {
            Ok(e) => mirrored(backend@, key@, raw@, expires_at) == Ok::<_, ErrorModel>(e@),
            Err(e) => mirrored(backend@, key@, raw@, expires_at) == Err::<EntryModel, _>(e@),
        },
{
    let entry = match ManagedEntry::decode(raw) {
        Ok(entry) => entry,
        Err(e) => {
            let mut message = concat("failed to decode ", backend);
            message.append(" OKVE1 entry for key ");
            message.append(key);
            message.append(": ");
            message.append(e.message().as_str());
            return Err(Error::Deserialization(message));
        },
    };
    let same = match (entry.expires_at, expires_at) {
        (Some(a), Some(b)) => a == b,
        (None, None) => true,
        _ => false,
    };
    if !same {
        let mut message = concat(backend, " expires_at does not match OKVE1 metadata for key ");
        message.append(key);
        return Err(Error::Deserialization(message));
    }
    Ok(entry)
}

/// The last places of the keys from place `i` on, in increasing order: a place counts where
/// its key does not come again.
pub open spec fn last_places(keys: Seq<Seq<char>>, i: int) -> Seq<int>
    decreases keys.len() - i,
{
    if i < 0 || i >= keys.len() {
        Seq::empty()
    } else if keys.skip(i + 1).contains(keys[i]) {
        last_places(keys, i + 1)
    } else {
        seq![i] + last_places(keys, i + 1)
    }
}

/// A place is listed exactly where its key does not come again; so every key is listed once,
/// with its last place.
pub proof fn law_last_places(keys: Seq<Seq<char>>, i: int)
    requires
        0 <= i <= keys.len(),
    ensures
        forall|p: int| #[trigger]
            last_places(keys, i).contains(p) <==> i <= p < keys.len() && !keys.skip(p + 1).contains(
                keys[p],
            ),
        forall|a: int, b: int|
            0 <= a < b < last_places(keys, i).len() ==> last_places(keys, i)[a] < last_places(
                keys,
                i,
            )[b],
        forall|k: Seq<char>|
            keys.skip(i).contains(k) ==> exists|p: int| #[trigger]
                last_places(keys, i).contains(p) && keys[p] == k,
    decreases keys.len() - i,
{
    let all = last_places(keys, i);
    if i < keys.len() {
        law_last_places(keys, i + 1);
        let tail = last_places(keys, i + 1);
        let repeated = keys.skip(i + 1).contains(keys[i]);
        assert forall|p: int| #[trigger] all.contains(p) <==> i <= p < keys.len() && !keys.skip(
            p + 1,
        ).contains(keys[p]) by {
            if !repeated {
                if all.contains(p) && p != i {
                    let a = choose|a: int| 0 <= a < all.len() && all[a] == p;
                    assert(tail[a - 1] == p);
                    assert(tail.contains(p));
                }
                if tail.contains(p) {
                    let a = choose|a: int| 0 <= a < tail.len() && tail[a] == p;
                    assert(all[a + 1] == p);
                }
                if p == i {
                    assert(all[0] == i);
                }
                assert(tail.contains(p) <==> i + 1 <= p < keys.len() && !keys.skip(
                    p + 1,
                ).contains(keys[p]));
            } else {
                assert(all.contains(p) <==> tail.contains(p));
            }
        }
        if !repeated {
            assert forall|a: int, b: int| 0 <= a < b < all.len() implies all[a] < all[b] by {
                assert(all[b] == tail[b - 1]);
                assert(tail.contains(tail[b - 1]));
                if a > 0 {
                    assert(all[a] == tail[a - 1]);
                }
            }
        }
        assert forall|k: Seq<char>| keys.skip(i).contains(k) implies exists|p: int| #[trigger]
            all.contains(p) && keys[p] == k by {
            let j = choose|j: int| 0 <= j < keys.skip(i).len() && keys.skip(i)[j] == k;
            if j > 0 {
                assert(keys.skip(i + 1)[j - 1] == k);
                assert(keys.skip(i + 1).contains(k));
            }
            if keys.skip(i + 1).contains(k) {
                let p = choose|p: int| #[trigger] tail.contains(p) && keys[p] == k;
                assert(all.contains(p));
            } else {
                assert(k == keys[i]);
                assert(all[0] == i);
                assert(all.contains(i));
            }
        }
    }
}

/// The last place of each key, in increasing order: in a batch the last value wins.
pub fn last_indices(keys: &Vec<String>) -> (places: Vec<usize>)
    ensures
        places@.map_values(|i: usize| i as int) == last_places(texts(keys@), 0),
        forall|a: int| 0 <= a < places@.len() ==> #[trigger] places@[a] < keys@.len(),
{
    let ghost all = texts(keys@);
    let mut seen: KeyMap<()> = KeyMap::new();
    let mut backwards: Vec<usize> = Vec::new();
    let mut i: usize = keys.len();
    proof {
        assert(all.skip(i as int) =~= Seq::empty());
        assert(seen@.dom() =~= Set::empty());
        assert(backwards@.map_values(|i: usize| i as int).reverse() =~= last_places(
            all,
            i as int,
        ));
    }
    while i > 0
        invariant
            i <= keys@.len(),
            all == texts(keys@),
            seen.wf(),
            forall|k: Seq<char>| #[trigger]
                seen@.dom().contains(k) <==> all.skip(i as int).contains(k),
            backwards@.map_values(|i: usize| i as int).reverse() == last_places(all, i as int),
            forall|a: int| 0 <= a < backwards@.len() ==> #[trigger] backwards@[a] < keys@.len(),
        decreases i,
    {
        let ghost known = seen@;
        let ghost before = backwards@;
        i -= 1;
        proof {
            assert(all[i as int] == keys@[i as int]@);
            assert(known.dom().contains(all[i as int]) <==> all.skip(i + 1).contains(
                all[i as int],
            ));
        }
        if seen.insert(keys[i].clone(), ()) {
            backwards.push(i);
            proof {
                let b = before.map_values(|i: usize| i as int);
                assert(backwards@.map_values(|i: usize| i as int) =~= b.push(i as int));
                assert(b.push(i as int).reverse() =~= seq![i as int] + b.reverse());
            }
        }
        proof {
            assert forall|k: Seq<char>| #[trigger]
                seen@.dom().contains(k) <==> all.skip(i as int).contains(k) by {
                assert(seen@.dom().contains(k) <==> known.dom().contains(k) || k == all[i as int]);
                let rest = all.skip(i + 1);
                if rest.contains(k) {
                    let j = choose|j: int| 0 <= j < rest.len() && rest[j] == k;
                    assert(all.skip(i as int)[j + 1] == k);
                }
                if k == all[i as int] {
                    assert(all.skip(i as int)[0] == k);
                }
                if all.skip(i as int).contains(k) && k != all[i as int] {
                    let here = all.skip(i as int);
                    let j = choose|j: int| 0 <= j < here.len() && here[j] == k;
                    assert(rest[j - 1] == k);
                }
            }
        }
    }
    let mut places: Vec<usize> = Vec::new();
    let mut n: usize = backwards.len();
    proof {
        assert(backwards@.skip(n as int).reverse() =~= places@);
    }
    while n > 0
        invariant
            n <= backwards@.len(),
            places@ == backwards@.skip(n as int).reverse(),
            forall|a: int| 0 <= a < backwards@.len() ==> #[trigger] backwards@[a] < keys@.len(),
        decreases n,
    {
        n -= 1;
        places.push(backwards[n]);
        proof {
            assert(places@ =~= backwards@.skip(n as int).reverse());
        }
    }
    proof {
        assert(backwards@.skip(0) =~= backwards@);
        assert(places@.map_values(|i: usize| i as int) =~= backwards@.map_values(
            |i: usize| i as int,
        ).reverse());
    }
    places
}

/// The keys of a list, each where it first occurs.
pub open spec fn distinct(keys: Seq<Seq<char>>) -> Seq<Seq<char>>
    decreases keys.len(),
{
    if keys.len() == 0 {
        Seq::empty()
    } else {
        let front = distinct(keys.drop_last());
        if front.contains(keys.last()) {
            front
        } else {
            front.push(keys.last())
        }
    }
}

/// The distinct keys are the keys of the list, each once.
pub proof fn law_distinct(keys: Seq<Seq<char>>)
    ensures
        distinct(keys).no_duplicates(),
        forall|k: Seq<char>| #[trigger] distinct(keys).contains(k) <==> keys.contains(k),
    decreases keys.len(),
{
    if keys.len() > 0 {
        let front = keys.drop_last();
        law_distinct(front);
        let d = distinct(keys);
        let last = keys.last();
        assert forall|k: Seq<char>| #[trigger] d.contains(k) <==> keys.contains(k) by {
            assert(keys.contains(k) <==> front.contains(k) || k == last) by {
                if keys.contains(k) {
                    let i = choose|i: int| 0 <= i < keys.len() && keys[i] == k;
                    if i < front.len() {
                        assert(front[i] == k);
                    }
                }
                if front.contains(k) {
                    let i = choose|i: int| 0 <= i < front.len() && front[i] == k;
                    assert(keys[i] == k);
                }
                if k == last {
                    assert(keys[keys.len() - 1] == k);
                }
            }
            let df = distinct(front);
            if !df.contains(last) {
                assert(d == df.push(last));
                if df.contains(k) {
                    let i = choose|i: int| 0 <= i < df.len() && df[i] == k;
                    assert(d[i] == k);
                }
                if k == last {
                    assert(d[d.len() - 1] == k);
                }
                if d.contains(k) && k != last {
                    let i = choose|i: int| 0 <= i < d.len() && d[i] == k;
                    assert(df[i] == k);
                }
            }
        }
    }
}

/// The keys of a list, each where it first occurs.
pub fn distinct_keys(keys: &Vec<String>) -> (unique: Vec<String>)
    ensures
        texts(unique@) == distinct(texts(keys@)),
{
    let ghost all = texts(keys@);
    let mut seen: KeyMap<()> = KeyMap::new();
    let mut unique: Vec<String> = Vec::new();
    let mut i: usize = 0;
    proof {
        assert(all.take(0) =~= Seq::empty());
        assert(texts(unique@) =~= Seq::empty());
    }
    while i < keys.len()
        invariant
            i <= keys@.len(),
            all == texts(keys@),
            seen.wf(),
            texts(unique@) == distinct(all.take(i as int)),
            forall|k: Seq<char>| #[trigger]
                seen@.dom().contains(k) <==> texts(unique@).contains(k),
        decreases keys@.len() - i,
    {
        let ghost before = unique@;
        let ghost known = seen@;
        proof {
            assert(all.take(i + 1).drop_last() =~= all.take(i as int));
            assert(all[i as int] == keys@[i as int]@);
        }
        if seen.insert(keys[i].clone(), ()) {
            unique.push(keys[i].clone());
            proof {
                assert(texts(unique@) =~= texts(before).push(all[i as int]));
            }
        }
        proof {
            assert forall|k: Seq<char>| #[trigger]
                seen@.dom().contains(k) <==> texts(unique@).contains(k) by {
                assert(seen@.dom().contains(k) <==> known.dom().contains(k) || k == all[i as int]);
                if texts(before).contains(k) {
                    let j = choose|j: int| 0 <= j < texts(before).len() && texts(before)[j] == k;
                    assert(texts(unique@)[j] == k);
                }
                if k == all[i as int] && !known.dom().contains(k) {
                    assert(texts(unique@)[texts(unique@).len() - 1] == k);
                }
                if texts(unique@).contains(k) && unique@.len() > before.len() {
                    let j = choose|j: int| 0 <= j < texts(unique@).len() && texts(unique@)[j] == k;
                    if j < before.len() {
                        assert(texts(before)[j] == k);
                    }
                }
            }
        }
        i += 1;
    }
    assert(all.take(i as int) =~= all);
    unique
}

/// The model of an optional entry.
pub open spec fn entry_model(entry: Option<ManagedEntry>) -> Option<EntryModel> {
    match entry {
        Some(e) => Some(e@),
        None => None,
    }
}

/// What a batch read has gathered: the live entries by key, and which records had expired.
pub struct BatchRead {
    entries: KeyMap<ManagedEntry>,
    expired: Vec<usize>,
}

/// The model of [`BatchRead`].
#[verifier::ext_equal]
pub struct BatchModel {
    pub entries: Map<Seq<char>, EntryModel>,
    pub expired: Seq<int>,
}

impl View for BatchRead {
    type V = BatchModel;

    closed spec fn view(&self) -> BatchModel {
        BatchModel {
            entries: self.entries@.map_values(|e: ManagedEntry| e@),
            expired: self.expired@.map_values(|i: usize| i as int),
        }
    }
}

impl BatchModel {
    pub open spec fn nothing() -> BatchModel {
        BatchModel { entries: Map::empty(), expired: Seq::empty() }
    }

    /// The batch after one more record: an expired one is noted, a live one gathered; a live
    /// one whose key is already there is an error that names `source`.
    pub open spec fn taken_in(
        self,
        source: Seq<char>,
        index: int,
        key: Seq<char>,
        entry: EntryModel,
        now: i64,
    ) -> Outcome<BatchModel> {
        if entry.expired(now) {
            Ok(BatchModel { expired: self.expired.push(index), ..self })
        } else if self.entries.dom().contains(key) {
            Err(ErrorModel::Deserialization(source + " returned duplicate key "@ + key))
        } else {
            Ok(BatchModel { entries: self.entries.insert(key, entry), ..self })
        }
    }

    /// The batch after one more answer for a key, which replaces an earlier one: a live entry
    /// is kept, an expired one noted.
    pub open spec fn answered(
        self,
        index: int,
        key: Seq<char>,
        entry: Option<EntryModel>,
        now: i64,
    ) -> BatchModel {
        match entry {
            Some(e) => if e.expired(now) {
                BatchModel {
                    entries: self.entries.remove(key),
                    expired: self.expired.push(index),
                }
            } else {
                BatchModel { entries: self.entries.insert(key, e), ..self }
            },
            None => BatchModel { entries: self.entries.remove(key), ..self },
        }
    }

    /// What the batch holds under a key.
    pub open spec fn found(self, key: Seq<char>) -> Option<EntryModel> {
        if self.entries.dom().contains(key) {
            Some(self.entries[key])
        } else {
            None
        }
    }
}

impl BatchRead {
    pub closed spec fn wf(&self) -> bool {
        self.entries.wf()
    }

    pub fn new() -> (batch: Self)
        ensures
            batch.wf(),
            batch@ == BatchModel::nothing(),
    {
        let batch = BatchRead { entries: KeyMap::new(), expired: Vec::new() };
        assert(batch@.entries =~= Map::empty());
        assert(batch@.expired =~= Seq::empty());
        batch
    }

    /// Takes in one more record.
    pub fn take_in(
        &mut self,
        source: &str,
        index: usize,
        key: &str,
        entry: ManagedEntry,
        now: i64,
    ) -> (result: Result<()>)
        requires
            old(self).wf(),
        ensures
            final(self).wf(),
            match result {
                Ok(_) => old(self)@.taken_in(source@, index as int, key@, entry@, now) == Ok::<
                    _,
                    ErrorModel,
                >(final(self)@),
                Err(e) => old(self)@.taken_in(source@, index as int, key@, entry@, now) == Err::<
                    BatchModel,
                    _,
                >(e@) && final(self)@ == old(self)@,
            },
    {
        let ghost before = self@;
        if entry.is_expired(now) {
            self.expired.push(index);
            proof {
                assert(self@.expired =~= before.expired.push(index as int));
            }
            return Ok(());
        }
        if self.entries.contains(key) {
            let mut message = concat(source, " returned duplicate key ");
            message.append(key);
            return Err(Error::Deserialization(message));
        }
        let ghost model = entry@;
        let _ = self.entries.insert(key.to_owned(), entry);
        proof {
            assert(self@.entries =~= before.entries.insert(key@, model));
        }
        Ok(())
    }

    /// Takes in one more answer for a key, in place of an earlier one.
    pub fn answer(&mut self, index: usize, key: &str, entry: Option<ManagedEntry>, now: i64)
        requires
            old(self).wf(),
        ensures
            final(self).wf(),
            final(self)@ == old(self)@.answered(index as int, key@, entry_model(entry), now),
    {
        let ghost before = self@;
        let ghost after = before.answered(index as int, key@, entry_model(entry), now);
        match entry {
            Some(e) => {
                if e.is_expired(now) {
                    let _ = self.entries.remove(key);
                    self.expired.push(index);
                } else {
                    let _ = self.entries.insert(key.to_owned(), e);
                }
            },
            None => {
                let _ = self.entries.remove(key);
            },
        }
        proof {
            assert(self@.entries =~= after.entries);
            assert(self@.expired =~= after.expired);
        }
    }

    /// The entry under a key.
    pub fn get(&self, key: &str) -> (entry: Option<&ManagedEntry>)
        requires
            self.wf(),
        ensures
            match entry {
                Some(e) => self@.found(key@) == Some(e@),
                None => self@.found(key@) is None,
            },
    {
        self.entries.get(key)
    }

    /// The places of the records that had expired.
    pub fn expired(&self) -> (places: &Vec<usize>)
        ensures
            places@.map_values(|i: usize| i as int) == self@.expired,
    {
        &self.expired
    }

    /// The values for a list of keys, in its order.
    pub fn values(&self, keys: &Vec<String>) -> (values: Vec<Option<Value>>)
        requires
            self.wf(),
        ensures
            values@.len() == keys@.len(),
            forall|i: int|
                0 <= i < values@.len() ==> match #[trigger] values@[i] {
                    Some(v) => self@.found(keys@[i]@) matches Some(e) && v@ == e.value,
                    None => self@.found(keys@[i]@) is None,
                },
    {
        let mut values: Vec<Option<Value>> = Vec::new();
        let mut i: usize = 0;
        while i < keys.len()
            invariant
                i <= keys@.len(),
                self.wf(),
                values@.len() == i,
                forall|j: int|
                    0 <= j < i ==> match #[trigger] values@[j] {
                        Some(v) => self@.found(keys@[j]@) matches Some(e) && v@ == e.value,
                        None => self@.found(keys@[j]@) is None,
                    },
            decreases keys@.len() - i,
        {
            let value = match self.get(keys[i].as_str()) {
                Some(entry) => Some(entry.value.clone()),
                None => None,
            };
            values.push(value);
            i += 1;
        }
        values
    }

    /// The values and remaining times for a list of keys, in its order.
    pub fn values_with_ttl(&self, keys: &Vec<String>, now: i64) -> (values: Vec<
        Option<(Value, Option<u64>)>,
    >)
        requires
            self.wf(),
        ensures
            values@.len() == keys@.len(),
            forall|i: int|
                0 <= i < values@.len() ==> match #[trigger] values@[i] {
                    Some((v, ttl)) => self@.found(keys@[i]@) matches Some(e) && v@ == e.value
                        && ttl == e.ttl(now),
                    None => self@.found(keys@[i]@) is None,
                },
    {
        let mut values: Vec<Option<(Value, Option<u64>)>> = Vec::new();
        let mut i: usize = 0;
        while i < keys.len()
            invariant
                i <= keys@.len(),
                self.wf(),
                values@.len() == i,
                forall|j: int|
                    0 <= j < i ==> match #[trigger] values@[j] {
                        Some((v, ttl)) => self@.found(keys@[j]@) matches Some(e) && v@ == e.value
                            && ttl == e.ttl(now),
                        None => self@.found(keys@[j]@) is None,
                    },
            decreases keys@.len() - i,
        {
            let value = match self.get(keys[i].as_str()) {
                Some(entry) => Some((entry.value.clone(), entry.ttl(now))),
                None => None,
            };
            values.push(value);
            i += 1;
        }
        values
    }
}

/// Why a batch write cannot start, if it cannot.
pub open spec fn batch_fault(
    keys: nat,
    values: nat,
    ttl: Option<i64>,
    now: i64,
) -> Option<ErrorModel> {
    if keys != values {
        Some(ErrorModel::BatchSizeMismatch { keys, values })
    } else {
        match ttl {
            Some(t) => ttl_fault(t, now),
            None => None,
        }
    }
}

/// Checks the sizes and the time to live of a batch write.
pub fn check_batch(
    keys: &Vec<String>,
    values: &Vec<Value>,
    ttl: Option<i64>,
    now: i64,
) -> (result: Result<()>)
    ensures
        match result {
            Ok(_) => batch_fault(keys@.len(), values@.len(), ttl, now) is None,
            Err(e) => batch_fault(keys@.len(), values@.len(), ttl, now) == Some(e@),
        },
{
    if keys.len() != values.len() {
        return Err(Error::BatchSizeMismatch { keys: keys.len(), values: values.len() });
    }
    match ttl {
        Some(t) => ManagedEntry::validate_ttl(t, now),
        None => Ok(()),
    }
}

/// One write of a batch: which place of the batch it is, and the entry to store.
pub struct BatchWrite {
    pub index: usize,
    pub entry: ManagedEntry,
}

/// The model of a list of writes.
pub open spec fn writes_model(writes: Seq<BatchWrite>) -> Seq<(int, EntryModel)> {
    writes.map_values(|w: BatchWrite| (w.index as int, w.entry@))
}

/// The writes of a batch: for each key its last value, in the order of the last places.
pub open spec fn batch_writes(
    keys: Seq<Seq<char>>,
    values: Seq<ValueModel>,
    ttl: Option<i64>,
    now: i64,
) -> Seq<(int, EntryModel)> {
    last_places(keys, 0).map_values(|i: int| (i, entry_for(values[i], ttl, now)->Ok_0))
}

/// Prepares the writes of a batch, the last value of each key winning.
pub fn prepare_writes(
    keys: &Vec<String>,
    values: &Vec<Value>,
    ttl: Option<i64>,
    now: i64,
) -> (writes: Result<Vec<BatchWrite>>)
    ensures
        match writes {
            Ok(w) => batch_fault(keys@.len(), values@.len(), ttl, now) is None && writes_model(w@)
                == batch_writes(
                texts(keys@),
                values@.map_values(|v: Value| v@),
                ttl,
                now,
            ),
            Err(e) => batch_fault(keys@.len(), values@.len(), ttl, now) == Some(e@),
        },
{
    check_batch(keys, values, ttl, now)?;
    let places = last_indices(keys);
    let ghost models = values@.map_values(|v: Value| v@);
    let ghost all = batch_writes(texts(keys@), models, ttl, now);
    let mut writes: Vec<BatchWrite> = Vec::new();
    let mut i: usize = 0;
    while i < places.len()
        invariant
            i <= places@.len(),
            keys@.len() == values@.len(),
            batch_fault(keys@.len(), values@.len(), ttl, now) is None,
            places@.map_values(|i: usize| i as int) == last_places(texts(keys@), 0),
            forall|a: int| 0 <= a < places@.len() ==> #[trigger] places@[a] < keys@.len(),
            models == values@.map_values(|v: Value| v@),
            all == batch_writes(texts(keys@), models, ttl, now),
            all.len() == places@.len(),
            writes@.len() == i,
            writes_model(writes@) == all.take(i as int),
        decreases places@.len() - i,
    {
        let index: usize = places[i];
        let ghost before = writes@;
        proof {
            assert(last_places(texts(keys@), 0)[i as int] == index as int);
            assert(models[index as int] == values@[index as int]@);
        }
        let entry = ManagedEntry::with_optional_ttl(values[index].clone(), ttl, now)?;
        let ghost model = entry@;
        writes.push(BatchWrite { index, entry });
        proof {
            assert(writes_model(writes@) =~= writes_model(before).push((index as int, model)));
            assert(all[i as int] == (index as int, model));
            assert(all.take(i + 1) =~= all.take(i as int).push(all[i as int]));
        }
        i += 1;
    }
    assert(all.take(i as int) =~= all);
    Ok(writes)
}

/// The distinct keys keep the order of the list: a key stands behind another exactly where every
/// place of it is behind some place of the other.
pub proof fn law_distinct_in_order(keys: Seq<Seq<char>>, a: int, b: int, j: int)
    requires
        0 <= a < b < distinct(keys).len(),
        0 <= j < keys.len(),
        keys[j] == distinct(keys)[b],
    ensures
        exists|i: int| 0 <= i < j && #[trigger] keys[i] == distinct(keys)[a],
    decreases keys.len(),
{
    let front = keys.drop_last();
    let before = distinct(front);
    law_distinct(front);
    if b < before.len() {
        assert(before.contains(before[b]));
        let k = if j < front.len() {
            j
        } else {
            choose|k: int| 0 <= k < front.len() && front[k] == before[b]
        };
        law_distinct_in_order(front, a, b, k);
        let i = choose|i: int| 0 <= i < k && #[trigger] front[i] == before[a];
        assert(keys[i] == distinct(keys)[a]);
    } else {
        if j < front.len() {
            assert(front.contains(front[j]));
            assert(before.contains(keys[j]));
        }
        assert(before.contains(before[a]));
        let i = choose|i: int| 0 <= i < front.len() && front[i] == before[a];
        assert(keys[i] == distinct(keys)[a]);
    }
}

/// Of a batch every key is written once, with the value of its last place and nothing else; the
/// writes come in the order of the batch.
pub proof fn law_batch_writes(
    keys: Seq<Seq<char>>,
    values: Seq<ValueModel>,
    ttl: Option<i64>,
    now: i64,
)
    requires
        batch_fault(keys.len(), values.len(), ttl, now) is None,
    ensures
        ({
            let writes = batch_writes(keys, values, ttl, now);
            &&& forall|a: int|
                0 <= a < writes.len() ==> {
                    let (p, entry) = #[trigger] writes[a];
                    &&& 0 <= p < keys.len()
                    &&& entry.value == values[p]
                    &&& entry.created_at == Some(now)
                    &&& match ttl {
                        Some(t) => entry.expires_at == Some((now + t) as i64),
                        None => entry.expires_at is None,
                    }
                    &&& forall|q: int| p < q < keys.len() ==> #[trigger] keys[q] != keys[p]
                }
            &&& forall|a: int, b: int|
                0 <= a < b < writes.len() ==> (#[trigger] writes[a]).0 < (#[trigger] writes[b]).0
            &&& forall|i: int|
                0 <= i < keys.len() ==> exists|a: int|
                    0 <= a < writes.len() && keys[(#[trigger] writes[a]).0] == #[trigger] keys[i]
        }),
{
    law_last_places(keys, 0);
    let places = last_places(keys, 0);
    let writes = batch_writes(keys, values, ttl, now);
    assert forall|a: int| 0 <= a < writes.len() implies {
        let (p, entry) = #[trigger] writes[a];
        &&& 0 <= p < keys.len()
        &&& entry.value == values[p]
        &&& entry.created_at == Some(now)
        &&& match ttl {
            Some(t) => entry.expires_at == Some((now + t) as i64),
            None => entry.expires_at is None,
        }
        &&& forall|q: int| p < q < keys.len() ==> #[trigger] keys[q] != keys[p]
    } by {
        let p = writes[a].0;
        assert(places[a] == p);
        assert(places.contains(p));
        assert forall|q: int| p < q < keys.len() implies #[trigger] keys[q] != keys[p] by {
            if keys[q] == keys[p] {
                assert(keys.skip(p + 1)[q - p - 1] == keys[p]);
            }
        }
    }
    assert forall|a: int, b: int| 0 <= a < b < writes.len() implies (#[trigger] writes[a]).0 < (
    #[trigger] writes[b]).0 by {
        assert(places[a] < places[b]);
    }
    assert forall|i: int| 0 <= i < keys.len() implies exists|a: int|
        0 <= a < writes.len() && keys[(#[trigger] writes[a]).0] == #[trigger] keys[i] by {
        assert(keys.skip(0) =~= keys);
        assert(keys.contains(keys[i]));
        let p = choose|p: int| #[trigger] places.contains(p) && keys[p] == keys[i];
        let a = choose|a: int| 0 <= a < places.len() && places[a] == p;
        assert(writes[a].0 == p);
    }
}

/// A batch write starts exactly where there are as many values as keys and the time to live, if
/// there is one, is positive and ends within the calendar.
pub proof fn law_batch_starts(keys: nat, values: nat, ttl: Option<i64>, now: i64)
    ensures
        batch_fault(keys, values, ttl, now) is None <==> keys == values && (ttl matches Some(t)
            ==> 0 < t && now + t <= crate::utils::ttl::CALENDAR_END),
        keys != values ==> batch_fault(keys, values, ttl, now) == Some(
            ErrorModel::BatchSizeMismatch { keys, values },
        ),
        keys == values ==> (batch_fault(keys, values, ttl, now) matches Some(e) ==> ttl matches Some(
            t,
        ) && e == ErrorModel::InvalidTtl(t)),
{
}

/// A record reads as an entry exactly where it holds the stored form of that entry and repeats its
/// time of expiry; all else is a deserialization error.
pub proof fn law_mirrored_exact(
    backend: Seq<char>,
    key: Seq<char>,
    raw: Seq<u8>,
    expires_at: Option<i64>,
)
    ensures
        forall|entry: EntryModel| #[trigger]
            mirrored(backend, key, raw, expires_at) == Ok::<_, ErrorModel>(entry) <==> raw
                == entry_bytes(entry) && expires_at == entry.expires_at,
        mirrored(backend, key, raw, expires_at) matches Err(e) ==> e is Deserialization,
{
    crate::entry::law_entry_exact(raw);
    assert forall|entry: EntryModel| #[trigger]
        mirrored(backend, key, raw, expires_at) == Ok::<_, ErrorModel>(entry) <==> raw
            == entry_bytes(entry) && expires_at == entry.expires_at by {
        law_entry_roundtrip(entry);
    }
}

impl BatchModel {
    /// Taking in a live record makes it what is found under its key, which had nothing before, and
    /// leaves every other key; taking in an expired one changes nothing that is found.
    pub proof fn law_taken_in(
        self,
        source: Seq<char>,
        index: int,
        key: Seq<char>,
        entry: EntryModel,
        now: i64,
        other: Seq<char>,
    )
        ensures
            self.taken_in(source, index, key, entry, now) is Err <==> !entry.expired(now)
                && self.found(key) is Some,
            self.taken_in(source, index, key, entry, now) matches Ok(after) ==> {
                &&& after.found(key) == if entry.expired(now) {
                    self.found(key)
                } else {
                    Some(entry)
                }
                &&& other != key ==> after.found(other) == self.found(other)
                &&& after.expired == if entry.expired(now) {
                    self.expired.push(index)
                } else {
                    self.expired
                }
            },
    {
    }

    /// The last answer for a key is what is found under it, if it lives.
    pub proof fn law_answered(
        self,
        index: int,
        key: Seq<char>,
        entry: Option<EntryModel>,
        now: i64,
        other: Seq<char>,
    )
        ensures
            ({
                let after = self.answered(index, key, entry, now);
                &&& match entry {
                    Some(e) => after.found(key) == if e.expired(now) {
                        None
                    } else {
                        Some(e)
                    },
                    None => after.found(key) is None,
                }
                &&& other != key ==> after.found(other) == self.found(other)
                &&& after.expired == if entry matches Some(e) && e.expired(now) {
                    self.expired.push(index)
                } else {
                    self.expired
                }
            }),
    {
    }
}

/// The writes of a list stand for their places and entries, one for each, in order.
pub proof fn law_write_list(writes: Seq<BatchWrite>, i: int)
    requires
        0 <= i < writes.len(),
    ensures
        writes_model(writes).len() == writes.len(),
        writes_model(writes)[i].0 == writes[i].index,
        writes_model(writes)[i].1.value == writes[i].entry.value@,
        writes_model(writes)[i].1.created_at == writes[i].entry.created_at,
        writes_model(writes)[i].1.expires_at == writes[i].entry.expires_at,
{
}

} // verus!
