//! Writes: what is handed to the scripts that store an entry.

use crate::cas::{encode, envelope, law_envelope_roundtrip, CasModel};
use crate::entry::{entry_for, ManagedEntry};
use crate::error::{ErrorModel, Outcome, Result};
use crate::protocol::{lemma_revision_len, Revision, RevisionedModel};
use crate::store::batch::{batch_fault, check_batch};
use crate::store::redis::reply::slot_visible;
use crate::text::{append_bytes, decimal, decimal_string, texts};
use crate::utils::compound::{compound, subspace_compound_key, subspace_prefix, Subspace};
use crate::value::{Value, ValueModel};
use vstd::prelude::*;
#[allow(unused_imports)]
use vstd::string::*;

verus! {

/// A write, ready for a script.
#[derive(Debug, PartialEq, Eq)]
pub struct SlotWrite {
    /// The key in the server.
    pub identity: String,
    /// The entry with its new revision.
    pub envelope: Vec<u8>,
    /// The time to live in milliseconds; `0` for none.
    pub milliseconds: String,
    pub revision: Revision,
}

/// The model of [`SlotWrite`].
#[verifier::ext_equal]
pub struct SlotModel {
    pub identity: Seq<char>,
    pub envelope: Seq<u8>,
    pub milliseconds: Seq<char>,
    pub revision: Seq<u8>,
}

impl View for SlotWrite {
    type V = SlotModel;

    open spec fn view(&self) -> SlotModel {
        SlotModel {
            identity: self.identity@,
            envelope: self.envelope@,
            milliseconds: self.milliseconds@,
            revision: self.revision@,
        }
    }
}

/// The time to live, as scripts take it.
pub open spec fn milliseconds_argument(ttl: Option<i64>) -> Seq<char> {
    match ttl {
        Some(t) if t > 0 => decimal(t as nat),
        _ => "0"@,
    }
}

/// The write of a value under a key with a revision.
pub open spec fn write_of(
    keyspace: Seq<char>,
    collection: Seq<char>,
    key: Seq<char>,
    value: ValueModel,
    ttl: Option<i64>,
    revision: Seq<u8>,
    now: i64,
) -> Outcome<SlotModel> {
    match entry_for(value, ttl, now) {
        Err(e) => Err(e),
        Ok(entry) => Ok(
            SlotModel {
                identity: subspace_prefix(keyspace) + compound(collection, key),
                envelope: envelope(CasModel { entry, revision }),
                milliseconds: milliseconds_argument(ttl),
                revision,
            },
        ),
    }
}

/// What was written is what is read back until it expires: the value, under the revision of the
/// write.
pub proof fn law_write_is_read_back(
    keyspace: Seq<char>,
    collection: Seq<char>,
    key: Seq<char>,
    value: ValueModel,
    ttl: Option<i64>,
    revision: Seq<u8>,
    now: i64,
    later: i64,
)
    requires
        revision.len() == 16,
        write_of(keyspace, collection, key, value, ttl, revision, now) is Ok,
    ensures
        ({
            let write = write_of(keyspace, collection, key, value, ttl, revision, now)->Ok_0;
            let entry = entry_for(value, ttl, now)->Ok_0;
            slot_visible(Some(write.envelope), later) == Ok::<_, ErrorModel>(
                if entry.expired(later) {
                    None
                } else {
                    Some(RevisionedModel { value, revision, ttl: entry.ttl(later) })
                },
            )
        }),
{
    law_envelope_roundtrip(CasModel { entry: entry_for(value, ttl, now)->Ok_0, revision });
}

/// Prepares the write of a value under a key with a revision.
pub fn write_with_revision(
    keyspace: &Subspace,
    collection: &str,
    key: &str,
    value: Value,
    ttl: Option<i64>,
    revision: Revision,
    now: i64,
) -> (write: Result<SlotWrite>)
    ensures
        match write {
            Ok(w) => write_of(keyspace@, collection@, key@, value@, ttl, revision@, now) == Ok::<
                _,
                ErrorModel,
            >(w@),
            Err(e) => write_of(keyspace@, collection@, key@, value@, ttl, revision@, now) == Err::<
                SlotModel,
                _,
            >(e@),
        },
{
    let entry = ManagedEntry::with_optional_ttl(value, ttl, now)?;
    let milliseconds = match ttl {
        Some(t) if t > 0 => decimal_string(t as u64),
        _ => "0".to_owned(),
    };
    Ok(
        SlotWrite {
            identity: subspace_compound_key(keyspace, collection, key),
            envelope: encode(&entry, revision),
            milliseconds,
            revision,
        },
    )
}

/// Prepares the write of a value under a key with a fresh revision.
///
/// The time to live is judged and the revision drawn before anything is sent, so that a failure
/// leaves no partial write behind.
pub fn fresh_write(
    keyspace: &Subspace,
    collection: &str,
    key: &str,
    value: Value,
    ttl: Option<i64>,
    now: i64,
) -> (write: Result<SlotWrite>)
    ensures
        match write {
            Ok(w) => write_of(keyspace@, collection@, key@, value@, ttl, w.revision@, now) == Ok::<
                _,
                ErrorModel,
            >(w@),
            Err(e) => match entry_for(value@, ttl, now) {
                Err(fault) => e@ == fault,
                Ok(_) => e@ is RevisionGeneration,
            },
        },
{
    let _ = ManagedEntry::with_optional_ttl(value.clone(), ttl, now)?;
    let revision = Revision::fresh()?;
    write_with_revision(keyspace, collection, key, value, ttl, revision, now)
}

/// The revision that a compare-and-swap expects, as scripts take it: empty where it expects no
/// entry.
pub open spec fn expected_argument(expected: Option<Revision>) -> Seq<u8> {
    match expected {
        Some(revision) => revision@,
        None => Seq::empty(),
    }
}

/// The revision that a compare-and-swap expects, as scripts take it.
///
/// Expecting no entry is thus told apart from expecting any revision.
pub fn expected_bytes(expected: Option<Revision>) -> (bytes: Vec<u8>)
    ensures
        bytes@ == expected_argument(expected),
        bytes@.len() == 0 <==> expected is None,
{
    match expected {
        Some(revision) => {
            let raw = *revision.as_bytes();
            let mut bytes: Vec<u8> = Vec::new();
            append_bytes(&mut bytes, raw.as_slice());
            proof {
                lemma_revision_len(revision);
                assert(bytes@ =~= revision@);
            }
            bytes
        },
        None => Vec::new(),
    }
}

/// The keys in the server for some keys of a collection.
pub open spec fn identities_of(
    keyspace: Seq<char>,
    collection: Seq<char>,
    keys: Seq<Seq<char>>,
) -> Seq<Seq<char>> {
    keys.map_values(|k: Seq<char>| subspace_prefix(keyspace) + compound(collection, k))
}

/// The keys in the server for some keys of a collection.
pub fn identities(keyspace: &Subspace, collection: &str, keys: &Vec<String>) -> (list: Vec<String>)
    ensures
        texts(list@) == identities_of(keyspace@, collection@, texts(keys@)),
{
    let ghost all = identities_of(keyspace@, collection@, texts(keys@));
    let mut list: Vec<String> = Vec::new();
    let mut i: usize = 0;
    while i < keys.len()
        invariant
            i <= keys@.len(),
            all == identities_of(keyspace@, collection@, texts(keys@)),
            texts(list@) =~= all.take(i as int),
        decreases keys@.len() - i,
    {
        let ghost before = list@;
        let identity = subspace_compound_key(keyspace, collection, keys[i].as_str());
        let ghost text = identity@;
        list.push(identity);
        proof {
            assert(texts(list@) =~= texts(before).push(text));
            assert(all[i as int] == text);
        }
        i += 1;
    }
    assert(all.take(i as int) =~= all);
    list
}

/// Whether a list holds the write of each key's value, whatever revisions were drawn.
pub open spec fn writes_batch(
    writes: Seq<SlotWrite>,
    keyspace: Seq<char>,
    collection: Seq<char>,
    keys: Seq<Seq<char>>,
    values: Seq<ValueModel>,
    ttl: Option<i64>,
    now: i64,
) -> bool {
    &&& writes.len() == keys.len()
    &&& forall|i: int|
        0 <= i < keys.len() ==> write_of(
            keyspace,
            collection,
            keys[i],
            values[i],
            ttl,
            (#[trigger] writes[i]).revision@,
            now,
        ) == Ok::<_, ErrorModel>(writes[i]@)
}

/// Prepares the writes of a batch, each with a fresh revision, before any is sent.
pub fn fresh_writes(
    keyspace: &Subspace,
    collection: &str,
    keys: &Vec<String>,
    values: &Vec<Value>,
    ttl: Option<i64>,
    now: i64,
) -> (writes: Result<Vec<SlotWrite>>)
    ensures
        match writes {
            Ok(w) => batch_fault(keys@.len(), values@.len(), ttl, now) is None && writes_batch(
                w@,
                keyspace@,
                collection@,
                texts(keys@),
                values@.map_values(|v: Value| v@),
                ttl,
                now,
            ),
            Err(e) => match batch_fault(keys@.len(), values@.len(), ttl, now) {
                Some(fault) => e@ == fault,
                None => keys@.len() > 0 && e@ is RevisionGeneration,
            },
        },
{
    check_batch(keys, values, ttl, now)?;
    let ghost models = values@.map_values(|v: Value| v@);
    let mut writes: Vec<SlotWrite> = Vec::new();
    let mut i: usize = 0;
    while i < keys.len()
        invariant
            i <= keys@.len(),
            keys@.len() == values@.len(),
            batch_fault(keys@.len(), values@.len(), ttl, now) is None,
            models == values@.map_values(|v: Value| v@),
            writes_batch(
                writes@,
                keyspace@,
                collection@,
                texts(keys@).take(i as int),
                models,
                ttl,
                now,
            ),
        decreases keys@.len() - i,
    {
        let ghost before = writes@;
        let write = fresh_write(
            keyspace,
            collection,
            keys[i].as_str(),
            values[i].clone(),
            ttl,
            now,
        )?;
        writes.push(write);
        proof {
            let done = texts(keys@).take(i + 1);
            assert forall|j: int| 0 <= j < done.len() implies write_of(
                keyspace@,
                collection@,
                done[j],
                models[j],
                ttl,
                (#[trigger] writes@[j]).revision@,
                now,
            ) == Ok::<_, ErrorModel>(writes@[j]@) by {
                if j < i {
                    assert(writes@[j] == before[j]);
                    assert(done[j] == texts(keys@).take(i as int)[j]);
                }
            }
        }
        i += 1;
    }
    assert(texts(keys@).take(i as int) =~= texts(keys@));
    Ok(writes)
}

} // verus!
