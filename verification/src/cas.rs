//! The envelope in which remote stores keep an entry with its revision.
//!
//! An envelope is the five bytes `OKVC1`, the sixteen bytes of the revision and the stored
//! form of the entry. The revision thus has a fixed place, where a server-side script can
//! find it.

use crate::entry::{
    entry_bytes, entry_of, law_entry_exact, law_entry_roundtrip, EntryModel, ManagedEntry,
};
use crate::error::{Error, ErrorModel, Outcome, Result};
use crate::protocol::{Revision, RevisionedModel, RevisionedValue};
use crate::text::append_bytes;
use vstd::prelude::*;

verus! {

/// The length of the first bytes of an envelope.
pub const MAGIC_LEN: usize = 5;

/// The length of everything before the entry.
pub const PREFIX_LEN: usize = 21;

/// An entry with its revision, as it was stored.
pub struct CasEntry {
    pub entry: ManagedEntry,
    pub revision: Revision,
}

/// The model of [`CasEntry`].
#[verifier::ext_equal]
pub struct CasModel {
    pub entry: EntryModel,
    pub revision: Seq<u8>,
}

impl View for CasEntry {
    type V = CasModel;

    open spec fn view(&self) -> CasModel {
        CasModel { entry: self.entry@, revision: self.revision@ }
    }
}

impl CasModel {
    /// What a reader sees of the entry at `now`; nothing where it has expired.
    pub open spec fn visible(self, now: i64) -> Option<RevisionedModel> {
        if self.entry.expired(now) {
            None
        } else {
            Some(
                RevisionedModel {
                    value: self.entry.value,
                    revision: self.revision,
                    ttl: self.entry.ttl(now),
                },
            )
        }
    }
}

/// The first bytes of every envelope: `OKVC1`.
pub open spec fn cas_magic() -> Seq<u8> {
    seq![79u8, 75u8, 86u8, 67u8, 49u8]
}

/// An entry and its revision in an envelope.
pub open spec fn envelope(cas: CasModel) -> Seq<u8> {
    cas_magic() + cas.revision + entry_bytes(cas.entry)
}

/// What reading bytes as an envelope gives.
pub open spec fn envelope_of(b: Seq<u8>) -> Outcome<CasModel> {
    if b.len() < PREFIX_LEN {
        Err(ErrorModel::Deserialization("truncated CAS envelope"@))
    } else if !cas_magic().is_prefix_of(b) {
        Err(ErrorModel::Deserialization("invalid CAS envelope magic"@))
    } else {
        match entry_of(b.skip(21)) {
            Ok(entry) => Ok(CasModel { entry, revision: b.subrange(5, 21) }),
            Err(e) => Err(e),
        }
    }
}

/// What reading a stored slot gives: nothing where the slot is empty.
pub open spec fn slot_of(slot: Option<Seq<u8>>) -> Outcome<Option<CasModel>> {
    match slot {
        None => Ok(None),
        Some(b) => match envelope_of(b) {
            Ok(cas) => Ok(Some(cas)),
            Err(e) => Err(e),
        },
    }
}

/// An envelope reads back as what it was made of.
pub proof fn law_envelope_roundtrip(cas: CasModel)
    requires
        cas.revision.len() == 16,
    ensures
        envelope_of(envelope(cas)) == Ok::<_, ErrorModel>(cas),
{
    let b = envelope(cas);
    assert(b.subrange(5, 21) =~= cas.revision);
    assert(b.skip(21) =~= entry_bytes(cas.entry));
    law_entry_roundtrip(cas.entry);
}

proof fn lemma_split_envelope(b: Seq<u8>)
    requires
        b.len() >= 21,
        cas_magic().is_prefix_of(b),
    ensures
        b == cas_magic() + b.subrange(5, 21) + b.skip(21),
{
    assert(b =~= cas_magic() + b.subrange(5, 21) + b.skip(21));
}

/// Only the envelope of an entry and a revision reads as these.
pub proof fn law_envelope_exact(b: Seq<u8>)
    ensures
        envelope_of(b) matches Ok(cas) ==> b == envelope(cas) && cas.revision.len() == 16,
{
    if let Ok(cas) = envelope_of(b) {
        let stored = b.skip(21);
        law_entry_exact(stored);
        lemma_split_envelope(b);
        assert(stored == entry_bytes(cas.entry));
    }
}

/// An entry and its revision in an envelope.
pub fn encode(entry: &ManagedEntry, revision: Revision) -> (bytes: Vec<u8>)
    ensures
        bytes@ == envelope(CasModel { entry: entry@, revision: revision@ }),
{
    let mut out: Vec<u8> = Vec::new();
    out.push(79);
    out.push(75);
    out.push(86);
    out.push(67);
    out.push(49);
    assert(out@ =~= cas_magic());
    let raw = *revision.as_bytes();
    append_bytes(&mut out, raw.as_slice());
    append_bytes(&mut out, entry.encode().as_slice());
    out
}

fn decode_envelope(bytes: &[u8]) -> (cas: Result<CasEntry>)
    ensures
        match cas {
            Ok(c) => envelope_of(bytes@) == Ok::<_, ErrorModel>(c@),
            Err(e) => envelope_of(bytes@) == Err::<CasModel, _>(e@),
        },
{
    if bytes.len() < PREFIX_LEN {
        return Err(Error::Deserialization("truncated CAS envelope".to_owned()));
    }
    if bytes[0] != 79 || bytes[1] != 75 || bytes[2] != 86 || bytes[3] != 67 || bytes[4] != 49 {
        return Err(Error::Deserialization("invalid CAS envelope magic".to_owned()));
    }
    assert(cas_magic().is_prefix_of(bytes@));
    let rest = vstd::slice::slice_subrange(bytes, PREFIX_LEN, bytes.len());
    assert(rest@ =~= bytes@.skip(21));
    let entry = ManagedEntry::decode(rest)?;
    let mut raw: [u8; 16] = [0u8; 16];
    let mut i: usize = 0;
    while i < 16
        invariant
            i <= 16,
            bytes@.len() >= 21,
            forall|j: int| 0 <= j < i ==> raw@[j] == bytes@[j + 5],
        decreases 16 - i,
    {
        raw[i] = bytes[i + MAGIC_LEN];
        i += 1;
    }
    assert(raw@ =~= bytes@.subrange(5, 21));
    Ok(CasEntry { entry, revision: Revision::from_bytes(raw) })
}

/// The view of an optional byte string.
pub open spec fn bytes_model(slot: Option<Vec<u8>>) -> Option<Seq<u8>> {
    match slot {
        Some(b) => Some(b@),
        None => None,
    }
}

/// The entry and revision that a stored slot holds.
pub fn decode(slot: Option<Vec<u8>>) -> (cas: Result<Option<CasEntry>>)
    ensures
        match cas {
            Ok(Some(c)) => slot_of(bytes_model(slot)) == Ok::<_, ErrorModel>(Some(c@)),
            Ok(None) => slot_of(bytes_model(slot)) == Ok::<Option<CasModel>, ErrorModel>(None),
            Err(e) => slot_of(bytes_model(slot)) == Err::<Option<CasModel>, _>(e@),
        },
{
    match slot {
        None => Ok(None),
        Some(bytes) => Ok(Some(decode_envelope(bytes.as_slice())?)),
    }
}

/// What a reader sees of an entry at `now`; nothing where it has expired.
pub fn to_revisioned_value(cas: CasEntry, now: i64) -> (visible: Option<RevisionedValue>)
    ensures
        match visible {
            Some(v) => cas@.visible(now) == Some(v@),
            None => cas@.visible(now) is None,
        },
{
    if cas.entry.is_expired(now) {
        None
    } else {
        let ttl = cas.entry.ttl(now);
        Some(RevisionedValue { value: cas.entry.value, revision: cas.revision, ttl })
    }
}

/// An envelope starts with `OKVC1`, has its revision in the next sixteen bytes, and then the stored
/// entry.
pub proof fn law_envelope_layout(cas: CasModel)
    requires
        cas.revision.len() == 16,
    ensures
        envelope(cas).take(5) == seq![0x4fu8, 0x4bu8, 0x56u8, 0x43u8, 0x31u8],
        envelope(cas).subrange(5, 21) == cas.revision,
        envelope(cas).skip(21) == entry_bytes(cas.entry),
        envelope_of(envelope(cas)) matches Ok(back) && back == cas,
{
    law_envelope_roundtrip(cas);
    assert(envelope(cas).take(5) =~= seq![0x4fu8, 0x4bu8, 0x56u8, 0x43u8, 0x31u8]);
    assert(envelope(cas).subrange(5, 21) =~= cas.revision);
    assert(envelope(cas).skip(21) =~= entry_bytes(cas.entry));
}

/// Whatever cannot be read as an envelope is a deserialization error; an empty slot holds nothing.
pub proof fn law_slot(slot: Option<Seq<u8>>)
    ensures
        match slot_of(slot) {
            Ok(Some(cas)) => slot == Some(envelope(cas)) && cas.revision.len() == 16,
            Ok(None) => slot is None,
            Err(e) => slot is Some && e is Deserialization,
        },
{
    if let Some(b) = slot {
        law_envelope_exact(b);
        if b.len() >= 21 {
            crate::entry::law_entry_errors(b.skip(21));
        }
    }
}

/// A reader sees an entry until its time of expiry, with the time that is left, and nothing of it
/// from then on.
pub proof fn law_visible(cas: CasModel, now: i64)
    ensures
        match cas.visible(now) {
            Some(seen) => {
                &&& (cas.entry.expires_at matches Some(t) ==> now < t && seen.ttl == Some(
                    (t - now) as u64,
                ))
                &&& (cas.entry.expires_at is None ==> seen.ttl is None)
                &&& seen.value == cas.entry.value
                &&& seen.revision == cas.revision
            },
            None => cas.entry.expires_at matches Some(t) && t <= now,
        },
{
}

} // verus!
