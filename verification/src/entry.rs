//! Managed entries: a value with its times, and their stored form.
//!
//! Times are milliseconds since the Unix epoch. An entry is stored as the five bytes
//! `OKVE1`, the tag of the value's kind, the time of creation, the time of expiry and the
//! value's payload. A time is a byte that says whether there is one and, if so, eight
//! little-endian bytes.

use crate::bytes::{
    bits_signed, from_bits, le_bytes, le_value, lemma_byte_range, lemma_le_bytes_value,
    lemma_le_value_bytes, read_le, signed_bits, to_bits, write_le,
};
use crate::error::{Error, ErrorModel, Outcome, Result};
use crate::text::append_bytes;
use crate::utils::ttl::{CALENDAR_END, CALENDAR_START};
use crate::value::kind::law_tags_distinct;
use crate::value::{Value, ValueKind, ValueModel};
use vstd::prelude::*;

verus! {

/// A value with the times that its store keeps for it.
#[derive(Debug, PartialEq, Eq)]
pub struct ManagedEntry {
    pub value: Value,
    pub created_at: Option<i64>,
    pub expires_at: Option<i64>,
}

/// The model of [`ManagedEntry`].
#[verifier::ext_equal]
pub struct EntryModel {
    pub value: ValueModel,
    pub created_at: Option<i64>,
    pub expires_at: Option<i64>,
}

impl EntryModel {
    /// Whether the entry counts as absent at `now`.
    pub open spec fn expired(self, now: i64) -> bool {
        self.expires_at matches Some(t) && t <= now
    }

    /// The milliseconds that the entry still lives at `now`, where it expires at all.
    pub open spec fn ttl(self, now: i64) -> Option<u64> {
        match self.expires_at {
            Some(t) => Some(
                if t <= now {
                    0u64
                } else {
                    (t - now) as u64
                },
            ),
            None => None,
        }
    }
}

impl View for ManagedEntry {
    type V = EntryModel;

    open spec fn view(&self) -> EntryModel {
        EntryModel {
            value: self.value@,
            created_at: self.created_at,
            expires_at: self.expires_at,
        }
    }
}

impl Clone for ManagedEntry {
    fn clone(&self) -> (entry: Self)
        ensures
            entry@ == self@,
    {
        ManagedEntry {
            value: self.value.clone(),
            created_at: self.created_at,
            expires_at: self.expires_at,
        }
    }
}

/// Why a time to live is not acceptable at `now`, if it is not.
pub open spec fn ttl_fault(ttl: i64, now: i64) -> Option<ErrorModel> {
    if ttl <= 0 || now + ttl > CALENDAR_END {
        Some(ErrorModel::InvalidTtl(ttl))
    } else {
        None
    }
}

/// The entry for a value that is put at `now`, with or without a time to live.
pub open spec fn entry_for(value: ValueModel, ttl: Option<i64>, now: i64) -> Outcome<EntryModel> {
    match ttl {
        Some(t) => match ttl_fault(t, now) {
            Some(e) => Err(e),
            None => Ok(
                EntryModel {
                    value,
                    created_at: Some(now),
                    expires_at: Some((now + t) as i64),
                },
            ),
        },
        None => Ok(EntryModel { value, created_at: Some(now), expires_at: None }),
    }
}

/// The entry for a value that is put at `now` for as long as it is given, whatever that is: one
/// without a future has expired at once.
pub open spec fn lasting(value: ValueModel, ttl: Option<i64>, now: i64) -> EntryModel {
    EntryModel {
        value,
        created_at: Some(now),
        expires_at: match ttl {
            Some(t) => Some((now + t) as i64),
            None => None,
        },
    }
}

/// Whether a time to live ends within the calendar.
pub open spec fn countable(ttl: Option<i64>, now: i64) -> bool {
    ttl matches Some(t) ==> CALENDAR_START <= now + t <= CALENDAR_END
}

/// A time as it is stored.
pub open spec fn time_bytes(time: Option<i64>) -> Seq<u8> {
    match time {
        Some(t) => seq![1u8] + le_bytes(signed_bits(t), 8),
        None => seq![0u8],
    }
}

/// The first bytes of every stored entry: `OKVE1`.
pub open spec fn entry_magic() -> Seq<u8> {
    seq![79u8, 75u8, 86u8, 69u8, 49u8]
}

/// An entry as it is stored.
pub open spec fn entry_bytes(entry: EntryModel) -> Seq<u8> {
    entry_magic() + seq![entry.value.kind.tag_of()] + time_bytes(entry.created_at) + time_bytes(
        entry.expires_at,
    ) + entry.value.bytes
}

/// The error for an entry that ends too early.
pub open spec fn truncated_entry() -> ErrorModel {
    ErrorModel::Deserialization("truncated OpenKeyV entry"@)
}

/// The time at the start of `b`, and what follows it.
pub open spec fn parse_time(b: Seq<u8>) -> Outcome<(Option<i64>, Seq<u8>)> {
    if b.len() == 0 {
        Err(truncated_entry())
    } else if b[0] == 0 {
        Ok((None, b.skip(1)))
    } else if b[0] != 1 {
        Err(ErrorModel::Deserialization("invalid OpenKeyV entry time"@))
    } else if b.len() < 9 {
        Err(truncated_entry())
    } else {
        Ok((Some(bits_signed(le_value(b.subrange(1, 9))) as i64), b.skip(9)))
    }
}

/// The kind under a tag, if there is one.
pub open spec fn kind_of_tag(tag: u8) -> Option<ValueKind> {
    if exists|k: ValueKind| #[trigger] k.tag_of() == tag {
        Some(choose|k: ValueKind| #[trigger] k.tag_of() == tag)
    } else {
        None
    }
}

/// What reading stored bytes as an entry gives.
pub open spec fn entry_of(b: Seq<u8>) -> Outcome<EntryModel> {
    if !entry_magic().is_prefix_of(b) {
        Err(ErrorModel::Deserialization("invalid OpenKeyV entry magic"@))
    } else if b.len() < 6 {
        Err(truncated_entry())
    } else {
        match kind_of_tag(b[5]) {
            None => Err(ErrorModel::Deserialization("unknown OpenKeyV value kind"@)),
            Some(kind) => match parse_time(b.skip(6)) {
                Err(e) => Err(e),
                Ok((created_at, rest)) => match parse_time(rest) {
                    Err(e) => Err(e),
                    Ok((expires_at, payload)) => Ok(
                        EntryModel {
                            value: ValueModel { kind, bytes: payload },
                            created_at,
                            expires_at,
                        },
                    ),
                },
            },
        }
    }
}

proof fn lemma_kind_of_tag(kind: ValueKind)
    ensures
        kind_of_tag(kind.tag_of()) == Some(kind),
{
    let k = choose|k: ValueKind| #[trigger] k.tag_of() == kind.tag_of();
    law_tags_distinct(k, kind);
}

proof fn lemma_parse_time(time: Option<i64>, rest: Seq<u8>)
    ensures
        parse_time(time_bytes(time) + rest) == Ok::<_, ErrorModel>((time, rest)),
{
    let b = time_bytes(time) + rest;
    match time {
        Some(t) => {
            lemma_byte_range();
            lemma_le_bytes_value(signed_bits(t), 8);
            assert(b.subrange(1, 9) =~= le_bytes(signed_bits(t), 8));
            assert(b.skip(9) =~= rest);
        },
        None => {
            assert(b.skip(1) =~= rest);
        },
    }
}

proof fn lemma_parse_time_exact(b: Seq<u8>)
    ensures
        parse_time(b) matches Ok((time, rest)) ==> b == time_bytes(time) + rest,
{
    if let Ok((time, rest)) = parse_time(b) {
        if b[0] == 1 {
            lemma_byte_range();
            lemma_le_value_bytes(b.subrange(1, 9));
            let n = le_value(b.subrange(1, 9));
            assert(signed_bits(bits_signed(n) as i64) == n);
        }
        assert(b =~= time_bytes(time) + rest);
    }
}

/// A stored entry reads back as the entry it was made of.
pub proof fn law_entry_roundtrip(entry: EntryModel)
    ensures
        entry_of(entry_bytes(entry)) == Ok::<_, ErrorModel>(entry),
{
    let b = entry_bytes(entry);
    let times = time_bytes(entry.created_at) + time_bytes(entry.expires_at) + entry.value.bytes;
    assert(b =~= entry_magic() + seq![entry.value.kind.tag_of()] + times);
    assert(b.skip(6) =~= time_bytes(entry.created_at) + (time_bytes(entry.expires_at)
        + entry.value.bytes));
    lemma_kind_of_tag(entry.value.kind);
    lemma_parse_time(entry.created_at, time_bytes(entry.expires_at) + entry.value.bytes);
    lemma_parse_time(entry.expires_at, entry.value.bytes);
}

/// Only the stored form of an entry reads as that entry.
pub proof fn law_entry_exact(b: Seq<u8>)
    ensures
        entry_of(b) matches Ok(entry) ==> b == entry_bytes(entry),
{
    if let Ok(entry) = entry_of(b) {
        lemma_parse_time_exact(b.skip(6));
        let rest = parse_time(b.skip(6))->Ok_0.1;
        lemma_parse_time_exact(rest);
        assert(b =~= entry_magic() + seq![b[5]] + b.skip(6));
        assert(b =~= entry_bytes(entry));
    }
}

fn write_time(out: &mut Vec<u8>, time: Option<i64>)
    ensures
        final(out)@ == old(out)@ + time_bytes(time),
{
    let ghost start = out@;
    match time {
        Some(t) => {
            out.push(1);
            write_le(out, to_bits(t), 8);
        },
        None => {
            out.push(0);
        },
    }
    assert(out@ =~= start + time_bytes(time));
}

/// Reads a time at `at`: the time, and where it ends.
fn read_time(bytes: &[u8], at: usize) -> (time: Result<(Option<i64>, usize)>)
    requires
        at <= bytes@.len(),
    ensures
        match time {
            Ok((t, end)) => at <= end <= bytes@.len() && parse_time(bytes@.skip(at as int))
                == Ok::<_, ErrorModel>((t, bytes@.skip(end as int))),
            Err(e) => parse_time(bytes@.skip(at as int)) == Err::<(Option<i64>, Seq<u8>), _>(e@),
        },
{
    let ghost b = bytes@.skip(at as int);
    let total: usize = bytes.len();
    if at == total {
        return Err(Error::Deserialization("truncated OpenKeyV entry".to_owned()));
    }
    if bytes[at] == 0 {
        assert(b.skip(1) =~= bytes@.skip(at + 1));
        return Ok((None, at + 1));
    }
    if bytes[at] != 1 {
        return Err(Error::Deserialization("invalid OpenKeyV entry time".to_owned()));
    }
    if total - at < 9 {
        return Err(Error::Deserialization("truncated OpenKeyV entry".to_owned()));
    }
    assert(b.subrange(1, 9) =~= bytes@.subrange(at + 1, at + 9));
    assert(b.skip(9) =~= bytes@.skip(at + 9));
    Ok((Some(from_bits(read_le(bytes, at + 1, 8))), at + 9))
}

impl ManagedEntry {
    /// An entry that never expires.
    pub fn new(value: Value, now: i64) -> (entry: Self)
        ensures
            entry_for(value@, None, now) == Ok::<_, ErrorModel>(entry@),
    {
        ManagedEntry { value, created_at: Some(now), expires_at: None }
    }

    /// An entry that expires `ttl` milliseconds after `now`.
    pub fn with_ttl(value: Value, ttl: i64, now: i64) -> (entry: Result<Self>)
        ensures
            match entry {
                Ok(e) => entry_for(value@, Some(ttl), now) == Ok::<_, ErrorModel>(e@),
                Err(e) => entry_for(value@, Some(ttl), now) == Err::<EntryModel, _>(e@),
            },
    {
        ManagedEntry::validate_ttl(ttl, now)?;
        Ok(ManagedEntry { value, created_at: Some(now), expires_at: Some(now + ttl) })
    }

    /// An entry put at `now`, with or without a time to live.
    pub fn with_optional_ttl(value: Value, ttl: Option<i64>, now: i64) -> (entry: Result<Self>)
        ensures
            match entry {
                Ok(e) => entry_for(value@, ttl, now) == Ok::<_, ErrorModel>(e@),
                Err(e) => entry_for(value@, ttl, now) == Err::<EntryModel, _>(e@),
            },
    {
        match ttl {
            Some(t) => ManagedEntry::with_ttl(value, t, now),
            None => Ok(ManagedEntry::new(value, now)),
        }
    }

    /// An entry that lives for as long as it is given, whatever that is.
    pub fn for_lifetime(value: Value, ttl: Option<i64>, now: i64) -> (entry: Self)
        requires
            countable(ttl, now),
        ensures
            entry@ == lasting(value@, ttl, now),
    {
        let expires_at = match ttl {
            Some(t) => Some(now + t),
            None => None,
        };
        ManagedEntry { value, created_at: Some(now), expires_at }
    }

    /// Accepts a time to live that is positive and ends within the calendar.
    pub fn validate_ttl(ttl: i64, now: i64) -> (result: Result<()>)
        ensures
            match result {
                Ok(_) => ttl_fault(ttl, now) is None,
                Err(e) => ttl_fault(ttl, now) == Some(e@),
            },
    {
        if ttl <= 0 || now > CALENDAR_END - ttl {
            Err(Error::InvalidTtl(ttl))
        } else {
            Ok(())
        }
    }

    /// Whether the entry counts as absent at `now`.
    pub fn is_expired(&self, now: i64) -> (expired: bool)
        ensures
            expired == self@.expired(now),
    {
        match self.expires_at {
            Some(t) => t <= now,
            None => false,
        }
    }

    /// The milliseconds that the entry still lives at `now`, where it expires at all.
    pub fn ttl(&self, now: i64) -> (ttl: Option<u64>)
        ensures
            ttl == self@.ttl(now),
    {
        match self.expires_at {
            Some(t) => Some(
                if t <= now {
                    0
                } else {
                    (t as i128 - now as i128) as u64
                },
            ),
            None => None,
        }
    }

    /// The entry as it is stored.
    pub fn encode(&self) -> (bytes: Vec<u8>)
        ensures
            bytes@ == entry_bytes(self@),
    {
        let mut out: Vec<u8> = Vec::new();
        out.push(79);
        out.push(75);
        out.push(86);
        out.push(69);
        out.push(49);
        assert(out@ =~= entry_magic());
        out.push(self.value.kind().tag());
        assert(out@ =~= entry_magic() + seq![self@.value.kind.tag_of()]);
        write_time(&mut out, self.created_at);
        write_time(&mut out, self.expires_at);
        append_bytes(&mut out, self.value.bytes().as_slice());
        out
    }

    /// The entry that stored bytes hold.
    pub fn decode(bytes: &[u8]) -> (entry: Result<Self>)
        ensures
            match entry {
                Ok(e) => entry_of(bytes@) == Ok::<_, ErrorModel>(e@),
                Err(e) => entry_of(bytes@) == Err::<EntryModel, _>(e@),
            },
    {
        if bytes.len() < 5 || bytes[0] != 79 || bytes[1] != 75 || bytes[2] != 86 || bytes[3] != 69
            || bytes[4] != 49 {
            return Err(Error::Deserialization("invalid OpenKeyV entry magic".to_owned()));
        }
        assert(entry_magic().is_prefix_of(bytes@));
        if bytes.len() < 6 {
            return Err(Error::Deserialization("truncated OpenKeyV entry".to_owned()));
        }
        let kind = match ValueKind::from_tag(bytes[5]) {
            Some(kind) => kind,
            None => {
                return Err(Error::Deserialization("unknown OpenKeyV value kind".to_owned()));
            },
        };
        proof {
            lemma_kind_of_tag(kind);
        }
        let (created_at, at) = read_time(bytes, 6)?;
        let (expires_at, at) = read_time(bytes, at)?;
        let payload = vstd::slice::slice_subrange(bytes, at, bytes.len());
        assert(payload@ =~= bytes@.skip(at as int));
        let value = Value::new_unchecked(kind, vstd::slice::slice_to_vec(payload));
        Ok(ManagedEntry { value, created_at, expires_at })
    }
}

/// What stored bytes come to at some time.
pub enum EntryRead {
    Live(ManagedEntry),
    Expired,
}

/// Whether `read` is what stored bytes come to at `now`.
pub open spec fn reads_as(read: Result<EntryRead>, bytes: Seq<u8>, now: i64) -> bool {
    match read {
        Ok(EntryRead::Live(e)) => entry_of(bytes) == Ok::<_, ErrorModel>(e@) && !e@.expired(now),
        Ok(EntryRead::Expired) => entry_of(bytes) matches Ok(e) && e.expired(now),
        Err(e) => entry_of(bytes) == Err::<EntryModel, _>(e@),
    }
}

impl ManagedEntry {
    /// Reads stored bytes and tells a live entry from an expired one.
    pub fn read(bytes: &[u8], now: i64) -> (read: Result<EntryRead>)
        ensures
            reads_as(read, bytes@, now),
    {
        let entry = ManagedEntry::decode(bytes)?;
        if entry.is_expired(now) {
            Ok(EntryRead::Expired)
        } else {
            Ok(EntryRead::Live(entry))
        }
    }
}

/// An entry with a time to live is made exactly where that time is positive and ends within the
/// calendar. It holds the value, lives until so many milliseconds have passed and not longer, and
/// tells at every moment how many of them are left.
pub proof fn law_lifetime(value: ValueModel, ttl: i64, now: i64, later: i64)
    ensures
        entry_for(value, Some(ttl), now) is Ok <==> 0 < ttl && now + ttl <= CALENDAR_END,
        entry_for(value, Some(ttl), now) matches Err(e) ==> e == ErrorModel::InvalidTtl(ttl),
        entry_for(value, Some(ttl), now) matches Ok(entry) ==> {
            &&& entry.value == value
            &&& entry.created_at == Some(now)
            &&& entry.expired(later) <==> later - now >= ttl
            &&& entry.ttl(later) matches Some(left) && left == if later - now >= ttl {
                0
            } else {
                ttl - (later - now)
            }
        },
{
}

/// An entry without a time to live is always made, never expires and tells no time.
pub proof fn law_no_lifetime(value: ValueModel, now: i64, later: i64)
    ensures
        entry_for(value, None, now) matches Ok(entry) && {
            &&& entry.value == value
            &&& entry.created_at == Some(now)
            &&& !entry.expired(later)
            &&& entry.ttl(later) is None
        },
{
}

/// An entry that is put for any time holds its value and has expired as soon as that time is over,
/// at once where it is not positive.
pub proof fn law_lasting(value: ValueModel, ttl: Option<i64>, now: i64, later: i64)
    requires
        countable(ttl, now),
    ensures
        lasting(value, ttl, now).value == value,
        lasting(value, ttl, now).created_at == Some(now),
        lasting(value, ttl, now).expired(later) <==> (ttl matches Some(t) && later - now >= t),
{
}

/// An entry once expired stays so, and no time is left exactly then.
pub proof fn law_expiry_is_final(entry: EntryModel, now: i64, later: i64)
    requires
        now <= later,
    ensures
        entry.expired(now) ==> entry.expired(later),
        entry.expired(now) <==> entry.ttl(now) == Some(0u64),
{
}

/// A stored entry starts with `OKVE1` and the tag of its kind, and ends with its payload.
pub proof fn law_entry_layout(entry: EntryModel)
    ensures
        ({
            let b = entry_bytes(entry);
            let payload = entry.value.bytes;
            &&& b.len() == 8 + payload.len() + if entry.created_at is Some {
                8nat
            } else {
                0nat
            } + if entry.expires_at is Some {
                8nat
            } else {
                0nat
            }
            &&& b.take(5) == seq![0x4fu8, 0x4bu8, 0x56u8, 0x45u8, 0x31u8]
            &&& b[5] == entry.value.kind.tag_of()
            &&& b.skip(b.len() - payload.len()) == payload
        }),
{
    let b = entry_bytes(entry);
    let payload = entry.value.bytes;
    if let Some(t) = entry.created_at {
        crate::bytes::lemma_le_bytes_len(signed_bits(t), 8);
    }
    if let Some(t) = entry.expires_at {
        crate::bytes::lemma_le_bytes_len(signed_bits(t), 8);
    }
    assert(b.take(5) =~= seq![0x4fu8, 0x4bu8, 0x56u8, 0x45u8, 0x31u8]);
    assert(b.skip(b.len() - payload.len()) =~= payload);
}

/// Whatever cannot be read as an entry is a deserialization error.
pub proof fn law_entry_errors(b: Seq<u8>)
    ensures
        entry_of(b) matches Err(e) ==> e is Deserialization && forall|entry: EntryModel|
            b != #[trigger] entry_bytes(entry),
{
    assert forall|entry: EntryModel| entry_of(b) is Err implies b != #[trigger] entry_bytes(
        entry,
    ) by {
        law_entry_roundtrip(entry);
    }
}

/// Stored bytes read as a live entry exactly where they are the stored form of it and its time has
/// not come, and as an expired one where it has.
pub proof fn law_read(read: Result<EntryRead>, entry: EntryModel, now: i64)
    ensures
        reads_as(read, entry_bytes(entry), now) <==> match read {
            Ok(EntryRead::Live(e)) => e@ == entry && (entry.expires_at matches Some(t) ==> now < t),
            Ok(EntryRead::Expired) => entry.expires_at matches Some(t) && t <= now,
            Err(_) => false,
        },
{
    law_entry_roundtrip(entry);
}

} // verus!
