//! What is sent to the server, and what its replies are read as.

use crate::cas::{envelope, envelope_of, law_envelope_exact, law_envelope_roundtrip, CasModel};
use crate::entry::entry_for;
use crate::error::ErrorModel;
use crate::protocol::{
    CompareAndDeleteResult, CompareAndSwapResult, DeleteModel, Revision, RevisionedModel,
    RevisionedValue, SwapModel,
};
use crate::store::redis::feed::internal_key;
use crate::store::redis::reply::{
    current_of, currents_model, delete_outcome, slot_visible, slots_model, slots_visible,
    swap_outcome, Reply, ReplyValue,
};
use crate::store::redis::scan::{foreign_fault, key_within, scanned, ScanTarget};
use crate::store::redis::store::RedisStore;
use crate::store::redis::write::{
    expected_argument, identities_of, write_of, writes_batch, SlotWrite,
};
use crate::text::{decimal, lemma_u64_of_decimal, texts, u64_of};
use crate::utils::compound::{
    compound, law_compound_roundtrip, law_decompound_exact, law_subspace_roundtrip,
    subspace_decompound,
};
use crate::utils::ttl::CALENDAR_END;
use crate::value::ValueModel;
use vstd::prelude::*;
#[allow(unused_imports)]
use vstd::string::*;
use vstd::utf8::encode_utf8;

verus! {

/// A reader sees of a slot the value, the revision and the remaining time of the entry in its
/// envelope, as long as the entry has not reached its time of expiry; an empty slot shows nothing,
/// and bytes that are no envelope are an error.
pub proof fn law_slot_visible(slot: Option<Seq<u8>>, now: i64)
    ensures
        match slot_visible(slot, now) {
            Ok(Some(seen)) => exists|cas: CasModel|
                {
                    &&& slot == Some(#[trigger] envelope(cas))
                    &&& cas.revision.len() == 16
                    &&& (cas.entry.expires_at matches Some(t) ==> now < t)
                    &&& seen.value == cas.entry.value
                    &&& seen.revision == cas.revision
                    &&& match cas.entry.expires_at {
                        Some(t) => seen.ttl == Some((t - now) as u64),
                        None => seen.ttl is None,
                    }
                },
            Ok(None) => slot is None || exists|cas: CasModel|
                slot == Some(#[trigger] envelope(cas)) && cas.revision.len() == 16
                    && (cas.entry.expires_at matches Some(t) && t <= now),
            Err(e) => slot is Some && forall|cas: CasModel|
                cas.revision.len() == 16 ==> slot != Some(#[trigger] envelope(cas)),
        },
{
    if let Some(b) = slot {
        law_envelope_exact(b);
        match envelope_of(b) {
            Ok(cas) => {
                assert(b == envelope(cas));
            },
            Err(e) => {
                assert forall|cas: CasModel| cas.revision.len() == 16 implies b
                    != #[trigger] envelope(cas) by {
                    law_envelope_roundtrip(cas);
                }
            },
        }
    }
}

/// The envelope of an entry shows the entry until its time of expiry, and nothing from then on.
pub proof fn law_envelope_visible(cas: CasModel, now: i64)
    requires
        cas.revision.len() == 16,
    ensures
        slot_visible(Some(envelope(cas)), now) == Ok::<_, ErrorModel>(
            match cas.entry.expires_at {
                Some(t) if t <= now => None,
                Some(t) => Some(
                    RevisionedModel {
                        value: cas.entry.value,
                        revision: cas.revision,
                        ttl: Some((t - now) as u64),
                    },
                ),
                None => Some(
                    RevisionedModel { value: cas.entry.value, revision: cas.revision, ttl: None },
                ),
            },
        ),
{
    law_envelope_roundtrip(cas);
}

/// Reading a list of slots gives as many items, and at every place what reading that slot alone
/// gives; it fails exactly where reading some slot alone fails, with the error of the first one.
pub proof fn law_slots_one_by_one(slots: Seq<Option<Seq<u8>>>, now: i64, n: nat)
    requires
        n <= slots.len(),
    ensures
        match slots_visible(slots, now, n) {
            Ok(seen) => {
                &&& seen.len() == n
                &&& forall|i: int|
                    0 <= i < n ==> slot_visible(#[trigger] slots[i], now) == Ok::<_, ErrorModel>(
                        seen[i],
                    )
            },
            Err(e) => exists|k: int|
                {
                    &&& 0 <= k < n
                    &&& slot_visible(#[trigger] slots[k], now) == Err::<
                        Option<RevisionedModel>,
                        _,
                    >(e)
                    &&& forall|j: int| 0 <= j < k ==> slot_visible(#[trigger] slots[j], now) is Ok
                },
        },
    decreases n,
{
    if n > 0 {
        let m = (n - 1) as nat;
        law_slots_one_by_one(slots, now, m);
        match slots_visible(slots, now, m) {
            Ok(before) => {
                match slot_visible(slots[m as int], now) {
                    Ok(seen) => {},
                    Err(e) => {
                        assert forall|j: int| 0 <= j < m implies slot_visible(
                            #[trigger] slots[j],
                            now,
                        ) is Ok by {
                            assert(slot_visible(slots[j], now) == Ok::<_, ErrorModel>(before[j]));
                        }
                        assert(slot_visible(slots[m as int], now) == Err::<
                            Option<RevisionedModel>,
                            _,
                        >(e));
                    },
                }
            },
            Err(e) => {
                let k = choose|k: int|
                    {
                        &&& 0 <= k < m
                        &&& slot_visible(#[trigger] slots[k], now) == Err::<
                            Option<RevisionedModel>,
                            _,
                        >(e)
                        &&& forall|j: int|
                            0 <= j < k ==> slot_visible(#[trigger] slots[j], now) is Ok
                    };
                assert(0 <= k < n);
            },
        }
    }
}

/// What a conflict tells of the slot: what reading the second value of the reply as a slot gives;
/// nothing where there is none, or it is nil or false; a connection error for any other value.
pub proof fn law_reply_current(reply: Seq<Reply>, now: i64)
    ensures
        reply.len() < 2 ==> current_of(reply, now) == Ok::<Option<RevisionedModel>, ErrorModel>(
            None,
        ),
        reply.len() >= 2 ==> match reply[1].value {
            ReplyValue::Bulk(bytes) => current_of(reply, now) == slot_visible(Some(bytes@), now),
            ReplyValue::Nil => current_of(reply, now) == Ok::<
                Option<RevisionedModel>,
                ErrorModel,
            >(None),
            ReplyValue::Bool(b) => if b {
                current_of(reply, now) matches Err(e) && e is StoreConnection
            } else {
                current_of(reply, now) == Ok::<Option<RevisionedModel>, ErrorModel>(None)
            },
            ReplyValue::Int(_) | ReplyValue::Other => current_of(reply, now) matches Err(e)
                && e is StoreConnection,
        },
{
}

/// A compare-and-delete has deleted exactly where the status is one. With the status zero it is a
/// conflict with what the reply holds of the slot. Any other status, or none, is a connection error.
pub proof fn law_delete_answer(reply: Seq<Reply>, now: i64)
    ensures
        delete_outcome(reply, now) == Ok::<_, ErrorModel>(DeleteModel::Deleted) <==> reply.len() > 0
            && reply[0].value == ReplyValue::Int(1),
        delete_outcome(reply, now) matches Ok(DeleteModel::Conflict { current }) ==> reply.len() > 0
            && reply[0].value == ReplyValue::Int(0) && current_of(reply, now) == Ok::<
            _,
            ErrorModel,
        >(current),
        reply.len() > 0 && reply[0].value == ReplyValue::Int(0) ==> match current_of(reply, now) {
            Ok(current) => delete_outcome(reply, now) == Ok::<_, ErrorModel>(
                DeleteModel::Conflict { current },
            ),
            Err(e) => delete_outcome(reply, now) == Err::<DeleteModel, _>(e),
        },
        reply.len() == 0 || reply[0].value != ReplyValue::Int(0) && reply[0].value
            != ReplyValue::Int(1) ==> (delete_outcome(reply, now) matches Err(e)
            && e is StoreConnection),
{
}

/// A refused compare-and-delete names the entry in the envelope that came with the refusal, with its
/// value and its revision, as long as that entry lives.
pub proof fn law_refused_delete_names_current(reply: Seq<Reply>, cas: CasModel, now: i64)
    requires
        reply.len() >= 2,
        reply[0].value == ReplyValue::Int(0),
        reply[1].value matches ReplyValue::Bulk(bytes) && bytes@ == envelope(cas),
        cas.revision.len() == 16,
    ensures
        delete_outcome(reply, now) matches Ok(DeleteModel::Conflict { current }) && match current {
            Some(seen) => seen.value == cas.entry.value && seen.revision == cas.revision && (
            cas.entry.expires_at matches Some(t) ==> now < t),
            None => cas.entry.expires_at matches Some(t) && t <= now,
        },
{
    law_envelope_visible(cas, now);
}

/// A compare-and-swap has applied exactly where the status is one, and then under the revision that
/// was sent. With the status zero it is a conflict with what the reply holds of the slot. Any other
/// status, or none, is a connection error.
pub proof fn law_swap_answer(reply: Seq<Reply>, revision: Seq<u8>, now: i64)
    ensures
        swap_outcome(reply, revision, now) matches Ok(SwapModel::Applied { .. }) <==> reply.len() > 0
            && reply[0].value == ReplyValue::Int(1),
        swap_outcome(reply, revision, now) matches Ok(SwapModel::Applied { revision: applied })
            ==> applied == revision,
        reply.len() > 0 && reply[0].value == ReplyValue::Int(0) ==> match current_of(reply, now) {
            Ok(current) => swap_outcome(reply, revision, now) == Ok::<_, ErrorModel>(
                SwapModel::Conflict { current },
            ),
            Err(e) => swap_outcome(reply, revision, now) == Err::<SwapModel, _>(e),
        },
        reply.len() == 0 || reply[0].value != ReplyValue::Int(0) && reply[0].value
            != ReplyValue::Int(1) ==> (swap_outcome(reply, revision, now) matches Err(e)
            && e is StoreConnection),
{
}

/// A refused compare-and-swap names the entry in the envelope that came with the refusal, with its
/// value and its revision, as long as that entry lives.
pub proof fn law_refused_swap_names_current(
    reply: Seq<Reply>,
    revision: Seq<u8>,
    cas: CasModel,
    now: i64,
)
    requires
        reply.len() >= 2,
        reply[0].value == ReplyValue::Int(0),
        reply[1].value matches ReplyValue::Bulk(bytes) && bytes@ == envelope(cas),
        cas.revision.len() == 16,
    ensures
        swap_outcome(reply, revision, now) matches Ok(SwapModel::Conflict { current })
            && match current {
            Some(seen) => seen.value == cas.entry.value && seen.revision == cas.revision && (
            cas.entry.expires_at matches Some(t) ==> now < t),
            None => cas.entry.expires_at matches Some(t) && t <= now,
        },
{
    law_envelope_visible(cas, now);
}

/// A write goes to the identity of its collection and key, under the revision given. Its number of
/// milliseconds is the time to live, zero standing for none. It is refused exactly where the time
/// to live is not positive or ends behind the calendar.
pub proof fn law_write_goes_to_its_key(
    keyspace: Seq<char>,
    collection: Seq<char>,
    key: Seq<char>,
    value: ValueModel,
    ttl: Option<i64>,
    revision: Seq<u8>,
    now: i64,
)
    requires
        encode_utf8(collection).len() <= usize::MAX,
    ensures
        match write_of(keyspace, collection, key, value, ttl, revision, now) {
            Ok(write) => {
                &&& subspace_decompound(keyspace, write.identity) == Some((collection, key))
                &&& write.revision == revision
                &&& u64_of(write.milliseconds) == Some(
                    match ttl {
                        Some(t) => t as u64,
                        None => 0u64,
                    },
                )
                &&& (ttl matches Some(t) ==> 0 < t && now + t <= CALENDAR_END)
            },
            Err(e) => ttl matches Some(t) && e == ErrorModel::InvalidTtl(t) && !(0 < t && now + t
                <= CALENDAR_END),
        },
{
    law_subspace_roundtrip(keyspace, collection, key);
    lemma_u64_of_decimal(0);
    reveal_strlit("0");
    assert("0"@ =~= decimal(0));
    if let Some(t) = ttl {
        if t > 0 {
            lemma_u64_of_decimal(t as u64);
        }
    }
}

/// A batch writes each of its values under its own key, in the order of the batch.
pub proof fn law_batch_goes_to_its_keys(
    writes: Seq<SlotWrite>,
    keyspace: Seq<char>,
    collection: Seq<char>,
    keys: Seq<Seq<char>>,
    values: Seq<ValueModel>,
    ttl: Option<i64>,
    now: i64,
    i: int,
    later: i64,
)
    requires
        encode_utf8(collection).len() <= usize::MAX,
        writes_batch(writes, keyspace, collection, keys, values, ttl, now),
        0 <= i < keys.len(),
        ttl matches Some(t) ==> later < now + t,
    ensures
        writes.len() == keys.len(),
        subspace_decompound(keyspace, writes[i].identity@) == Some((collection, keys[i])),
        slot_visible(Some(writes[i].envelope@), later) matches Ok(Some(seen)) && seen.value
            == values[i] && seen.revision == writes[i].revision@,
{
    let revision = writes[i].revision;
    assert(writes[i].revision@.len() == 16) by {
        crate::protocol::lemma_revision_len(revision);
    }
    law_write_goes_to_its_key(keyspace, collection, keys[i], values[i], ttl, revision@, now);
    let entry = entry_for(values[i], ttl, now)->Ok_0;
    assert(writes[i]@.envelope == envelope(CasModel { entry, revision: revision@ }));
    law_envelope_visible(CasModel { entry, revision: revision@ }, later);
}

/// The identities of a list of keys: one for each, in order, and each reads back as its key.
pub proof fn law_identities(
    keyspace: Seq<char>,
    collection: Seq<char>,
    keys: Seq<Seq<char>>,
    i: int,
)
    requires
        encode_utf8(collection).len() <= usize::MAX,
        0 <= i < keys.len(),
    ensures
        identities_of(keyspace, collection, keys).len() == keys.len(),
        subspace_decompound(keyspace, identities_of(keyspace, collection, keys)[i]) == Some(
            (collection, keys[i]),
        ),
{
    law_subspace_roundtrip(keyspace, collection, keys[i]);
}

/// What is expected of a slot: the sixteen bytes of a revision, or nothing where the slot must be
/// empty.
pub proof fn law_expected(expected: Option<Revision>)
    ensures
        match expected {
            Some(revision) => expected_argument(expected) == revision@ && expected_argument(
                expected,
            ).len() == 16,
            None => expected_argument(expected).len() == 0,
        },
{
    if let Some(revision) = expected {
        crate::protocol::lemma_revision_len(revision);
    }
}

/// An identity that the server returned gives a key exactly where it is the identity of that key in
/// the collection and the namespace that were asked for; any other is an invalid key.
pub proof fn law_key_within(
    server: Seq<char>,
    prefix: Seq<char>,
    collection: Seq<char>,
    identity: Seq<char>,
    key: Seq<char>,
)
    requires
        encode_utf8(collection).len() <= usize::MAX,
    ensures
        key_within(server, prefix, collection, identity) == Ok::<_, ErrorModel>(key) <==> identity
            == prefix + compound(collection, key),
        key_within(server, prefix, collection, identity) matches Err(e) ==> e is InvalidKey,
{
    let rest = identity.skip(prefix.len() as int);
    if prefix.is_prefix_of(identity) {
        assert(identity =~= prefix + rest);
        law_decompound_exact(rest);
    }
    if identity == prefix + compound(collection, key) {
        assert(rest =~= compound(collection, key));
        law_compound_roundtrip(collection, key);
    }
}

/// A batch of identities is deleted only where every one of them belongs to the collection.
pub proof fn law_doomed_belong(
    server: Seq<char>,
    prefix: Seq<char>,
    collection: Seq<char>,
    batch: Seq<Seq<char>>,
    n: nat,
)
    requires
        encode_utf8(collection).len() <= usize::MAX,
        n <= batch.len(),
    ensures
        foreign_fault(server, prefix, collection, batch, n) is None <==> forall|i: int|
            0 <= i < n ==> exists|key: Seq<char>|
                #[trigger] batch[i] == prefix + #[trigger] compound(collection, key),
        foreign_fault(server, prefix, collection, batch, n) matches Some(e) ==> e is InvalidKey,
    decreases n,
{
    if n > 0 {
        let m = (n - 1) as nat;
        law_doomed_belong(server, prefix, collection, batch, m);
        let identity = batch[m as int];
        match key_within(server, prefix, collection, identity) {
            Ok(key) => {
                law_key_within(server, prefix, collection, identity, key);
                assert(batch[m as int] == prefix + compound(collection, key));
            },
            Err(e) => {
                law_key_within(server, prefix, collection, identity, Seq::empty());
                assert forall|key: Seq<char>| identity != prefix + #[trigger] compound(
                    collection,
                    key,
                ) by {
                    law_key_within(server, prefix, collection, identity, key);
                }
            },
        }
    }
}

/// A scan for keys gives of an identity its key; a scan for collections its collection, and nothing
/// for the store's own keys.
pub proof fn law_scan_target(
    target: ScanTarget,
    prefix: Seq<char>,
    collection: Seq<char>,
    key: Seq<char>,
)
    requires
        encode_utf8(collection).len() <= usize::MAX,
    ensures
        match target {
            ScanTarget::Keys { prefix: p, collection: c, .. } => p@ == prefix && c@ == collection
                ==> target.name_of(prefix + compound(collection, key)) == Ok::<_, ErrorModel>(
                Some(key),
            ),
            ScanTarget::Collections { internal } => target.name_of(compound(collection, key))
                == Ok::<_, ErrorModel>(
                if exists|i: int|
                    0 <= i < internal@.len() && #[trigger] internal@[i]@ == compound(
                        collection,
                        key,
                    ) {
                    None
                } else {
                    Some(collection)
                },
            ),
        },
{
    law_compound_roundtrip(collection, key);
    match target {
        ScanTarget::Keys { server, prefix: p, collection: c } => {
            law_key_within(
                server@,
                prefix,
                collection,
                prefix + compound(collection, key),
                key,
            );
        },
        ScanTarget::Collections { internal } => {
            let identity = compound(collection, key);
            if texts(internal@).contains(identity) {
                let i = choose|i: int|
                    0 <= i < texts(internal@).len() && texts(internal@)[i] == identity;
                assert(internal@[i]@ == identity);
            } else {
                assert forall|i: int| 0 <= i < internal@.len() implies #[trigger] internal@[i]@
                    != identity by {
                    assert(texts(internal@)[i] == internal@[i]@);
                    assert(texts(internal@).contains(internal@[i]@));
                }
            }
        },
    }
}

/// A scan goes on as long as every identity that it still looks at is readable, and never holds
/// more names than its limit.
pub proof fn law_scan_progress(
    target: ScanTarget,
    limit: Option<usize>,
    found: Set<Seq<char>>,
    batch: Seq<Seq<char>>,
    n: nat,
)
    requires
        n <= batch.len(),
        found.finite(),
        limit matches Some(max) ==> found.len() <= max,
    ensures
        match scanned(target, limit, found, batch, n) {
            Ok(names) => names.finite() && (limit matches Some(max) ==> names.len() <= max),
            Err(e) => exists|k: int|
                0 <= k < n && target.name_of(#[trigger] batch[k]) == Err::<Option<Seq<char>>, _>(e),
        },
    decreases n,
{
    if n > 0 {
        law_scan_progress(target, limit, found, batch, (n - 1) as nat);
        match scanned(target, limit, found, batch, (n - 1) as nat) {
            Err(e) => {
                let k = choose|k: int|
                    0 <= k < n - 1 && target.name_of(#[trigger] batch[k]) == Err::<
                        Option<Seq<char>>,
                        _,
                    >(e);
                assert(0 <= k < n);
            },
            Ok(names) => {
                if let Err(e) = target.name_of(batch[n - 1]) {
                    assert(0 <= n - 1 < n);
                }
            },
        }
    }
}

/// Slots and answers stand for their contents, one for each, in order.
pub proof fn law_slot_lists(
    slots: Seq<Option<Vec<u8>>>,
    values: Seq<Option<RevisionedValue>>,
    i: int,
)
    ensures
        slots_model(slots).len() == slots.len(),
        currents_model(values).len() == values.len(),
        0 <= i < slots.len() ==> match slots[i] {
            Some(bytes) => slots_model(slots)[i] == Some(bytes@),
            None => slots_model(slots)[i] is None,
        },
        0 <= i < values.len() ==> match values[i] {
            Some(seen) => currents_model(values)[i] == Some(
                RevisionedModel {
                    value: seen.value@,
                    revision: seen.revision@,
                    ttl: seen.ttl,
                },
            ),
            None => currents_model(values)[i] is None,
        },
{
}

/// The answers of conditional operations stand for what they say.
pub proof fn law_answers(swap: CompareAndSwapResult, delete: CompareAndDeleteResult)
    ensures
        match swap {
            CompareAndSwapResult::Applied { revision } => swap@ == (SwapModel::Applied {
                revision: revision@,
            }),
            CompareAndSwapResult::Conflict { current } => swap@ matches SwapModel::Conflict {
                current: c,
            } && (current is None <==> c is None) && (current matches Some(seen) ==> c == Some(
                seen@,
            )),
        },
        match delete {
            CompareAndDeleteResult::Deleted => delete@ is Deleted,
            CompareAndDeleteResult::Conflict { current } => delete@ matches DeleteModel::Conflict {
                current: c,
            } && (current is None <==> c is None) && (current matches Some(seen) ==> c == Some(
                seen@,
            )),
        },
{
}

/// A store uses the collection that is named, and its default one where none is.
pub proof fn law_named(store: RedisStore, name: &str)
    ensures
        store.named(Some(name)) == name@,
        store.named(None) == store.default_collection(),
{
}

/// Only the two keys of the change feed belong to no collection.
pub proof fn law_internal_keys(key: Seq<char>)
    ensures
        internal_key(key) <==> key == "__openkeyv_changefeed_stream"@ || key
            == "__openkeyv_changefeed_revision"@,
{
}

} // verus!
