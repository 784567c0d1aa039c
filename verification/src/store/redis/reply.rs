//! The server's replies: stored slots, and the answers of the scripts that compare revisions.

use crate::cas::{bytes_model, decode, slot_of, to_revisioned_value};
use crate::error::{Error, ErrorModel, Outcome, Result};
use crate::protocol::{
    current_model, CompareAndDeleteResult, CompareAndSwapResult, DeleteModel, Revision,
    RevisionedModel, RevisionedValue, SwapModel,
};
use crate::text::concat;
use vstd::prelude::*;
#[allow(unused_imports)]
use vstd::string::*;

verus! {

/// What a reader sees at `now` of a stored slot: nothing where it is empty or has expired.
pub open spec fn slot_visible(slot: Option<Seq<u8>>, now: i64) -> Outcome<Option<RevisionedModel>> {
    match slot_of(slot) {
        Ok(Some(cas)) => Ok(cas.visible(now)),
        Ok(None) => Ok(None),
        Err(e) => Err(e),
    }
}

/// What a reader sees at `now` of a stored slot.
pub fn read_slot(slot: Option<Vec<u8>>, now: i64) -> (seen: Result<Option<RevisionedValue>>)
    ensures
        match seen {
            Ok(v) => slot_visible(bytes_model(slot), now) == Ok::<_, ErrorModel>(current_model(v)),
            Err(e) => slot_visible(bytes_model(slot), now) == Err::<Option<RevisionedModel>, _>(e@),
        },
{
    match decode(slot)? {
        Some(cas) => Ok(to_revisioned_value(cas, now)),
        None => Ok(None),
    }
}

/// The view of a list of slots.
pub open spec fn slots_model(slots: Seq<Option<Vec<u8>>>) -> Seq<Option<Seq<u8>>> {
    slots.map_values(|s: Option<Vec<u8>>| bytes_model(s))
}

/// The view of a list of optional values.
pub open spec fn currents_model(values: Seq<Option<RevisionedValue>>) -> Seq<
    Option<RevisionedModel>,
> {
    values.map_values(|v: Option<RevisionedValue>| current_model(v))
}

/// What a reader sees at `now` of the first `n` slots.
pub open spec fn slots_visible(slots: Seq<Option<Seq<u8>>>, now: i64, n: nat) -> Outcome<
    Seq<Option<RevisionedModel>>,
>
    decreases n,
{
    if n == 0 {
        Ok(Seq::empty())
    } else {
        match (slots_visible(slots, now, (n - 1) as nat), slot_visible(slots[n - 1], now)) {
            (Err(e), _) => Err(e),
            (_, Err(e)) => Err(e),
            (Ok(before), Ok(seen)) => Ok(before.push(seen)),
        }
    }
}

proof fn lemma_slots_prefix(slots: Seq<Option<Seq<u8>>>, now: i64, k: nat, n: nat)
    requires
        k <= n,
        slots_visible(slots, now, k) is Err,
    ensures
        slots_visible(slots, now, n) == slots_visible(slots, now, k),
    decreases n,
{
    if k < n {
        lemma_slots_prefix(slots, now, k, (n - 1) as nat);
    }
}

/// What a reader sees at `now` of a list of slots, one by one.
pub fn read_slots(slots: Vec<Option<Vec<u8>>>, now: i64) -> (seen: Result<
    Vec<Option<RevisionedValue>>,
>)
    ensures
        match seen {
            Ok(v) => slots_visible(slots_model(slots@), now, slots@.len()) == Ok::<_, ErrorModel>(
                currents_model(v@),
            ),
            Err(e) => slots_visible(slots_model(slots@), now, slots@.len()) == Err::<
                Seq<Option<RevisionedModel>>,
                _,
            >(e@),
        },
{
    let ghost all = slots_model(slots@);
    let mut seen: Vec<Option<RevisionedValue>> = Vec::new();
    let mut i: usize = 0;
    assert(currents_model(seen@) =~= Seq::empty());
    while i < slots.len()
        invariant
            i <= slots@.len(),
            all == slots_model(slots@),
            slots_visible(all, now, i as nat) == Ok::<_, ErrorModel>(currents_model(seen@)),
        decreases slots@.len() - i,
    {
        let ghost before = seen@;
        let slot: Option<Vec<u8>> = match &slots[i] {
            Some(bytes) => Some(bytes.clone()),
            None => None,
        };
        proof {
            assert(all[i as int] == bytes_model(slots@[i as int]));
            assert(bytes_model(slot) == bytes_model(slots@[i as int]));
            if slots_visible(all, now, (i + 1) as nat) is Err {
                lemma_slots_prefix(all, now, (i + 1) as nat, all.len());
            }
        }
        let value = read_slot(slot, now)?;
        let ghost model = current_model(value);
        seen.push(value);
        assert(currents_model(seen@) =~= currents_model(before).push(model));
        i += 1;
    }
    Ok(seen)
}

/// A value that the server sent back, as far as it is told apart here.
#[derive(Debug, PartialEq, Eq)]
pub enum ReplyValue {
    Nil,
    Int(i64),
    Bulk(Vec<u8>),
    Bool(bool),
    /// Any other value.
    Other,
}

/// A value that the server sent back, with its description for messages.
#[derive(Debug, PartialEq, Eq)]
pub struct Reply {
    pub value: ReplyValue,
    pub shown: String,
}

/// Whether a script did what was asked, as the first value of its answer says.
pub open spec fn status_of(script: Seq<char>, reply: Seq<Reply>) -> Outcome<bool> {
    if reply.len() == 0 {
        Err(ErrorModel::StoreConnection { message: script + " reply missing status"@ })
    } else if reply[0].value == ReplyValue::Int(1) {
        Ok(true)
    } else if reply[0].value == ReplyValue::Int(0) {
        Ok(false)
    } else {
        Err(
            ErrorModel::StoreConnection {
                message: "unexpected "@ + script + " status: "@ + reply[0].shown@,
            },
        )
    }
}

/// What the slot holds at `now`, as the second value of an answer says.
pub open spec fn current_of(reply: Seq<Reply>, now: i64) -> Outcome<Option<RevisionedModel>> {
    if reply.len() < 2 {
        Ok(None)
    } else {
        match reply[1].value {
            ReplyValue::Bulk(bytes) => slot_visible(Some(bytes@), now),
            ReplyValue::Nil | ReplyValue::Bool(false) => Ok(None),
            _ => Err(
                ErrorModel::StoreConnection {
                    message: "unexpected CAS current value: "@ + reply[1].shown@,
                },
            ),
        }
    }
}

/// What an answer to a compare-and-swap says.
pub open spec fn swap_outcome(reply: Seq<Reply>, revision: Seq<u8>, now: i64) -> Outcome<
    SwapModel,
> {
    match status_of("CAS"@, reply) {
        Err(e) => Err(e),
        Ok(true) => Ok(SwapModel::Applied { revision }),
        Ok(false) => match current_of(reply, now) {
            Ok(current) => Ok(SwapModel::Conflict { current }),
            Err(e) => Err(e),
        },
    }
}

/// What an answer to a compare-and-delete says.
pub open spec fn delete_outcome(reply: Seq<Reply>, now: i64) -> Outcome<DeleteModel> {
    match status_of("CAD"@, reply) {
        Err(e) => Err(e),
        Ok(true) => Ok(DeleteModel::Deleted),
        Ok(false) => match current_of(reply, now) {
            Ok(current) => Ok(DeleteModel::Conflict { current }),
            Err(e) => Err(e),
        },
    }
}

fn read_status(script: &str, reply: &Vec<Reply>) -> (done: Result<bool>)
    ensures
        match done {
            Ok(b) => status_of(script@, reply@) == Ok::<_, ErrorModel>(b),
            Err(e) => status_of(script@, reply@) == Err::<bool, _>(e@),
        },
{
    if reply.len() == 0 {
        return Err(Error::StoreConnection { message: concat(script, " reply missing status") });
    }
    match &reply[0].value {
        ReplyValue::Int(1) => return Ok(true),
        ReplyValue::Int(0) => return Ok(false),
        _ => {},
    }
    let mut message = concat("unexpected ", script);
    message.append(" status: ");
    message.append(reply[0].shown.as_str());
    Err(Error::StoreConnection { message })
}

fn decode_current(reply: &Vec<Reply>, now: i64) -> (current: Result<Option<RevisionedValue>>)
    ensures
        match current {
            Ok(v) => current_of(reply@, now) == Ok::<_, ErrorModel>(current_model(v)),
            Err(e) => current_of(reply@, now) == Err::<Option<RevisionedModel>, _>(e@),
        },
{
    if reply.len() < 2 {
        return Ok(None);
    }
    match &reply[1].value {
        ReplyValue::Bulk(bytes) => read_slot(Some(bytes.clone()), now),
        ReplyValue::Nil => Ok(None),
        ReplyValue::Bool(false) => Ok(None),
        _ => Err(
            Error::StoreConnection {
                message: concat("unexpected CAS current value: ", reply[1].shown.as_str()),
            },
        ),
    }
}

/// Reads the answer to a compare-and-swap that wrote `new_revision` if it wrote.
pub fn decode_cas_outcome(reply: &Vec<Reply>, new_revision: Revision, now: i64) -> (outcome: Result<
    CompareAndSwapResult,
>)
    ensures
        match outcome {
            Ok(o) => swap_outcome(reply@, new_revision@, now) == Ok::<_, ErrorModel>(o@),
            Err(e) => swap_outcome(reply@, new_revision@, now) == Err::<SwapModel, _>(e@),
        },
{
    if read_status("CAS", reply)? {
        Ok(CompareAndSwapResult::Applied { revision: new_revision })
    } else {
        let current = decode_current(reply, now)?;
        Ok(CompareAndSwapResult::Conflict { current })
    }
}

/// Reads the answer to a compare-and-delete.
pub fn decode_cad_outcome(reply: &Vec<Reply>, now: i64) -> (outcome: Result<CompareAndDeleteResult>)
    ensures
        match outcome {
            Ok(o) => delete_outcome(reply@, now) == Ok::<_, ErrorModel>(o@),
            Err(e) => delete_outcome(reply@, now) == Err::<DeleteModel, _>(e@),
        },
{
    if read_status("CAD", reply)? {
        Ok(CompareAndDeleteResult::Deleted)
    } else {
        let current = decode_current(reply, now)?;
        Ok(CompareAndDeleteResult::Conflict { current })
    }
}

} // verus!
