//! How the replies to bulk writes are judged.

use crate::error::{Error, ErrorModel, Outcome, Result};
use crate::store::opensearch::document::{place, place_of};
use crate::store::opensearch::reply::{
    items_model, show_option, shown_option, BulkItem, BulkItemModel, BulkItemResult, BulkReply,
    BulkResultModel,
};
use crate::text::{concat, decimal, decimal_string, str_eq, texts};
use vstd::prelude::*;
#[allow(unused_imports)]
use vstd::string::*;

verus! {

/// An error of the connection, with a message made of a place between two texts.
pub open spec fn about(before: Seq<char>, here: Seq<char>, behind: Seq<char>) -> ErrorModel {
    ErrorModel::StoreConnection { message: before + here + behind }
}

/// An error of reading, with a message made of a place between two texts.
pub open spec fn unreadable(before: Seq<char>, here: Seq<char>, behind: Seq<char>) -> ErrorModel {
    ErrorModel::Deserialization(before + here + behind)
}

/// How an item with a wrong status or result is reported.
pub open spec fn odd_result(
    action: Seq<char>,
    here: Seq<char>,
    result: BulkResultModel,
) -> ErrorModel {
    ErrorModel::StoreConnection {
        message: action + here + " returned status "@ + decimal(result.status as nat)
            + " and result "@ + shown_option(result.result),
    }
}

/// How an item with an error is reported.
pub open spec fn failed_item(
    action: Seq<char>,
    here: Seq<char>,
    result: BulkResultModel,
) -> ErrorModel {
    ErrorModel::StoreConnection {
        message: action + here + " with status "@ + decimal(result.status as nat) + ": "@
            + result.error->0.kind + ": "@ + result.error->0.reason,
    }
}

/// Why an item of a bulk index is not acceptable, if it is not.
pub open spec fn indexed_fault(index: Seq<char>, id: Seq<char>, item: BulkItemModel) -> Option<
    ErrorModel,
> {
    let here = place(index, id);
    match item.index {
        None => Some(
            unreadable("OpenSearch bulk index for "@, here, " returned a non-index item"@),
        ),
        Some(result) => if item.delete is Some {
            Some(
                unreadable("OpenSearch bulk index for "@, here, " returned multiple item actions"@),
            )
        } else if result.id != id {
            Some(
                about(
                    "OpenSearch bulk index for "@,
                    here,
                    " returned document id "@ + result.id,
                ),
            )
        } else if result.error is Some {
            Some(failed_item("OpenSearch bulk index failed for "@, here, result))
        } else if !(result.status == 200 || result.status == 201) || !(result.result == Some(
            "created"@,
        ) || result.result == Some("updated"@)) {
            Some(odd_result("OpenSearch bulk index for "@, here, result))
        } else {
            match result.shards {
                None => Some(
                    unreadable(
                        "OpenSearch bulk index result for "@,
                        here,
                        " is missing shard metadata"@,
                    ),
                ),
                Some(shards) => if shards.wrote() {
                    None
                } else {
                    Some(about("OpenSearch bulk index for "@, here, shards.write_text()))
                },
            }
        },
    }
}

/// The first fault among the first `n` items of a bulk index.
pub open spec fn indexed_faults(
    index: Seq<char>,
    ids: Seq<Seq<char>>,
    items: Seq<BulkItemModel>,
    n: nat,
) -> Option<ErrorModel>
    decreases n,
{
    if n == 0 {
        None
    } else {
        match indexed_faults(index, ids, items, (n - 1) as nat) {
            Some(e) => Some(e),
            None => indexed_fault(index, ids[n - 1], items[n - 1]),
        }
    }
}

/// Why the reply to a bulk index is not acceptable, if it is not.
pub open spec fn bulk_index_fault(
    index: Seq<char>,
    ids: Seq<Seq<char>>,
    errors: bool,
    items: Seq<BulkItemModel>,
) -> Option<ErrorModel> {
    if items.len() != ids.len() {
        Some(
            ErrorModel::StoreConnection {
                message: "OpenSearch bulk index for "@ + index + " returned "@ + decimal(
                    items.len(),
                ) + " items for "@ + decimal(ids.len()) + " documents"@,
            },
        )
    } else {
        match indexed_faults(index, ids, items, ids.len()) {
            Some(e) => Some(e),
            None => if errors {
                Some(
                    about(
                        "OpenSearch bulk index for "@,
                        index,
                        " reported errors despite successful items"@,
                    ),
                )
            } else {
                None
            },
        }
    }
}

/// What one item of a bulk delete says.
#[derive(Debug, Clone, Copy, PartialEq, Eq, Structural)]
pub enum Deletion {
    Deleted,
    WasAbsent,
}

/// What one item of a bulk delete comes to.
pub open spec fn deletion(index: Seq<char>, id: Seq<char>, item: BulkItemModel) -> Outcome<
    Deletion,
> {
    let here = place(index, id);
    match item.delete {
        None => Err(
            unreadable("OpenSearch bulk delete for "@, here, " returned a non-delete item"@),
        ),
        Some(result) => if item.index is Some {
            Err(
                unreadable(
                    "OpenSearch bulk delete for "@,
                    here,
                    " returned multiple item actions"@,
                ),
            )
        } else if result.id != id {
            Err(
                about(
                    "OpenSearch bulk delete for "@,
                    here,
                    " returned document id "@ + result.id,
                ),
            )
        } else if result.error is Some {
            if result.status == 404 && result.error->0.is_index_not_found() {
                Ok(Deletion::WasAbsent)
            } else {
                Err(failed_item("OpenSearch bulk delete failed for "@, here, result))
            }
        } else if result.status == 200 && result.result == Some("deleted"@) {
            match result.shards {
                None => Err(
                    unreadable(
                        "OpenSearch bulk delete result for "@,
                        here,
                        " is missing shard metadata"@,
                    ),
                ),
                Some(shards) => if shards.wrote() {
                    Ok(Deletion::Deleted)
                } else {
                    Err(about("OpenSearch bulk delete for "@, here, shards.write_text()))
                },
            }
        } else if result.status == 404 && result.result == Some("not_found"@) {
            match result.shards {
                Some(shards) if !shards.wrote() => Err(
                    about("OpenSearch missing-document delete for "@, here, shards.write_text()),
                ),
                _ => Ok(Deletion::WasAbsent),
            }
        } else {
            Err(odd_result("OpenSearch bulk delete for "@, here, result))
        },
    }
}

/// How many of the first `n` items were deleted, and whether any had been absent.
pub open spec fn deletions(
    index: Seq<char>,
    ids: Seq<Seq<char>>,
    items: Seq<BulkItemModel>,
    n: nat,
) -> Outcome<(nat, bool)>
    decreases n,
{
    if n == 0 {
        Ok((0, false))
    } else {
        match deletions(index, ids, items, (n - 1) as nat) {
            Err(e) => Err(e),
            Ok((count, absent)) => match deletion(index, ids[n - 1], items[n - 1]) {
                Err(e) => Err(e),
                Ok(Deletion::Deleted) => Ok((count + 1, absent)),
                Ok(Deletion::WasAbsent) => Ok((count, true)),
            },
        }
    }
}

/// How many documents a bulk delete removed.
pub open spec fn bulk_deleted(
    index: Seq<char>,
    ids: Seq<Seq<char>>,
    errors: bool,
    items: Seq<BulkItemModel>,
) -> Outcome<nat> {
    if items.len() != ids.len() {
        Err(
            ErrorModel::StoreConnection {
                message: "OpenSearch bulk delete for "@ + index + " returned "@ + decimal(
                    items.len(),
                ) + " items for "@ + decimal(ids.len()) + " documents"@,
            },
        )
    } else {
        match deletions(index, ids, items, ids.len()) {
            Err(e) => Err(e),
            Ok((count, absent)) => if errors && !absent {
                Err(
                    about(
                        "OpenSearch bulk delete for "@,
                        index,
                        " reported errors despite successful items"@,
                    ),
                )
            } else {
                Ok(count)
            },
        }
    }
}

/// A message made of a place between two texts.
fn told(before: &str, here: &str, behind: &str) -> (message: String)
    ensures
        message@ == before@ + here@ + behind@,
{
    let mut message = concat(before, here);
    message.append(behind);
    message
}

fn is_result(result: &Option<String>, text: &str) -> (same: bool)
    ensures
        same == (crate::text::option_text(*result) == Some(text@)),
{
    match result {
        Some(r) => str_eq(r.as_str(), text),
        None => false,
    }
}

fn odd_result_error(action: &str, here: &str, result: &BulkItemResult) -> (error: Error)
    ensures
        error@ == odd_result(action@, here@, result@),
{
    let mut message = told(action, here, " returned status ");
    message.append(decimal_string(result.status as u64).as_str());
    message.append(" and result ");
    message.append(show_option(&result.result).as_str());
    Error::StoreConnection { message }
}

fn failed_item_error(action: &str, here: &str, result: &BulkItemResult) -> (error: Error)
    requires
        result.error is Some,
    ensures
        error@ == failed_item(action@, here@, result@),
{
    let mut message = told(action, here, " with status ");
    message.append(decimal_string(result.status as u64).as_str());
    message.append(": ");
    match &result.error {
        Some(body) => {
            message.append(body.kind.as_str());
            message.append(": ");
            message.append(body.reason.as_str());
        },
        None => {},
    }
    Error::StoreConnection { message }
}

fn judge_indexed(index: &str, id: &str, item: &BulkItem) -> (result: Result<()>)
    ensures
        match result {
            Ok(_) => indexed_fault(index@, id@, item@) is None,
            Err(e) => indexed_fault(index@, id@, item@) == Some(e@),
        },
{
    let place = place_of(index, id);
    let here = place.as_str();
    let result = match &item.index {
        Some(result) => result,
        None => {
            return Err(
                Error::Deserialization(
                    told("OpenSearch bulk index for ", here, " returned a non-index item"),
                ),
            );
        },
    };
    if item.delete.is_some() {
        return Err(
            Error::Deserialization(
                told("OpenSearch bulk index for ", here, " returned multiple item actions"),
            ),
        );
    }
    if !str_eq(result.id.as_str(), id) {
        let behind = concat(" returned document id ", result.id.as_str());
        return Err(
            Error::StoreConnection {
                message: told("OpenSearch bulk index for ", here, behind.as_str()),
            },
        );
    }
    if result.error.is_some() {
        return Err(failed_item_error("OpenSearch bulk index failed for ", here, result));
    }
    if !(result.status == 200 || result.status == 201) || !(is_result(&result.result, "created")
        || is_result(&result.result, "updated")) {
        return Err(odd_result_error("OpenSearch bulk index for ", here, result));
    }
    match &result.shards {
        None => Err(
            Error::Deserialization(
                told("OpenSearch bulk index result for ", here, " is missing shard metadata"),
            ),
        ),
        Some(shards) => if shards.has_written() {
            Ok(())
        } else {
            let mut message = concat("OpenSearch bulk index for ", here);
            shards.append_write_text(&mut message);
            Err(Error::StoreConnection { message })
        },
    }
}

proof fn lemma_indexed_prefix(
    index: Seq<char>,
    ids: Seq<Seq<char>>,
    items: Seq<BulkItemModel>,
    k: nat,
    n: nat,
)
    requires
        k <= n,
        indexed_faults(index, ids, items, k) is Some,
    ensures
        indexed_faults(index, ids, items, n) == indexed_faults(index, ids, items, k),
    decreases n - k,
{
    if k < n {
        lemma_indexed_prefix(index, ids, items, k, (n - 1) as nat);
    }
}

fn count_message(action: &str, index: &str, items: usize, documents: usize) -> (message: String)
    ensures
        message@ == action@ + index@ + " returned "@ + decimal(items as nat) + " items for "@
            + decimal(documents as nat) + " documents"@,
{
    let mut message = concat(action, index);
    message.append(" returned ");
    message.append(decimal_string(items as u64).as_str());
    message.append(" items for ");
    message.append(decimal_string(documents as u64).as_str());
    message.append(" documents");
    message
}

/// Judges the reply to a bulk index of the documents with the given ids.
pub fn judge_bulk_index(index: &str, ids: &Vec<String>, reply: &BulkReply) -> (result: Result<()>)
    ensures
        ({
            let fault = bulk_index_fault(
                index@,
                texts(ids@),
                reply.errors,
                items_model(reply.items@),
            );
            match result {
                Ok(_) => fault is None,
                Err(e) => fault == Some(e@),
            }
        }),
{
    let ghost wanted = texts(ids@);
    let ghost models = items_model(reply.items@);
    if reply.items.len() != ids.len() {
        return Err(
            Error::StoreConnection {
                message: count_message(
                    "OpenSearch bulk index for ",
                    index,
                    reply.items.len(),
                    ids.len(),
                ),
            },
        );
    }
    let mut i: usize = 0;
    while i < ids.len()
        invariant
            i <= ids@.len(),
            ids@.len() == reply.items@.len(),
            wanted == texts(ids@),
            models == items_model(reply.items@),
            indexed_faults(index@, wanted, models, i as nat) is None,
        decreases ids@.len() - i,
    {
        proof {
            assert(wanted[i as int] == ids@[i as int]@);
            assert(models[i as int] == reply.items@[i as int]@);
            if indexed_faults(index@, wanted, models, (i + 1) as nat) is Some {
                lemma_indexed_prefix(index@, wanted, models, (i + 1) as nat, wanted.len());
            }
        }
        judge_indexed(index, ids[i].as_str(), &reply.items[i])?;
        i += 1;
    }
    if reply.errors {
        return Err(
            Error::StoreConnection {
                message: told(
                    "OpenSearch bulk index for ",
                    index,
                    " reported errors despite successful items",
                ),
            },
        );
    }
    Ok(())
}

fn judge_deletion(index: &str, id: &str, item: &BulkItem) -> (outcome: Result<Deletion>)
    ensures
        match outcome {
            Ok(d) => deletion(index@, id@, item@) == Ok::<_, ErrorModel>(d),
            Err(e) => deletion(index@, id@, item@) == Err::<Deletion, _>(e@),
        },
{
    let place = place_of(index, id);
    let here = place.as_str();
    let result = match &item.delete {
        Some(result) => result,
        None => {
            return Err(
                Error::Deserialization(
                    told("OpenSearch bulk delete for ", here, " returned a non-delete item"),
                ),
            );
        },
    };
    if item.index.is_some() {
        return Err(
            Error::Deserialization(
                told("OpenSearch bulk delete for ", here, " returned multiple item actions"),
            ),
        );
    }
    if !str_eq(result.id.as_str(), id) {
        let behind = concat(" returned document id ", result.id.as_str());
        return Err(
            Error::StoreConnection {
                message: told("OpenSearch bulk delete for ", here, behind.as_str()),
            },
        );
    }
    if let Some(body) = &result.error {
        if result.status == 404 && body.is_index_not_found() {
            return Ok(Deletion::WasAbsent);
        }
        return Err(failed_item_error("OpenSearch bulk delete failed for ", here, result));
    }
    if result.status == 200 && is_result(&result.result, "deleted") {
        match &result.shards {
            None => Err(
                Error::Deserialization(
                    told("OpenSearch bulk delete result for ", here, " is missing shard metadata"),
                ),
            ),
            Some(shards) => if shards.has_written() {
                Ok(Deletion::Deleted)
            } else {
                let mut message = concat("OpenSearch bulk delete for ", here);
                shards.append_write_text(&mut message);
                Err(Error::StoreConnection { message })
            },
        }
    } else if result.status == 404 && is_result(&result.result, "not_found") {
        match &result.shards {
            None => Ok(Deletion::WasAbsent),
            Some(shards) => if shards.has_written() {
                Ok(Deletion::WasAbsent)
            } else {
                let mut message = concat("OpenSearch missing-document delete for ", here);
                shards.append_write_text(&mut message);
                Err(Error::StoreConnection { message })
            },
        }
    } else {
        Err(odd_result_error("OpenSearch bulk delete for ", here, result))
    }
}

proof fn lemma_deletions_prefix(
    index: Seq<char>,
    ids: Seq<Seq<char>>,
    items: Seq<BulkItemModel>,
    k: nat,
    n: nat,
)
    requires
        k <= n,
        deletions(index, ids, items, k) is Err,
    ensures
        deletions(index, ids, items, n) == deletions(index, ids, items, k),
    decreases n - k,
{
    if k < n {
        lemma_deletions_prefix(index, ids, items, k, (n - 1) as nat);
    }
}

/// Judges the reply to a bulk delete of the documents with the given ids, and counts them.
pub fn judge_bulk_delete(index: &str, ids: &Vec<String>, reply: &BulkReply) -> (deleted: Result<
    usize,
>)
    ensures
        ({
            let outcome = bulk_deleted(
                index@,
                texts(ids@),
                reply.errors,
                items_model(reply.items@),
            );
            match deleted {
                Ok(n) => outcome == Ok::<_, ErrorModel>(n as nat),
                Err(e) => outcome == Err::<nat, _>(e@),
            }
        }),
{
    let ghost wanted = texts(ids@);
    let ghost models = items_model(reply.items@);
    if reply.items.len() != ids.len() {
        return Err(
            Error::StoreConnection {
                message: count_message(
                    "OpenSearch bulk delete for ",
                    index,
                    reply.items.len(),
                    ids.len(),
                ),
            },
        );
    }
    let mut count: usize = 0;
    let mut absent = false;
    let mut i: usize = 0;
    while i < ids.len()
        invariant
            i <= ids@.len(),
            count <= i,
            ids@.len() == reply.items@.len(),
            wanted == texts(ids@),
            models == items_model(reply.items@),
            deletions(index@, wanted, models, i as nat) == Ok::<_, ErrorModel>(
                (count as nat, absent),
            ),
        decreases ids@.len() - i,
    {
        proof {
            assert(wanted[i as int] == ids@[i as int]@);
            assert(models[i as int] == reply.items@[i as int]@);
            if deletions(index@, wanted, models, (i + 1) as nat) is Err {
                lemma_deletions_prefix(index@, wanted, models, (i + 1) as nat, wanted.len());
            }
        }
        match judge_deletion(index, ids[i].as_str(), &reply.items[i])? {
            Deletion::Deleted => {
                count += 1;
            },
            Deletion::WasAbsent => {
                absent = true;
            },
        }
        i += 1;
    }
    if reply.errors && !absent {
        return Err(
            Error::StoreConnection {
                message: told(
                    "OpenSearch bulk delete for ",
                    index,
                    " reported errors despite successful items",
                ),
            },
        );
    }
    Ok(count)
}

/// A bulk delete counts no more documents than it was asked to delete.
pub proof fn law_deleted_within_request(
    index: Seq<char>,
    ids: Seq<Seq<char>>,
    errors: bool,
    items: Seq<BulkItemModel>,
)
    ensures
        bulk_deleted(index, ids, errors, items) matches Ok(count) ==> count <= ids.len(),
{
    lemma_deletions_bound(index, ids, items, ids.len());
}

proof fn lemma_deletions_bound(
    index: Seq<char>,
    ids: Seq<Seq<char>>,
    items: Seq<BulkItemModel>,
    n: nat,
)
    ensures
        deletions(index, ids, items, n) matches Ok((count, absent)) ==> count <= n,
    decreases n,
{
    if n > 0 {
        lemma_deletions_bound(index, ids, items, (n - 1) as nat);
    }
}

} // verus!
