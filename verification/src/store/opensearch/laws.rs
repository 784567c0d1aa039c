//! What the replies of the service are judged as, and what is sent to it.

use crate::encoding::{base64, base64_decoded};
use crate::entry::{entry_bytes, law_entry_exact, law_entry_roundtrip, EntryModel};
use crate::error::{ErrorModel, Outcome, Result};
use crate::store::batch::{distinct, law_distinct};
use crate::store::opensearch::bulk::{
    bulk_deleted, bulk_index_fault, deletion, deletions, indexed_fault, indexed_faults, Deletion,
};
use crate::store::opensearch::document::{doc_entry, DocModel, OpenSearchDoc};
use crate::store::opensearch::names::{
    decoded_id, decoded_index, encoded_id, encoded_index, prefix_fault,
};
use crate::store::opensearch::reads::{
    answered_read, decoded_ids, listed_keys, mget_entry, mget_gathered, mget_models, mget_outcome,
    reads_answer, ReadOutcome,
};
use crate::store::opensearch::reply::{
    items_model, says_absent, source_model, BulkItem, BulkItemModel, BulkItemResult,
    ErrorReplyModel, GetBody, MgetDocument, MgetModel, PageModel,
};
use crate::store::opensearch::scan::{after_page, clear_fault, page_fault, ScanAction, ScanModel};
use crate::store::opensearch::store::{
    batch_documents, collection_of, cull_fault, documents_hold, encoded_ids, last_of, owned,
    CullReply,
};
use vstd::prelude::*;
#[allow(unused_imports)]
use vstd::string::*;
use vstd::utf8::encode_utf8;

verus! {

/// A document reads as an entry exactly where its text is the standard Base64 of the stored form of
/// that entry and it repeats the entry's time of expiry; all else is a deserialization error.
pub proof fn law_document_exact(index: Seq<char>, id: Seq<char>, doc: DocModel, entry: EntryModel)
    ensures
        doc_entry(index, id, doc) == Ok::<_, ErrorModel>(entry) <==> {
            &&& base64_decoded(doc.entry) matches Ok(bytes) && bytes == entry_bytes(entry)
            &&& base64(entry_bytes(entry)) == doc.entry
            &&& doc.expires_at == entry.expires_at
        },
        doc_entry(index, id, doc) matches Err(e) ==> e is Deserialization,
{
    law_entry_roundtrip(entry);
    if let Ok(bytes) = base64_decoded(doc.entry) {
        law_entry_exact(bytes);
    }
}

/// An index is absent exactly where both the request and its body say 404 and the body names a
/// missing index.
pub proof fn law_absence(http: u16, reply: ErrorReplyModel)
    ensures
        says_absent(http, reply) <==> http == 404 && reply.status == 404 && reply.error.kind
            == "index_not_found_exception"@,
{
}

/// Whether an item of a bulk write says that the document was written, on at least one shard and
/// failing on none.
pub open spec fn says_indexed(id: Seq<char>, item: BulkItemModel) -> bool {
    &&& item.delete is None
    &&& item.index matches Some(r) && {
        &&& r.id == id
        &&& r.error is None
        &&& r.status == 200 || r.status == 201
        &&& r.result == Some("created"@) || r.result == Some("updated"@)
        &&& r.shards matches Some(s) && s.failed == 0 && 0 < s.successful <= s.total
    }
}

/// A bulk write passes exactly where there is an item for each document, in order, each says that
/// its document was written, and no error is reported.
pub proof fn law_bulk_index(
    index: Seq<char>,
    ids: Seq<Seq<char>>,
    errors: bool,
    items: Seq<BulkItemModel>,
)
    ensures
        bulk_index_fault(index, ids, errors, items) is None <==> {
            &&& items.len() == ids.len()
            &&& forall|i: int| 0 <= i < ids.len() ==> says_indexed(ids[i], #[trigger] items[i])
            &&& !errors
        },
        bulk_index_fault(index, ids, errors, items) matches Some(e) ==> e is StoreConnection
            || e is Deserialization,
{
    if items.len() == ids.len() {
        lemma_indexed_faults(index, ids, items, ids.len());
    }
}

proof fn lemma_indexed_faults(
    index: Seq<char>,
    ids: Seq<Seq<char>>,
    items: Seq<BulkItemModel>,
    n: nat,
)
    requires
        n <= ids.len(),
        n <= items.len(),
    ensures
        indexed_faults(index, ids, items, n) is None <==> forall|i: int|
            0 <= i < n ==> says_indexed(ids[i], #[trigger] items[i]),
        indexed_faults(index, ids, items, n) matches Some(e) ==> e is StoreConnection
            || e is Deserialization,
    decreases n,
{
    if n > 0 {
        lemma_indexed_faults(index, ids, items, (n - 1) as nat);
        assert(indexed_fault(index, ids[n - 1], items[n - 1]) is None <==> says_indexed(
            ids[n - 1],
            items[n - 1],
        ));
    }
}

/// Whether an item of a bulk delete says that the document was deleted, on at least one shard and
/// failing on none.
pub open spec fn says_deleted(id: Seq<char>, item: BulkItemModel) -> bool {
    &&& item.index is None
    &&& item.delete matches Some(r) && {
        &&& r.id == id
        &&& r.error is None
        &&& r.status == 200
        &&& r.result == Some("deleted"@)
        &&& r.shards matches Some(s) && s.failed == 0 && 0 < s.successful <= s.total
    }
}

/// Whether an item of a bulk delete says that there was no such document, or no such index.
pub open spec fn says_missing(id: Seq<char>, item: BulkItemModel) -> bool {
    &&& item.index is None
    &&& item.delete matches Some(r) && {
        &&& r.id == id
        &&& r.status == 404
        &&& match r.error {
            Some(error) => error.kind == "index_not_found_exception"@,
            None => r.result == Some("not_found"@) && (r.shards matches Some(s) ==> s.failed == 0
                && 0 < s.successful <= s.total),
        }
    }
}

/// One item of a bulk delete counts as deleted exactly where it says so, as absent exactly where it
/// says that, and is an error otherwise.
pub proof fn law_deletion(index: Seq<char>, id: Seq<char>, item: BulkItemModel)
    ensures
        deletion(index, id, item) == Ok::<_, ErrorModel>(Deletion::Deleted) <==> says_deleted(
            id,
            item,
        ),
        deletion(index, id, item) == Ok::<_, ErrorModel>(Deletion::WasAbsent) <==> says_missing(
            id,
            item,
        ),
        deletion(index, id, item) matches Err(e) ==> e is StoreConnection || e is Deserialization,
{
    reveal_strlit("deleted");
    reveal_strlit("not_found");
    assert("deleted"@.len() != "not_found"@.len());
}

/// The places of a bulk delete whose items say that their documents were deleted.
pub open spec fn deleted_places(ids: Seq<Seq<char>>, items: Seq<BulkItemModel>, n: nat) -> Set<int> {
    Set::new(|i: int| 0 <= i < n && says_deleted(ids[i], items[i]))
}

proof fn lemma_deletions(
    index: Seq<char>,
    ids: Seq<Seq<char>>,
    items: Seq<BulkItemModel>,
    n: nat,
)
    requires
        n <= ids.len(),
        n <= items.len(),
    ensures
        deleted_places(ids, items, n).finite(),
        match deletions(index, ids, items, n) {
            Ok((count, absent)) => {
                &&& count == deleted_places(ids, items, n).len()
                &&& absent <==> exists|i: int| 0 <= i < n && says_missing(ids[i], #[trigger] items[i])
                &&& forall|i: int|
                    0 <= i < n ==> says_deleted(ids[i], #[trigger] items[i]) || says_missing(
                        ids[i],
                        items[i],
                    )
            },
            Err(e) => exists|i: int|
                0 <= i < n && !says_deleted(ids[i], #[trigger] items[i]) && !says_missing(
                    ids[i],
                    items[i],
                ),
        },
    decreases n,
{
    if n > 0 {
        let m = (n - 1) as nat;
        lemma_deletions(index, ids, items, m);
        law_deletion(index, ids[m as int], items[m as int]);
        let before = deleted_places(ids, items, m);
        let after = deleted_places(ids, items, n);
        if says_deleted(ids[m as int], items[m as int]) {
            assert(after =~= before.insert(m as int));
        } else {
            assert(after =~= before);
        }
        match deletions(index, ids, items, m) {
            Err(e) => {
                let i = choose|i: int|
                    0 <= i < m && !says_deleted(ids[i], #[trigger] items[i]) && !says_missing(
                        ids[i],
                        items[i],
                    );
                assert(!says_deleted(ids[i], items[i]));
            },
            Ok((count, absent)) => {
                if absent {
                    let i = choose|i: int|
                        0 <= i < m && says_missing(ids[i], #[trigger] items[i]);
                    assert(says_missing(ids[i], items[i]));
                }
                if deletion(index, ids[m as int], items[m as int]) is Err {
                    assert(!says_deleted(ids[m as int], items[m as int]));
                }
            },
        }
    } else {
        assert(deleted_places(ids, items, 0) =~= Set::empty());
    }
}

/// A bulk delete passes exactly where there is an item for each document, in order, and each says
/// that its document was deleted or was not there; errors may be reported only where one was not
/// there. What is counted is how many were deleted.
pub proof fn law_bulk_delete(
    index: Seq<char>,
    ids: Seq<Seq<char>>,
    errors: bool,
    items: Seq<BulkItemModel>,
)
    ensures
        bulk_deleted(index, ids, errors, items) is Ok <==> {
            &&& items.len() == ids.len()
            &&& forall|i: int|
                0 <= i < ids.len() ==> says_deleted(ids[i], #[trigger] items[i]) || says_missing(
                    ids[i],
                    items[i],
                )
            &&& errors ==> exists|i: int|
                0 <= i < ids.len() && says_missing(ids[i], #[trigger] items[i])
        },
        bulk_deleted(index, ids, errors, items) matches Ok(count) ==> count == deleted_places(
            ids,
            items,
            ids.len(),
        ).len(),
{
    if items.len() == ids.len() {
        lemma_deletions(index, ids, items, ids.len());
    }
}

/// A read finds an entry exactly where the service answers with success, the document that was
/// asked for, and a source that holds the entry. It finds nothing exactly where the service says,
/// with a 404, that there is no such document or no such index.
pub proof fn law_read_answer(
    index: Seq<char>,
    id: Seq<char>,
    http: u16,
    body: GetBody,
    entry: EntryModel,
)
    ensures
        answered_read(index, id, http, body) == Ok::<_, ErrorModel>(Some(entry)) <==> {
            &&& 200 <= http < 300
            &&& body matches GetBody::Document { id: got, found, source } && {
                &&& got@ == id
                &&& found
                &&& source_model(source) matches Some(doc) && doc_entry(index, id, doc) == Ok::<
                    _,
                    ErrorModel,
                >(entry)
            }
        },
        answered_read(index, id, http, body) == Ok::<Option<EntryModel>, ErrorModel>(None) <==> {
            &&& http == 404
            &&& match body {
                GetBody::Document { id: got, found, source } => got@ == id && !found
                    && source is None,
                GetBody::Error(reply) => reply@.status == 404 && reply@.error.kind
                    == "index_not_found_exception"@,
            }
        },
{
}

/// One answer of a batch read finds an entry exactly where it is for the document that was asked
/// for and holds a source with that entry. It finds nothing exactly where it says that the document
/// or its index is not there, and holds nothing else.
pub proof fn law_batch_answer(
    index: Seq<char>,
    id: Seq<char>,
    document: MgetModel,
    entry: EntryModel,
)
    ensures
        mget_entry(index, id, document) == Ok::<_, ErrorModel>(Some(entry)) <==> {
            &&& document.id == id
            &&& document.error is None
            &&& document.found == Some(true)
            &&& document.source matches Some(doc) && doc_entry(index, id, doc) == Ok::<
                _,
                ErrorModel,
            >(entry)
        },
        mget_entry(index, id, document) == Ok::<Option<EntryModel>, ErrorModel>(None) <==> {
            &&& document.id == id
            &&& document.source is None
            &&& match document.error {
                Some(error) => document.found is None && error.kind
                    == "index_not_found_exception"@,
                None => document.found == Some(false),
            }
        },
{
}

/// A batch read succeeds exactly where there is an answer for each id, in order, and each one can
/// be read; otherwise the error is that of the first one that cannot.
pub proof fn law_batch_succeeds(
    index: Seq<char>,
    ids: Seq<Seq<char>>,
    documents: Seq<MgetModel>,
    now: i64,
)
    ensures
        mget_outcome(index, ids, documents, now) is Ok <==> documents.len() == ids.len() && forall|
            i: int,
        |
            0 <= i < ids.len() ==> mget_entry(index, #[trigger] ids[i], documents[i]) is Ok,
{
    if documents.len() == ids.len() {
        lemma_batch_succeeds(index, ids, documents, ids.len(), now);
    }
}

proof fn lemma_batch_succeeds(
    index: Seq<char>,
    ids: Seq<Seq<char>>,
    documents: Seq<MgetModel>,
    n: nat,
    now: i64,
)
    requires
        n <= ids.len(),
    ensures
        mget_gathered(index, ids, documents, n, now) is Ok <==> forall|i: int|
            0 <= i < n ==> mget_entry(index, #[trigger] ids[i], documents[i]) is Ok,
    decreases n,
{
    if n > 0 {
        lemma_batch_succeeds(index, ids, documents, (n - 1) as nat, now);
    }
}

/// Ids are read one by one: as many keys, at every place the key of that id; the error is that of
/// the first id that cannot be read.
pub proof fn law_ids_read_one_by_one(ids: Seq<Seq<char>>, n: nat)
    requires
        n <= ids.len(),
    ensures
        match decoded_ids(ids, n) {
            Ok(keys) => keys.len() == n && forall|i: int|
                0 <= i < n ==> decoded_id(#[trigger] ids[i]) == Ok::<_, ErrorModel>(keys[i]),
            Err(e) => exists|k: int|
                {
                    &&& 0 <= k < n
                    &&& decoded_id(#[trigger] ids[k]) == Err::<Seq<char>, _>(e)
                    &&& forall|j: int| 0 <= j < k ==> decoded_id(#[trigger] ids[j]) is Ok
                },
        },
    decreases n,
{
    if n > 0 {
        let m = (n - 1) as nat;
        law_ids_read_one_by_one(ids, m);
        match decoded_ids(ids, m) {
            Ok(before) => {
                assert forall|j: int| 0 <= j < m implies decoded_id(#[trigger] ids[j]) is Ok by {
                    assert(decoded_id(ids[j]) == Ok::<_, ErrorModel>(before[j]));
                }
                if let Err(e) = decoded_id(ids[m as int]) {
                    assert(decoded_id(ids[m as int]) == Err::<Seq<char>, _>(e));
                }
            },
            Err(e) => {
                let k = choose|k: int|
                    {
                        &&& 0 <= k < m
                        &&& decoded_id(#[trigger] ids[k]) == Err::<Seq<char>, _>(e)
                        &&& forall|j: int| 0 <= j < k ==> decoded_id(#[trigger] ids[j]) is Ok
                    };
                assert(0 <= k < n);
            },
        }
    }
}

/// Ids are made one by one: as many as keys, at every place the id of that key; the error is that
/// of the first key that has none.
pub proof fn law_ids_made_one_by_one(keys: Seq<Seq<char>>, n: nat)
    requires
        n <= keys.len(),
    ensures
        match encoded_ids(keys, n) {
            Ok(ids) => ids.len() == n && forall|i: int|
                0 <= i < n ==> encoded_id(#[trigger] keys[i]) == Ok::<_, ErrorModel>(ids[i]),
            Err(e) => exists|k: int|
                {
                    &&& 0 <= k < n
                    &&& encoded_id(#[trigger] keys[k]) == Err::<Seq<char>, _>(e)
                    &&& forall|j: int| 0 <= j < k ==> encoded_id(#[trigger] keys[j]) is Ok
                },
        },
    decreases n,
{
    if n > 0 {
        let m = (n - 1) as nat;
        law_ids_made_one_by_one(keys, m);
        match encoded_ids(keys, m) {
            Ok(before) => {
                assert forall|j: int| 0 <= j < m implies encoded_id(#[trigger] keys[j]) is Ok by {
                    assert(encoded_id(keys[j]) == Ok::<_, ErrorModel>(before[j]));
                }
                if let Err(e) = encoded_id(keys[m as int]) {
                    assert(encoded_id(keys[m as int]) == Err::<Seq<char>, _>(e));
                }
            },
            Err(e) => {
                let k = choose|k: int|
                    {
                        &&& 0 <= k < m
                        &&& encoded_id(#[trigger] keys[k]) == Err::<Seq<char>, _>(e)
                        &&& forall|j: int| 0 <= j < k ==> encoded_id(#[trigger] keys[j]) is Ok
                    };
                assert(0 <= k < n);
            },
        }
    }
}

/// The indices of this library: each one that the pattern found, in order, with the collection that
/// its name reads as; a name that does not read is an error.
pub proof fn law_owned_one_by_one(prefix: Seq<char>, indices: Seq<Seq<char>>, n: nat)
    requires
        n <= indices.len(),
    ensures
        match owned(prefix, indices, n) {
            Ok(pairs) => pairs.len() == n && forall|i: int|
                0 <= i < n ==> pairs[i].0 == #[trigger] indices[i] && decoded_index(
                    prefix,
                    indices[i],
                ) == Ok::<_, ErrorModel>(pairs[i].1),
            Err(e) => exists|k: int|
                0 <= k < n && decoded_index(prefix, #[trigger] indices[k]) == Err::<
                    Seq<char>,
                    _,
                >(e),
        },
    decreases n,
{
    if n > 0 {
        let m = (n - 1) as nat;
        law_owned_one_by_one(prefix, indices, m);
        match owned(prefix, indices, m) {
            Ok(before) => {
                if let Err(e) = decoded_index(prefix, indices[m as int]) {
                    assert(0 <= m < n);
                }
            },
            Err(e) => {
                let k = choose|k: int|
                    0 <= k < m && decoded_index(prefix, #[trigger] indices[k]) == Err::<
                        Seq<char>,
                        _,
                    >(e);
                assert(0 <= k < n);
            },
        }
    }
}

/// Whether a page of a search is whole: in time, with no shard failed and none unaccounted for.
pub open spec fn is_whole(page: PageModel) -> bool {
    &&& !page.timed_out
    &&& page.shards.failed == 0
    &&& page.shards.successful + page.shards.skipped <= page.shards.total
}

/// Listing keys succeeds exactly where the page is whole and every id on it reads as a key: these
/// keys, in order.
pub proof fn law_listed_keys(index: Seq<char>, page: PageModel)
    ensures
        match listed_keys(index, page) {
            Ok(keys) => is_whole(page) && keys.len() == page.hits.len() && forall|i: int|
                0 <= i < page.hits.len() ==> decoded_id(#[trigger] page.hits[i]) == Ok::<
                    _,
                    ErrorModel,
                >(keys[i]),
            Err(e) => !is_whole(page) && e is StoreConnection || exists|k: int|
                0 <= k < page.hits.len() && decoded_id(#[trigger] page.hits[k]) == Err::<
                    Seq<char>,
                    _,
                >(e),
        },
{
    law_ids_read_one_by_one(page.hits, page.hits.len());
}

/// A page of a scan has no fault exactly where it is whole and every id on it reads as a key. The
/// scan goes on only behind such a page that is not empty; otherwise it is cleared.
pub proof fn law_scan_page(index: Seq<char>, scroll_id: Seq<char>, page: PageModel)
    ensures
        page_fault(index, page) is None <==> is_whole(page) && forall|i: int|
            0 <= i < page.hits.len() ==> decoded_id(#[trigger] page.hits[i]) is Ok,
        ({
            let (scan, action) = after_page(index, scroll_id, page);
            &&& action == ScanAction::Scroll <==> page_fault(index, page) is None && page.hits.len()
                > 0
            &&& scan.index == index
            &&& scan.scroll_id == scroll_id
            &&& scan.failure == page_fault(index, page)
        }),
{
    law_ids_read_one_by_one(page.hits, page.hits.len());
    if let Ok(keys) = decoded_ids(page.hits, page.hits.len()) {
        assert forall|i: int| 0 <= i < page.hits.len() implies decoded_id(
            #[trigger] page.hits[i],
        ) is Ok by {
            assert(decoded_id(page.hits[i]) == Ok::<_, ErrorModel>(keys[i]));
        }
    }
}

/// A scan that fails, or loses its scroll, keeps the scroll it had, is cleared, and reports the
/// failure; one that goes on goes on with the new scroll.
pub proof fn law_scan_answer(scan: ScanModel, answer: Outcome<(Seq<char>, PageModel)>)
    ensures
        ({
            let (next, action) = scan.after_answer(answer);
            match answer {
                Err(e) => next.failure == Some(e) && next.scroll_id == scan.scroll_id && action
                    == ScanAction::Clear,
                Ok((scroll_id, page)) => if scroll_id.len() == 0 {
                    next.failure is Some && next.scroll_id == scan.scroll_id && action
                        == ScanAction::Clear
                } else {
                    next.scroll_id == scroll_id && next.failure == page_fault(scan.index, page)
                },
            }
        }),
        scan.after_answer(answer).0.index == scan.index,
{
}

/// What a scan ends with: valid where neither the scan nor the clearing failed; the one error where
/// one did; a connection error where both did.
pub proof fn law_scan_outcome(scan: ScanModel, cleared: Outcome<()>)
    ensures
        match scan.outcome(cleared) {
            Ok(valid) => valid && scan.failure is None && cleared is Ok,
            Err(e) => match (scan.failure, cleared) {
                (Some(failure), Ok(_)) => e == failure,
                (None, Err(fault)) => e == fault,
                (Some(_), Err(_)) => e is StoreConnection,
                (None, Ok(_)) => false,
            },
        },
{
}

/// Culling and clearing pass exactly where nothing was left undone.
pub proof fn law_done(
    indices: Seq<Seq<char>>,
    reply: CullReply,
    scroll_id: Seq<char>,
    succeeded: bool,
    freed: u64,
)
    ensures
        cull_fault(indices, reply) is None <==> {
            &&& !reply.timed_out
            &&& reply.deleted == reply.total
            &&& reply.version_conflicts == 0
            &&& reply.noops == 0
            &&& reply.failures == 0
        },
        cull_fault(indices, reply) matches Some(e) ==> e is StoreConnection,
        clear_fault(scroll_id, succeeded, freed) is None <==> succeeded,
        clear_fault(scroll_id, succeeded, freed) matches Some(e) ==> e is StoreConnection,
{
}

/// The last place of an id is a place of it, behind which it does not come again.
pub proof fn law_last_of(ids: Seq<Seq<char>>, id: Seq<char>)
    requires
        ids.contains(id),
    ensures
        0 <= last_of(ids, id) < ids.len(),
        ids[last_of(ids, id)] == id,
        forall|j: int| last_of(ids, id) < j < ids.len() ==> #[trigger] ids[j] != id,
    decreases ids.len(),
{
    let front = ids.drop_last();
    if ids.last() != id {
        let i = choose|i: int| 0 <= i < ids.len() && ids[i] == id;
        assert(front[i] == id);
        law_last_of(front, id);
        assert forall|j: int| last_of(ids, id) < j < ids.len() implies #[trigger] ids[j] != id by {
            if j < front.len() {
                assert(front[j] == ids[j]);
            }
        }
    }
}

/// Of a batch each id is written once, with the entry of its last place.
pub proof fn law_batch_documents(ids: Seq<Seq<char>>, entries: Seq<EntryModel>)
    requires
        ids.len() == entries.len(),
    ensures
        ({
            let documents = batch_documents(ids, entries);
            &&& forall|a: int, b: int|
                0 <= a < b < documents.len() ==> (#[trigger] documents[a]).0 != (
                #[trigger] documents[b]).0
            &&& forall|a: int|
                0 <= a < documents.len() ==> exists|i: int|
                    {
                        &&& 0 <= i < ids.len()
                        &&& #[trigger] ids[i] == (#[trigger] documents[a]).0
                        &&& documents[a].1 == entries[i]
                        &&& forall|j: int| i < j < ids.len() ==> #[trigger] ids[j] != ids[i]
                    }
            &&& forall|i: int|
                0 <= i < ids.len() ==> exists|a: int|
                    0 <= a < documents.len() && (#[trigger] documents[a]).0 == #[trigger] ids[i]
        }),
{
    law_distinct(ids);
    let once = distinct(ids);
    let documents = batch_documents(ids, entries);
    assert forall|a: int| 0 <= a < documents.len() implies exists|i: int|
        {
            &&& 0 <= i < ids.len()
            &&& #[trigger] ids[i] == (#[trigger] documents[a]).0
            &&& documents[a].1 == entries[i]
            &&& forall|j: int| i < j < ids.len() ==> #[trigger] ids[j] != ids[i]
        } by {
        assert(once.contains(once[a]));
        law_last_of(ids, once[a]);
        let i = last_of(ids, once[a]);
        assert(ids[i] == documents[a].0);
    }
    assert forall|i: int| 0 <= i < ids.len() implies exists|a: int|
        0 <= a < documents.len() && (#[trigger] documents[a]).0 == #[trigger] ids[i] by {
        assert(ids.contains(ids[i]));
        assert(once.contains(ids[i]));
        let a = choose|a: int| 0 <= a < once.len() && once[a] == ids[i];
        assert(documents[a].0 == ids[i]);
    }
}

/// A prefix can be used exactly where it starts with a lower-case letter or a digit, goes on with
/// these, dots, underscores and dashes, and leaves room for a collection.
pub proof fn law_prefix(prefix: Seq<char>)
    ensures
        prefix_fault(prefix) is None <==> {
            &&& prefix.len() > 0
            &&& 'a' <= prefix[0] <= 'z' || '0' <= prefix[0] <= '9'
            &&& forall|i: int|
                0 <= i < prefix.len() ==> {
                    ||| 'a' <= #[trigger] prefix[i] <= 'z'
                    ||| '0' <= prefix[i] <= '9'
                    ||| prefix[i] == '.'
                    ||| prefix[i] == '_'
                    ||| prefix[i] == '-'
                }
            &&& encode_utf8(prefix).len() <= 249
        },
        prefix_fault(prefix) matches Some(e) ==> e is InvalidKey,
{
    if prefix_fault(prefix) is None {
        assert forall|i: int| 0 <= i < prefix.len() implies {
            ||| 'a' <= #[trigger] prefix[i] <= 'z'
            ||| '0' <= prefix[i] <= '9'
            ||| prefix[i] == '.'
            ||| prefix[i] == '_'
            ||| prefix[i] == '-'
        } by {
            assert(crate::store::opensearch::names::fits_prefix(prefix[i]));
        }
    }
}

/// A collection has an index exactly where the prefix can be used and the name, in hexadecimal,
/// fits 255 bytes; a key has an id exactly where it fits 512.
pub proof fn law_names_fit(prefix: Seq<char>, collection: Seq<char>, key: Seq<char>)
    ensures
        encoded_index(prefix, collection) is Ok <==> prefix_fault(prefix) is None && encode_utf8(
            prefix,
        ).len() + 6 + 2 * encode_utf8(collection).len() <= 255,
        encoded_index(prefix, collection) matches Err(e) ==> e is InvalidKey,
        encoded_id(key) is Ok <==> encode_utf8(key).len() <= 380,
        encoded_id(key) matches Err(e) ==> e is InvalidKey,
        decoded_id(key) matches Err(e) ==> e is InvalidKey,
        decoded_index(prefix, key) matches Err(e) ==> e is InvalidKey,
{
    law_prefix(prefix);
}

/// The answers and items of a reply stand for their fields, one for each, in order.
pub proof fn law_lists(documents: Seq<MgetDocument>, items: Seq<BulkItem>, i: int)
    ensures
        mget_models(documents).len() == documents.len(),
        items_model(items).len() == items.len(),
        0 <= i < documents.len() ==> {
            let model = mget_models(documents)[i];
            &&& model.id == documents[i].id@
            &&& model.found == documents[i].found
            &&& (documents[i].source is None <==> model.source is None)
            &&& (documents[i].source matches Some(doc) ==> model.source == Some(doc@))
            &&& (documents[i].error is None <==> model.error is None)
            &&& (documents[i].error matches Some(error) ==> model.error == Some(error@))
        },
        0 <= i < items.len() ==> {
            let model = items_model(items)[i];
            &&& (items[i].index is None <==> model.index is None)
            &&& (items[i].index matches Some(r) ==> model.index == Some(r@))
            &&& (items[i].delete is None <==> model.delete is None)
            &&& (items[i].delete matches Some(r) ==> model.delete == Some(r@))
        },
{
}

/// An item result stands for what it says.
pub proof fn law_item_view(result: BulkItemResult)
    ensures
        result@.id == result.id@,
        result@.status == result.status,
        result.result matches Some(text) ==> result@.result == Some(text@),
        result.result is None <==> result@.result is None,
        result.error matches Some(error) ==> result@.error == Some(error@),
        result.error is None <==> result@.error is None,
        result@.shards == result.shards,
{
}

/// A batch holds, at every place, a document with the Base64 of the entry and its time of expiry,
/// under the id of that place.
pub proof fn law_documents_hold(
    documents: Seq<(String, OpenSearchDoc)>,
    wanted: Seq<(Seq<char>, EntryModel)>,
    i: int,
)
    requires
        documents_hold(documents, wanted),
        0 <= i < wanted.len(),
    ensures
        documents.len() == wanted.len(),
        documents[i].0@ == wanted[i].0,
        documents[i].1.entry@ == base64(entry_bytes(wanted[i].1)),
        documents[i].1.expires_at == wanted[i].1.expires_at,
{
}

/// A store uses the collection that is named, and its default one where none is.
pub proof fn law_named(default: Seq<char>, name: &str)
    ensures
        collection_of(default, Some(name)) == name@,
        collection_of(default, None) == default,
{
}

/// An answer comes to a live entry exactly where it holds one whose time has not come, to an expired
/// one where it has, to nothing where it holds none, and to its error where it is one.
pub proof fn law_answer_read(
    read: Result<ReadOutcome>,
    answer: Outcome<Option<EntryModel>>,
    now: i64,
)
    ensures
        reads_answer(read, answer, now) <==> match answer {
            Ok(Some(entry)) => if entry.expires_at matches Some(t) && t <= now {
                read matches Ok(ReadOutcome::Expired)
            } else {
                read matches Ok(ReadOutcome::Live(e)) && e@ == entry
            },
            Ok(None) => read matches Ok(ReadOutcome::Absent),
            Err(fault) => read matches Err(e) && e@ == fault,
        },
{
}

} // verus!
