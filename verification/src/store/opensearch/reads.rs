//! How the replies to reads are judged.

use crate::entry::{EntryModel, ManagedEntry};
use crate::error::{Error, ErrorModel, Outcome, Result};
use crate::store::batch::{BatchModel, BatchRead};
use crate::store::opensearch::document::{doc_entry, doc_to_entry, place, place_of};
use crate::store::opensearch::names::{decode_document_id, decoded_id};
use crate::store::opensearch::reply::{
    check_complete, incomplete, is_absence, is_success, refusal, refused, says_absent, source_model,
    GetBody, MgetDocument, MgetModel, PageModel, SearchPage,
};
use crate::text::{bool_str, bool_text, concat, decimal, decimal_string, str_eq, texts};
use vstd::prelude::*;
#[allow(unused_imports)]
use vstd::string::*;

verus! {

/// What the read of one document comes to.
pub enum ReadOutcome {
    Live(ManagedEntry),
    Absent,
    /// The entry has expired; the document is to be deleted.
    Expired,
}

/// Whether every text in an answer is one that memory can hold, as every text is.
pub open spec fn body_sized(body: GetBody) -> bool {
    body matches GetBody::Document { source: Some(doc), .. } ==> doc@.sized()
}

/// What the answer to a read says is stored under an id; nothing where it is absent.
pub open spec fn answered_read(
    index: Seq<char>,
    id: Seq<char>,
    http: u16,
    body: GetBody,
) -> Outcome<Option<EntryModel>> {
    let here = place(index, id);
    match body {
        GetBody::Document { id: found_id, found, source } => if is_success(http) {
            if found_id@ != id {
                Err(
                    ErrorModel::StoreConnection {
                        message: "OpenSearch read for "@ + here + " returned document id "@
                            + found_id@,
                    },
                )
            } else if !found {
                Err(
                    ErrorModel::StoreConnection {
                        message:
                            "OpenSearch returned a successful response with found=false for "@
                            + here,
                    },
                )
            } else {
                match source_model(source) {
                    None => Err(
                        ErrorModel::Deserialization(
                            "OpenSearch document "@ + here + " is missing _source"@,
                        ),
                    ),
                    Some(doc) => match doc_entry(index, id, doc) {
                        Ok(entry) => Ok(Some(entry)),
                        Err(e) => Err(e),
                    },
                }
            }
        } else if http == 404 && found_id@ == id && !found {
            if source is Some {
                Err(
                    ErrorModel::Deserialization(
                        "missing OpenSearch document "@ + here
                            + " unexpectedly contained _source"@,
                    ),
                )
            } else {
                Ok(None)
            }
        } else {
            Err(
                ErrorModel::StoreConnection {
                    message: "OpenSearch read for "@ + here + " returned unexpected HTTP "@
                        + decimal(http as nat) + " and found="@ + bool_text(found)
                        + " for document "@ + found_id@,
                },
            )
        },
        GetBody::Error(reply) => if says_absent(http, reply@) {
            Ok(None)
        } else {
            Err(refusal("OpenSearch read for "@ + here, http, reply@))
        },
    }
}

/// Whether `read` is what an answer comes to at `now`.
pub open spec fn reads_answer(
    read: Result<ReadOutcome>,
    answer: Outcome<Option<EntryModel>>,
    now: i64,
) -> bool {
    match read {
        Ok(ReadOutcome::Live(e)) => answer == Ok::<_, ErrorModel>(Some(e@)) && !e@.expired(now),
        Ok(ReadOutcome::Absent) => answer == Ok::<Option<EntryModel>, ErrorModel>(None),
        Ok(ReadOutcome::Expired) => answer matches Ok(Some(e)) && e.expired(now),
        Err(e) => answer == Err::<Option<EntryModel>, _>(e@),
    }
}

/// Judges the answer to the read of one document.
pub fn judge_read(index: &str, id: &str, http: u16, body: GetBody, now: i64) -> (read: Result<
    ReadOutcome,
>)
    requires
        body_sized(body),
    ensures
        reads_answer(read, answered_read(index@, id@, http, body), now),
{
    let success = http >= 200 && http < 300;
    match body {
        GetBody::Document { id: found_id, found, source } => {
            let same = str_eq(found_id.as_str(), id);
            if success {
                if !same {
                    let mut message = concat(
                        "OpenSearch read for ",
                        place_of(index, id).as_str(),
                    );
                    message.append(" returned document id ");
                    message.append(found_id.as_str());
                    return Err(Error::StoreConnection { message });
                }
                if !found {
                    return Err(
                        Error::StoreConnection {
                            message: concat(
                                "OpenSearch returned a successful response with found=false for ",
                                place_of(index, id).as_str(),
                            ),
                        },
                    );
                }
                match source {
                    None => {
                        let mut message = concat(
                            "OpenSearch document ",
                            place_of(index, id).as_str(),
                        );
                        message.append(" is missing _source");
                        Err(Error::Deserialization(message))
                    },
                    Some(doc) => {
                        let entry = doc_to_entry(index, id, &doc)?;
                        if entry.is_expired(now) {
                            Ok(ReadOutcome::Expired)
                        } else {
                            Ok(ReadOutcome::Live(entry))
                        }
                    },
                }
            } else if http == 404 && same && !found {
                if source.is_some() {
                    let mut message = concat(
                        "missing OpenSearch document ",
                        place_of(index, id).as_str(),
                    );
                    message.append(" unexpectedly contained _source");
                    return Err(Error::Deserialization(message));
                }
                Ok(ReadOutcome::Absent)
            } else {
                let mut message = concat("OpenSearch read for ", place_of(index, id).as_str());
                message.append(" returned unexpected HTTP ");
                message.append(decimal_string(http as u64).as_str());
                message.append(" and found=");
                message.append(bool_str(found));
                message.append(" for document ");
                message.append(found_id.as_str());
                Err(Error::StoreConnection { message })
            }
        },
        GetBody::Error(reply) => if is_absence(http, &reply) {
            Ok(ReadOutcome::Absent)
        } else {
            let request = concat("OpenSearch read for ", place_of(index, id).as_str());
            Err(refused(request.as_str(), http, &reply))
        },
    }
}

/// What one document of a batch read says is stored under an id.
pub open spec fn mget_entry(index: Seq<char>, id: Seq<char>, document: MgetModel) -> Outcome<
    Option<EntryModel>,
> {
    let here = place(index, id);
    if document.id != id {
        Err(
            ErrorModel::StoreConnection {
                message: "OpenSearch batch read for "@ + here + " returned document id "@
                    + document.id,
            },
        )
    } else {
        match document.error {
            Some(error) => if document.found is Some || document.source is Some {
                Err(
                    ErrorModel::Deserialization(
                        "OpenSearch batch error for "@ + here + " also contained document data"@,
                    ),
                )
            } else if error.is_index_not_found() {
                Ok(None)
            } else {
                Err(
                    ErrorModel::StoreConnection {
                        message: "OpenSearch batch read failed for "@ + here + ": "@ + error.kind
                            + ": "@ + error.reason,
                    },
                )
            },
            None => match document.found {
                None => Err(
                    ErrorModel::Deserialization(
                        "OpenSearch batch response for "@ + here
                            + " is missing found and error"@,
                    ),
                ),
                Some(found) => match document.source {
                    None => if found {
                        Err(
                            ErrorModel::Deserialization(
                                "OpenSearch document "@ + here + " is missing _source"@,
                            ),
                        )
                    } else {
                        Ok(None)
                    },
                    Some(doc) => if found {
                        match doc_entry(index, id, doc) {
                            Ok(entry) => Ok(Some(entry)),
                            Err(e) => Err(e),
                        }
                    } else {
                        Err(
                            ErrorModel::Deserialization(
                                "missing OpenSearch document "@ + here
                                    + " unexpectedly contained _source"@,
                            ),
                        )
                    },
                },
            },
        }
    }
}

/// Judges one document of a batch read.
pub fn judge_mget(index: &str, id: &str, document: &MgetDocument) -> (entry: Result<
    Option<ManagedEntry>,
>)
    requires
        document@.source matches Some(doc) ==> doc.sized(),
    ensures
        match entry {
            Ok(Some(e)) => mget_entry(index@, id@, document@) == Ok::<_, ErrorModel>(Some(e@)),
            Ok(None) => mget_entry(index@, id@, document@) == Ok::<
                Option<EntryModel>,
                ErrorModel,
            >(None),
            Err(e) => mget_entry(index@, id@, document@) == Err::<Option<EntryModel>, _>(e@),
        },
{
    if !str_eq(document.id.as_str(), id) {
        let mut message = concat("OpenSearch batch read for ", place_of(index, id).as_str());
        message.append(" returned document id ");
        message.append(document.id.as_str());
        return Err(Error::StoreConnection { message });
    }
    match &document.error {
        Some(error) => {
            if document.found.is_some() || document.source.is_some() {
                let mut message = concat(
                    "OpenSearch batch error for ",
                    place_of(index, id).as_str(),
                );
                message.append(" also contained document data");
                return Err(Error::Deserialization(message));
            }
            if error.is_index_not_found() {
                return Ok(None);
            }
            let mut message = concat(
                "OpenSearch batch read failed for ",
                place_of(index, id).as_str(),
            );
            message.append(": ");
            message.append(error.kind.as_str());
            message.append(": ");
            message.append(error.reason.as_str());
            Err(Error::StoreConnection { message })
        },
        None => match (document.found, &document.source) {
            (None, _) => {
                let mut message = concat(
                    "OpenSearch batch response for ",
                    place_of(index, id).as_str(),
                );
                message.append(" is missing found and error");
                Err(Error::Deserialization(message))
            },
            (Some(found), None) => if found {
                let mut message = concat("OpenSearch document ", place_of(index, id).as_str());
                message.append(" is missing _source");
                Err(Error::Deserialization(message))
            } else {
                Ok(None)
            },
            (Some(found), Some(doc)) => if found {
                Ok(Some(doc_to_entry(index, id, doc)?))
            } else {
                let mut message = concat(
                    "missing OpenSearch document ",
                    place_of(index, id).as_str(),
                );
                message.append(" unexpectedly contained _source");
                Err(Error::Deserialization(message))
            },
        },
    }
}

/// The models of a list of documents.
pub open spec fn mget_models(documents: Seq<MgetDocument>) -> Seq<MgetModel> {
    documents.map_values(|d: MgetDocument| d@)
}

/// What the first `n` documents of a batch read come to.
pub open spec fn mget_gathered(
    index: Seq<char>,
    ids: Seq<Seq<char>>,
    documents: Seq<MgetModel>,
    n: nat,
    now: i64,
) -> Outcome<BatchModel>
    decreases n,
{
    if n == 0 {
        Ok(BatchModel::nothing())
    } else {
        match mget_gathered(index, ids, documents, (n - 1) as nat, now) {
            Err(e) => Err(e),
            Ok(batch) => match mget_entry(index, ids[n - 1], documents[n - 1]) {
                Err(e) => Err(e),
                Ok(entry) => Ok(batch.answered(n - 1, ids[n - 1], entry, now)),
            },
        }
    }
}

/// What the reply to a batch read comes to.
pub open spec fn mget_outcome(
    index: Seq<char>,
    ids: Seq<Seq<char>>,
    documents: Seq<MgetModel>,
    now: i64,
) -> Outcome<BatchModel> {
    if documents.len() != ids.len() {
        Err(
            ErrorModel::StoreConnection {
                message: "OpenSearch batch read for "@ + index + " returned "@ + decimal(
                    documents.len(),
                ) + " documents for "@ + decimal(ids.len()) + " keys"@,
            },
        )
    } else {
        mget_gathered(index, ids, documents, ids.len(), now)
    }
}

/// Judges the reply to a batch read.
pub fn read_entries(
    index: &str,
    ids: &Vec<String>,
    documents: &Vec<MgetDocument>,
    now: i64,
) -> (batch: Result<BatchRead>)
    requires
        forall|i: int|
            0 <= i < documents@.len() ==> ((#[trigger] documents@[i])@.source matches Some(doc)
                ==> doc.sized()),
    ensures
        match batch {
            Ok(b) => b.wf() && mget_outcome(
                index@,
                texts(ids@),
                mget_models(documents@),
                now,
            ) == Ok::<_, ErrorModel>(b@),
            Err(e) => mget_outcome(index@, texts(ids@), mget_models(documents@), now) == Err::<
                BatchModel,
                _,
            >(e@),
        },
{
    let ghost models = mget_models(documents@);
    let ghost wanted = texts(ids@);
    if documents.len() != ids.len() {
        let mut message = concat("OpenSearch batch read for ", index);
        message.append(" returned ");
        message.append(decimal_string(documents.len() as u64).as_str());
        message.append(" documents for ");
        message.append(decimal_string(ids.len() as u64).as_str());
        message.append(" keys");
        return Err(Error::StoreConnection { message });
    }
    let mut batch = BatchRead::new();
    let mut i: usize = 0;
    while i < ids.len()
        invariant
            i <= ids@.len(),
            ids@.len() == documents@.len(),
            forall|i: int|
                0 <= i < documents@.len() ==> ((#[trigger] documents@[i])@.source matches Some(doc)
                    ==> doc.sized()),
            models == mget_models(documents@),
            wanted == texts(ids@),
            batch.wf(),
            mget_gathered(index@, wanted, models, i as nat, now) == Ok::<_, ErrorModel>(batch@),
        decreases ids@.len() - i,
    {
        proof {
            assert(models[i as int] == documents@[i as int]@);
            assert(wanted[i as int] == ids@[i as int]@);
            if mget_gathered(index@, wanted, models, (i + 1) as nat, now) is Err {
                lemma_mget_prefix(index@, wanted, models, (i + 1) as nat, wanted.len(), now);
            }
        }
        let entry = judge_mget(index, ids[i].as_str(), &documents[i])?;
        batch.answer(i, ids[i].as_str(), entry, now);
        i += 1;
    }
    Ok(batch)
}

proof fn lemma_mget_prefix(
    index: Seq<char>,
    ids: Seq<Seq<char>>,
    documents: Seq<MgetModel>,
    k: nat,
    n: nat,
    now: i64,
)
    requires
        k <= n,
        mget_gathered(index, ids, documents, k, now) is Err,
    ensures
        mget_gathered(index, ids, documents, n, now) == mget_gathered(
            index,
            ids,
            documents,
            k,
            now,
        ),
    decreases n - k,
{
    if k < n {
        lemma_mget_prefix(index, ids, documents, k, (n - 1) as nat, now);
    }
}

/// The keys of the first `n` document ids.
pub open spec fn decoded_ids(ids: Seq<Seq<char>>, n: nat) -> Outcome<Seq<Seq<char>>>
    decreases n,
{
    if n == 0 {
        Ok(Seq::empty())
    } else {
        match decoded_ids(ids, (n - 1) as nat) {
            Err(e) => Err(e),
            Ok(keys) => match decoded_id(ids[n - 1]) {
                Err(e) => Err(e),
                Ok(key) => Ok(keys.push(key)),
            },
        }
    }
}

proof fn lemma_decoded_prefix(ids: Seq<Seq<char>>, k: nat, n: nat)
    requires
        k <= n,
        decoded_ids(ids, k) is Err,
    ensures
        decoded_ids(ids, n) == decoded_ids(ids, k),
    decreases n - k,
{
    if k < n {
        lemma_decoded_prefix(ids, k, (n - 1) as nat);
    }
}

/// The keys of document ids.
pub fn decode_ids(ids: &Vec<String>) -> (keys: Result<Vec<String>>)
    ensures
        match keys {
            Ok(k) => decoded_ids(texts(ids@), ids@.len()) == Ok::<_, ErrorModel>(texts(k@)),
            Err(e) => decoded_ids(texts(ids@), ids@.len()) == Err::<Seq<Seq<char>>, _>(e@),
        },
{
    let ghost all = texts(ids@);
    let mut keys: Vec<String> = Vec::new();
    let mut i: usize = 0;
    proof {
        assert(texts(keys@) =~= Seq::empty());
    }
    while i < ids.len()
        invariant
            i <= ids@.len(),
            all == texts(ids@),
            decoded_ids(all, i as nat) == Ok::<_, ErrorModel>(texts(keys@)),
        decreases ids@.len() - i,
    {
        let ghost before = keys@;
        proof {
            assert(all[i as int] == ids@[i as int]@);
            if decoded_ids(all, (i + 1) as nat) is Err {
                lemma_decoded_prefix(all, (i + 1) as nat, all.len());
            }
        }
        let key = decode_document_id(ids[i].as_str())?;
        let ghost k = key@;
        keys.push(key);
        proof {
            assert(texts(keys@) =~= texts(before).push(k));
        }
        i += 1;
    }
    Ok(keys)
}

/// What the reply to a key enumeration gives.
pub open spec fn listed_keys(index: Seq<char>, page: PageModel) -> Outcome<Seq<Seq<char>>> {
    if page.timed_out || !page.shards.covered() {
        Err(incomplete("OpenSearch key enumeration for "@ + index, page))
    } else {
        decoded_ids(page.hits, page.hits.len())
    }
}

/// Judges the reply to a key enumeration.
pub fn list_keys(index: &str, page: &SearchPage) -> (keys: Result<Vec<String>>)
    ensures
        match keys {
            Ok(k) => listed_keys(index@, page@) == Ok::<_, ErrorModel>(texts(k@)),
            Err(e) => listed_keys(index@, page@) == Err::<Seq<Seq<char>>, _>(e@),
        },
{
    let request = concat("OpenSearch key enumeration for ", index);
    check_complete(request.as_str(), page)?;
    decode_ids(&page.hits)
}

/// A batch read that succeeds answers every id: a live entry is found under its id, and nothing is
/// found under an id whose document is absent or has expired.
pub proof fn law_mget_answers(
    index: Seq<char>,
    ids: Seq<Seq<char>>,
    documents: Seq<MgetModel>,
    n: nat,
    now: i64,
)
    requires
        n <= ids.len(),
        ids.no_duplicates(),
        mget_gathered(index, ids, documents, n, now) is Ok,
    ensures
        ({
            let batch = mget_gathered(index, ids, documents, n, now)->Ok_0;
            &&& forall|i: int|
                0 <= i < n ==> (mget_entry(index, #[trigger] ids[i], documents[i]) matches Ok(entry)
                    && batch.found(ids[i]) == match entry {
                    Some(e) => if e.expired(now) {
                        None
                    } else {
                        Some(e)
                    },
                    None => None,
                })
            &&& forall|id: Seq<char>| #[trigger]
                batch.entries.dom().contains(id) ==> exists|i: int|
                    0 <= i < n && #[trigger] ids[i] == id
        }),
    decreases n,
{
    if n > 0 {
        let k = (n - 1) as nat;
        law_mget_answers(index, ids, documents, k, now);
        let batch = mget_gathered(index, ids, documents, n, now)->Ok_0;
        assert forall|i: int| 0 <= i < n implies (mget_entry(
            index,
            #[trigger] ids[i],
            documents[i],
        ) matches Ok(entry) && batch.found(ids[i]) == match entry {
            Some(e) => if e.expired(now) {
                None
            } else {
                Some(e)
            },
            None => None,
        }) by {
            if i < k {
                assert(ids[i] != ids[k as int]);
            }
        }
    }
}

} // verus!
