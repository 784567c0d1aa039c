//! What a MongoDB store asks for and how it reads what comes back.

use crate::entry::ManagedEntry;
use crate::error::{Error, ErrorModel, Outcome, Result};
use crate::store::batch::{BatchModel, BatchRead};
use crate::store::mongodb::config::MongoConfig;
use crate::store::mongodb::document::{
    decode_document, document_of, entry_document, written_fields, DocumentModel, FieldModel,
    MongoDocument, StoredDocument,
};
use crate::store::mongodb::names::{
    decode_collection_name, decoded_name, encode_collection_name, encoded_name,
};
use crate::text::{concat, decimal, decimal_string, list_contains, texts};
use vstd::prelude::*;
#[allow(unused_imports)]
use vstd::string::*;

verus! {

/// A store in MongoDB.
///
/// Each logical collection is one collection of the database, under its physical name.
pub struct MongoDBStore {
    config: MongoConfig,
}

/// What a document comes to at some time. An expired one is deleted where it is still the same.
pub enum DocumentRead {
    Live(ManagedEntry),
    Expired(StoredDocument),
}

/// The fields of a document, as a model.
pub type Fields = Map<Seq<char>, FieldModel>;

/// Whether `read` is what the document under a key comes to at `now`.
pub open spec fn reads_document(
    read: Result<DocumentRead>,
    fields: Fields,
    key: Seq<char>,
    now: i64,
) -> bool {
    match read {
        Ok(DocumentRead::Live(e)) => document_of(fields, Some(key)) matches Ok(s) && s.entry == e@
            && !s.entry.expired(now),
        Ok(DocumentRead::Expired(s)) => document_of(fields, Some(key)) == Ok::<_, ErrorModel>(s@)
            && s@.entry.expired(now),
        Err(e) => document_of(fields, Some(key)) == Err::<DocumentModel, _>(e@),
    }
}

/// The models of a list of documents.
pub open spec fn documents_model(documents: Seq<MongoDocument>) -> Seq<Fields> {
    documents.map_values(|d: MongoDocument| d@)
}

/// Whether every document is well-formed.
pub open spec fn documents_wf(documents: Seq<MongoDocument>) -> bool {
    forall|i: int| 0 <= i < documents.len() ==> (#[trigger] documents[i]).wf()
}

/// What the first `n` documents of a batch read come to.
pub open spec fn gathered(
    source: Seq<char>,
    requested: Seq<Seq<char>>,
    documents: Seq<Fields>,
    n: nat,
    now: i64,
) -> Outcome<BatchModel>
    decreases n,
{
    if n == 0 {
        Ok(BatchModel::nothing())
    } else {
        match gathered(source, requested, documents, (n - 1) as nat, now) {
            Err(e) => Err(e),
            Ok(batch) => match document_of(documents[n - 1], None) {
                Err(e) => Err(e),
                Ok(d) => if !requested.contains(d.key) {
                    Err(
                        ErrorModel::Deserialization(source + " returned unrequested key "@ + d.key),
                    )
                } else {
                    batch.taken_in(source, n - 1, d.key, d.entry, now)
                },
            },
        }
    }
}

/// What listing the keys of the first `n` documents gives: the live keys, no more than
/// `limit`, and which documents had expired. Nothing is looked at once the limit is reached.
pub open spec fn enumerated(documents: Seq<Fields>, limit: nat, n: nat, now: i64) -> Outcome<
    (Seq<Seq<char>>, Seq<int>),
>
    decreases n,
{
    if n == 0 {
        Ok((Seq::empty(), Seq::empty()))
    } else {
        match enumerated(documents, limit, (n - 1) as nat, now) {
            Err(e) => Err(e),
            Ok((keys, expired)) => if keys.len() >= limit {
                Ok((keys, expired))
            } else {
                match document_of(documents[n - 1], None) {
                    Err(e) => Err(e),
                    Ok(d) => if d.entry.expired(now) {
                        Ok((keys, expired.push(n - 1)))
                    } else {
                        Ok((keys.push(d.key), expired))
                    },
                }
            },
        }
    }
}

/// The first fault among documents that should all have expired.
pub open spec fn expired_fault(collection: Seq<char>, documents: Seq<Fields>, now: i64) -> Option<
    ErrorModel,
>
    decreases documents.len(),
{
    if documents.len() == 0 {
        None
    } else {
        match expired_fault(collection, documents.drop_last(), now) {
            Some(e) => Some(e),
            None => match document_of(documents.last(), None) {
                Err(e) => Some(e),
                Ok(d) => if d.entry.expired(now) {
                    None
                } else {
                    Some(
                        ErrorModel::Deserialization(
                            "MongoDB expiration query returned live key "@ + d.key + " from "@
                                + collection,
                        ),
                    )
                },
            },
        }
    }
}

/// What acknowledged writes must come to.
pub open spec fn writes_fault(collection: Seq<char>, acknowledged: int, expected: int) -> Option<
    ErrorModel,
> {
    if acknowledged == expected {
        None
    } else {
        Some(
            ErrorModel::StoreConnection {
                message: "MongoDB batch write for "@ + collection + " acknowledged "@ + decimal(
                    acknowledged as nat,
                ) + " of "@ + decimal(expected as nat) + " replacements"@,
            },
        )
    }
}

impl MongoDBStore {
    /// The collection that is used where none is named.
    pub closed spec fn default_collection(&self) -> Seq<char> {
        self.config.default_collection@
    }

    pub fn with_config(config: MongoConfig) -> (store: Self)
        ensures
            store.default_collection() == config.default_collection@,
    {
        MongoDBStore { config }
    }

    /// The collection that an optional name stands for.
    pub fn collection_name<'a>(&'a self, collection: Option<&'a str>) -> (name: &'a str)
        ensures
            name@ == match collection {
                Some(n) => n@,
                None => self.default_collection(),
            },
    {
        match collection {
            Some(name) => name,
            None => self.config.default_collection.as_str(),
        }
    }

    /// The physical name of a collection in a database.
    pub fn encode_collection_name(database_name: &str, collection: &str) -> (name: Result<String>)
        ensures
            match name {
                Ok(n) => encoded_name(database_name@, collection@) == Ok::<_, ErrorModel>(n@),
                Err(e) => encoded_name(database_name@, collection@) == Err::<Seq<char>, _>(e@),
            },
    {
        encode_collection_name(database_name, collection)
    }

    /// The physical and the logical name, where the physical name is one of this library.
    pub fn decode_collection_name(database_name: &str, physical: &str) -> (names: Result<
        Option<(String, String)>,
    >)
        ensures
            match names {
                Ok(Some((p, l))) => p@ == physical@ && decoded_name(database_name@, physical@)
                    == Ok::<_, ErrorModel>(Some(l@)),
                Ok(None) => decoded_name(database_name@, physical@) == Ok::<
                    Option<Seq<char>>,
                    ErrorModel,
                >(None),
                Err(e) => decoded_name(database_name@, physical@) == Err::<Option<Seq<char>>, _>(
                    e@,
                ),
            },
    {
        match decode_collection_name(database_name, physical)? {
            Some(logical) => Ok(Some((physical.to_owned(), logical))),
            None => Ok(None),
        }
    }

    /// The document for an entry, without the id that the server will give it.
    pub fn entry_document(key: &str, entry: &ManagedEntry) -> (document: MongoDocument)
        ensures
            document.wf(),
            document@ == written_fields(key@, entry@),
    {
        entry_document(key, entry)
    }

    /// Reads a document. `expected_key` is the key that was asked for, if only one was.
    pub fn decode_document(document: &MongoDocument, expected_key: Option<&str>) -> (stored: Result<
        StoredDocument,
    >)
        requires
            document.wf(),
        ensures
            ({
                let expected = match expected_key {
                    Some(k) => Some(k@),
                    None => None,
                };
                match stored {
                    Ok(s) => document_of(document@, expected) == Ok::<_, ErrorModel>(s@),
                    Err(e) => document_of(document@, expected) == Err::<DocumentModel, _>(e@),
                }
            }),
    {
        decode_document(document, expected_key)
    }

    /// Reads the document under a key and tells a live entry from an expired one.
    pub fn read_document(document: &MongoDocument, key: &str, now: i64) -> (read: Result<
        DocumentRead,
    >)
        requires
            document.wf(),
        ensures
            reads_document(read, document@, key@, now),
    {
        let stored = decode_document(document, Some(key))?;
        if stored.entry.is_expired(now) {
            Ok(DocumentRead::Expired(stored))
        } else {
            Ok(DocumentRead::Live(stored.entry))
        }
    }

    /// Gathers the documents of a batch read. `source` is what errors call the query.
    pub fn read_batch(
        source: &str,
        keys: &Vec<String>,
        documents: &Vec<MongoDocument>,
        now: i64,
    ) -> (batch: Result<BatchRead>)
        requires
            documents_wf(documents@),
        ensures
            match batch {
                Ok(b) => b.wf() && gathered(
                    source@,
                    texts(keys@),
                    documents_model(documents@),
                    documents@.len(),
                    now,
                ) == Ok::<_, ErrorModel>(b@),
                Err(e) => gathered(
                    source@,
                    texts(keys@),
                    documents_model(documents@),
                    documents@.len(),
                    now,
                ) == Err::<BatchModel, _>(e@),
            },
    {
        let ghost models = documents_model(documents@);
        let ghost wanted = texts(keys@);
        let mut batch = BatchRead::new();
        let mut i: usize = 0;
        while i < documents.len()
            invariant
                i <= documents@.len(),
                documents_wf(documents@),
                models == documents_model(documents@),
                wanted == texts(keys@),
                batch.wf(),
                gathered(source@, wanted, models, i as nat, now) == Ok::<_, ErrorModel>(batch@),
            decreases documents@.len() - i,
        {
            proof {
                assert(models[i as int] == documents@[i as int]@);
                if gathered(source@, wanted, models, (i + 1) as nat, now) is Err {
                    lemma_gathered_prefix(
                        source@,
                        wanted,
                        models,
                        (i + 1) as nat,
                        models.len(),
                        now,
                    );
                }
            }
            let document = decode_document(&documents[i], None)?;
            if !list_contains(keys, document.key.as_str()) {
                let mut message = concat(source, " returned unrequested key ");
                message.append(document.key.as_str());
                return Err(Error::Deserialization(message));
            }
            batch.take_in(source, i, document.key.as_str(), document.entry, now)?;
            i += 1;
        }
        Ok(batch)
    }

    /// The live keys of documents, at most `limit`, and the places of those that had expired.
    pub fn list_keys(documents: &Vec<MongoDocument>, limit: usize, now: i64) -> (keys: Result<
        (Vec<String>, Vec<usize>),
    >)
        requires
            documents_wf(documents@),
        ensures
            match keys {
                Ok((k, x)) => enumerated(
                    documents_model(documents@),
                    limit as nat,
                    documents@.len(),
                    now,
                ) == Ok::<_, ErrorModel>((texts(k@), x@.map_values(|i: usize| i as int))),
                Err(e) => enumerated(
                    documents_model(documents@),
                    limit as nat,
                    documents@.len(),
                    now,
                ) == Err::<(Seq<Seq<char>>, Seq<int>), _>(e@),
            },
    {
        let ghost models = documents_model(documents@);
        let mut keys: Vec<String> = Vec::new();
        let mut expired: Vec<usize> = Vec::new();
        let mut i: usize = 0;
        proof {
            assert(texts(keys@) =~= Seq::empty());
            assert(expired@.map_values(|i: usize| i as int) =~= Seq::empty());
        }
        while i < documents.len()
            invariant
                i <= documents@.len(),
                documents_wf(documents@),
                models == documents_model(documents@),
                enumerated(models, limit as nat, i as nat, now) == Ok::<_, ErrorModel>(
                    (texts(keys@), expired@.map_values(|i: usize| i as int)),
                ),
            decreases documents@.len() - i,
        {
            let ghost keys_before = keys@;
            let ghost expired_before = expired@;
            proof {
                assert(models[i as int] == documents@[i as int]@);
                if enumerated(models, limit as nat, (i + 1) as nat, now) is Err {
                    lemma_enumerated_prefix(
                        models,
                        limit as nat,
                        (i + 1) as nat,
                        models.len(),
                        now,
                    );
                }
            }
            if keys.len() < limit {
                let document = decode_document(&documents[i], None)?;
                if document.entry.is_expired(now) {
                    expired.push(i);
                    proof {
                        assert(expired@.map_values(|i: usize| i as int)
                            =~= expired_before.map_values(|i: usize| i as int).push(i as int));
                    }
                } else {
                    let ghost key = document.key@;
                    keys.push(document.key);
                    proof {
                        assert(texts(keys@) =~= texts(keys_before).push(key));
                    }
                }
            }
            i += 1;
        }
        Ok((keys, expired))
    }

    /// Holds documents that should all have expired against the time.
    pub fn check_expired(collection: &str, documents: &Vec<MongoDocument>, now: i64) -> (result:
        Result<()>)
        requires
            documents_wf(documents@),
        ensures
            match result {
                Ok(_) => expired_fault(collection@, documents_model(documents@), now) is None,
                Err(e) => expired_fault(collection@, documents_model(documents@), now) == Some(e@),
            },
    {
        let ghost models = documents_model(documents@);
        let mut i: usize = 0;
        proof {
            assert(models.take(0) =~= Seq::empty());
        }
        while i < documents.len()
            invariant
                i <= documents@.len(),
                documents_wf(documents@),
                models == documents_model(documents@),
                expired_fault(collection@, models.take(i as int), now) is None,
            decreases documents@.len() - i,
        {
            proof {
                assert(models.take(i + 1).drop_last() =~= models.take(i as int));
                assert(models.take(i + 1).last() == documents@[i as int]@);
                if expired_fault(collection@, models.take(i + 1), now) is Some {
                    lemma_expired_prefix(collection@, models, i + 1, now);
                }
            }
            let document = decode_document(&documents[i], None)?;
            if !document.entry.is_expired(now) {
                let mut message = concat(
                    "MongoDB expiration query returned live key ",
                    document.key.as_str(),
                );
                message.append(" from ");
                message.append(collection);
                return Err(Error::Deserialization(message));
            }
            i += 1;
        }
        assert(models.take(i as int) =~= models);
        Ok(())
    }

    /// Holds the number of acknowledged writes against the number of those sent.
    pub fn check_writes(collection: &str, acknowledged: u64, expected: usize) -> (result: Result<
        (),
    >)
        ensures
            match result {
                Ok(_) => writes_fault(collection@, acknowledged as int, expected as int) is None,
                Err(e) => writes_fault(collection@, acknowledged as int, expected as int) == Some(
                    e@,
                ),
            },
    {
        if acknowledged == expected as u64 {
            return Ok(());
        }
        let mut message = concat("MongoDB batch write for ", collection);
        message.append(" acknowledged ");
        message.append(decimal_string(acknowledged).as_str());
        message.append(" of ");
        message.append(decimal_string(expected as u64).as_str());
        message.append(" replacements");
        Err(Error::StoreConnection { message })
    }

    /// The number of deleted documents, where it fits.
    pub fn deleted_count(collection: &str, count: u64) -> (number: Result<usize>)
        ensures
            match number {
                Ok(n) => n == count,
                Err(e) => count > usize::MAX && e@ == (ErrorModel::StoreConnection {
                    message: "MongoDB deleted count for "@ + collection@ + " does not fit usize: "@
                        + decimal(count as nat),
                }),
            },
    {
        if count <= usize::MAX as u64 {
            return Ok(count as usize);
        }
        let mut message = concat("MongoDB deleted count for ", collection);
        message.append(" does not fit usize: ");
        message.append(decimal_string(count).as_str());
        Err(Error::StoreConnection { message })
    }
}

proof fn lemma_gathered_prefix(
    source: Seq<char>,
    requested: Seq<Seq<char>>,
    documents: Seq<Fields>,
    k: nat,
    n: nat,
    now: i64,
)
    requires
        k <= n,
        gathered(source, requested, documents, k, now) is Err,
    ensures
        gathered(source, requested, documents, n, now) == gathered(
            source,
            requested,
            documents,
            k,
            now,
        ),
    decreases n - k,
{
    if k < n {
        lemma_gathered_prefix(source, requested, documents, k, (n - 1) as nat, now);
    }
}

proof fn lemma_enumerated_prefix(documents: Seq<Fields>, limit: nat, k: nat, n: nat, now: i64)
    requires
        k <= n,
        enumerated(documents, limit, k, now) is Err,
    ensures
        enumerated(documents, limit, n, now) == enumerated(documents, limit, k, now),
    decreases n - k,
{
    if k < n {
        lemma_enumerated_prefix(documents, limit, k, (n - 1) as nat, now);
    }
}

proof fn lemma_expired_prefix(collection: Seq<char>, documents: Seq<Fields>, k: int, now: i64)
    requires
        0 <= k <= documents.len(),
        expired_fault(collection, documents.take(k), now) is Some,
    ensures
        expired_fault(collection, documents, now) == expired_fault(
            collection,
            documents.take(k),
            now,
        ),
    decreases documents.len() - k,
{
    if k == documents.len() {
        assert(documents.take(k) =~= documents);
    } else {
        assert(documents.take(k + 1).drop_last() =~= documents.take(k));
        lemma_expired_prefix(collection, documents, k + 1, now);
    }
}

/// A batch read that succeeds accounts for every document: a live one is found under its key, one
/// that has expired is noted; and nothing is found that was in no document.
pub proof fn law_batch_accounts(
    source: Seq<char>,
    requested: Seq<Seq<char>>,
    documents: Seq<Fields>,
    n: nat,
    now: i64,
)
    requires
        n <= documents.len(),
        gathered(source, requested, documents, n, now) is Ok,
    ensures
        ({
            let batch = gathered(source, requested, documents, n, now)->Ok_0;
            &&& forall|a: int|
                0 <= a < n ==> (document_of(#[trigger] documents[a], None) matches Ok(d)
                    && if d.entry.expired(now) {
                    batch.expired.contains(a)
                } else {
                    batch.found(d.key) == Some(d.entry)
                })
            &&& forall|key: Seq<char>| #[trigger]
                batch.entries.dom().contains(key) ==> exists|a: int|
                    0 <= a < n && (document_of(#[trigger] documents[a], None) matches Ok(d) && d.key
                        == key)
        }),
    decreases n,
{
    if n > 0 {
        let k = (n - 1) as nat;
        law_batch_accounts(source, requested, documents, k, now);
        let before = gathered(source, requested, documents, k, now)->Ok_0;
        let batch = gathered(source, requested, documents, n, now)->Ok_0;
        let last = document_of(documents[k as int], None)->Ok_0;
        assert forall|a: int| 0 <= a < n implies (document_of(
            #[trigger] documents[a],
            None,
        ) matches Ok(d) && if d.entry.expired(now) {
            batch.expired.contains(a)
        } else {
            batch.found(d.key) == Some(d.entry)
        }) by {
            let d = document_of(documents[a], None)->Ok_0;
            if a < k {
                if d.entry.expired(now) {
                    let i = choose|i: int| 0 <= i < before.expired.len() && before.expired[i] == a;
                    assert(batch.expired[i] == a);
                } else if !last.entry.expired(now) {
                    assert(before.entries.dom().contains(d.key));
                    assert(d.key != last.key);
                }
            } else if d.entry.expired(now) {
                assert(batch.expired.last() == a);
            }
        }
    }
}

} // verus!
