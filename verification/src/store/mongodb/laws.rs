//! What documents, indexes and names of a database are read as.

use crate::entry::{entry_bytes, EntryModel};
use crate::error::{ErrorModel, Outcome, Result};
use crate::store::batch::law_mirrored_exact;
use crate::store::mongodb::document::{
    document_of, law_document_roundtrip, written_fields, DocumentModel, FieldModel, MongoDocument,
};
use crate::store::mongodb::indexes::{
    first_stage, indexes_model, inspected, stage_after, IndexDirection, IndexStage, MongoIndex,
    MongoIndexModel,
};
use crate::store::mongodb::names::{
    decoded_name, encoded_name, logical_names, owned, pairs_model,
};
use crate::store::mongodb::store::{
    documents_model, enumerated, expired_fault, gathered, reads_document, writes_fault, DocumentRead,
    Fields,
};
use vstd::prelude::*;
#[allow(unused_imports)]
use vstd::string::*;
use vstd::utf8::encode_utf8;

verus! {

/// A document that is read holds an object id, a key, the stored form of an entry and, where the
/// entry expires, its time of expiry once more, and no other field; where one key was asked for it
/// is that key. Anything else is a deserialization error.
pub proof fn law_document_exact(fields: Fields, expected: Option<Seq<char>>)
    requires
        fields.dom().finite(),
    ensures
        match document_of(fields, expected) {
            Ok(d) => {
                &&& fields.dom() == if d.entry.expires_at is Some {
                    set!["_id"@, "key"@, "entry"@, "expires_at"@]
                } else {
                    set!["_id"@, "key"@, "entry"@]
                }
                &&& fields["_id"@] == FieldModel::ObjectId(d.id)
                &&& fields["key"@] == FieldModel::Text(d.key)
                &&& (fields["entry"@] matches FieldModel::Binary { generic, bytes, .. } && generic
                    && bytes == entry_bytes(d.entry))
                &&& d.raw_entry == entry_bytes(d.entry)
                &&& d.expires_at == d.entry.expires_at
                &&& (d.entry.expires_at matches Some(t) ==> fields["expires_at"@]
                    == FieldModel::DateTime(t))
                &&& (expected matches Some(key) ==> key == d.key)
            },
            Err(e) => e is Deserialization,
        },
{
    reveal_strlit("_id");
    reveal_strlit("key");
    reveal_strlit("entry");
    reveal_strlit("expires_at");
    assert("_id"@.len() == 3 && "key"@.len() == 3 && "_id"@[0] != "key"@[0]);
    if let Ok(d) = document_of(fields, expected) {
        law_mirrored_exact("MongoDB"@, d.key, d.raw_entry, d.expires_at);
        assert(crate::store::batch::mirrored("MongoDB"@, d.key, d.raw_entry, d.expires_at) == Ok::<
            _,
            ErrorModel,
        >(d.entry));
        let three = set!["_id"@, "key"@, "entry"@];
        let four = set!["_id"@, "key"@, "entry"@, "expires_at"@];
        assert("entry"@.len() == 5 && "expires_at"@.len() == 10);
        if fields.dom().contains("expires_at"@) {
            assert(four.len() == 4);
            vstd::set_lib::lemma_subset_equality(four, fields.dom());
        } else {
            assert(three.len() == 3);
            vstd::set_lib::lemma_subset_equality(three, fields.dom());
        }
    } else {
        match (fields["_id"@], fields["key"@]) {
            (FieldModel::ObjectId(id), FieldModel::Text(key)) => {
                if let FieldModel::Binary { generic, bytes, .. } = fields["entry"@] {
                    law_mirrored_exact("MongoDB"@, key, bytes, None);
                    if let FieldModel::DateTime(t) = fields["expires_at"@] {
                        law_mirrored_exact("MongoDB"@, key, bytes, Some(t));
                    }
                }
            },
            _ => {},
        }
    }
}

/// What a document reads as, whatever its key.
#[verifier::opaque]
pub open spec fn document(fields: Fields) -> Outcome<DocumentModel> {
    document_of(fields, None)
}

proof fn lemma_gathered_step(
    source: Seq<char>,
    requested: Seq<Seq<char>>,
    documents: Seq<Fields>,
    n: nat,
    now: i64,
)
    requires
        0 < n <= documents.len(),
    ensures
        gathered(source, requested, documents, n, now) is Ok <==> {
            &&& gathered(source, requested, documents, (n - 1) as nat, now) is Ok
            &&& document(documents[n - 1]) matches Ok(d) && requested.contains(d.key)
                && gathered(source, requested, documents, (n - 1) as nat, now)->Ok_0.taken_in(
                source,
                n - 1,
                d.key,
                d.entry,
                now,
            ) is Ok
        },
        gathered(source, requested, documents, n, now) matches Ok(batch) ==> gathered(
            source,
            requested,
            documents,
            (n - 1) as nat,
            now,
        )->Ok_0.taken_in(
            source,
            n - 1,
            document(documents[n - 1])->Ok_0.key,
            document(documents[n - 1])->Ok_0.entry,
            now,
        ) == Ok::<_, ErrorModel>(batch),
{
    reveal(document);
}

/// Whether a document can be read, and its entry lives at `now`.
pub open spec fn is_live(fields: Fields, now: i64) -> bool {
    document(fields) matches Ok(d) && (d.entry.expires_at matches Some(t) ==> now < t)
}

/// A batch read succeeds exactly where every document is readable and was asked for, and no key is
/// live twice; then each key finds the entry of its live document, or nothing where none lives, and
/// the places of the others are noted.
pub proof fn law_gathered_documents(
    source: Seq<char>,
    requested: Seq<Seq<char>>,
    documents: Seq<Fields>,
    n: nat,
    now: i64,
)
    requires
        n <= documents.len(),
    ensures
        gathered(source, requested, documents, n, now) is Ok <==> {
            &&& forall|i: int|
                0 <= i < n ==> (document(#[trigger] documents[i]) matches Ok(d)
                    && requested.contains(d.key))
            &&& forall|i: int, j: int|
                0 <= i < j < n && is_live(#[trigger] documents[i], now) && is_live(
                    #[trigger] documents[j],
                    now,
                ) ==> document(documents[i])->Ok_0.key != document(documents[j])->Ok_0.key
        },
        gathered(source, requested, documents, n, now) matches Ok(batch) ==> {
            &&& forall|i: int|
                0 <= i < n && is_live(#[trigger] documents[i], now) ==> batch.found(
                    document(documents[i])->Ok_0.key,
                ) == Some(document(documents[i])->Ok_0.entry)
            &&& forall|key: Seq<char>|
                (#[trigger] batch.found(key)) is Some ==> exists|i: int|
                    0 <= i < n && is_live(#[trigger] documents[i], now) && document(documents[i])->Ok_0.key == key
            &&& forall|i: int|
                #[trigger] batch.expired.contains(i) <==> 0 <= i < n && !is_live(documents[i], now)
        },
    decreases n,
{
    if n > 0 {
        let m = (n - 1) as nat;
        law_gathered_documents(source, requested, documents, m, now);
        lemma_gathered_step(source, requested, documents, n, now);
        let earlier = gathered(source, requested, documents, m, now);
        let fields = documents[m as int];
        if earlier is Ok && document(fields) is Ok && requested.contains(
            document(fields)->Ok_0.key,
        ) {
            let before = earlier->Ok_0;
            let d = document(fields)->Ok_0;
            if !d.entry.expired(now) && before.found(d.key) is Some {
                let i = choose|i: int|
                    0 <= i < m && is_live(#[trigger] documents[i], now) && document(documents[i])->Ok_0.key == d.key;
                assert(is_live(documents[i], now) && is_live(documents[m as int], now));
            } else {
                let batch = gathered(source, requested, documents, n, now)->Ok_0;
                assert forall|i: int, j: int|
                    0 <= i < j < n && is_live(#[trigger] documents[i], now) && is_live(
                        #[trigger] documents[j],
                        now,
                    ) implies document(documents[i])->Ok_0.key != document(documents[j])->Ok_0.key by {
                    if j == m {
                        assert(before.found(document(documents[i])->Ok_0.key) is Some);
                    }
                }
                assert forall|i: int| 0 <= i < n && is_live(#[trigger] documents[i], now) implies
                    batch.found(document(documents[i])->Ok_0.key) == Some(
                    document(documents[i])->Ok_0.entry,
                ) by {
                    if i < m {
                        assert(before.found(document(documents[i])->Ok_0.key) is Some);
                    }
                }
                assert forall|key: Seq<char>| (#[trigger] batch.found(key)) is Some implies exists|
                    i: int,
                |
                    0 <= i < n && is_live(#[trigger] documents[i], now) && document(documents[i])->Ok_0.key == key by {
                    if before.found(key) is Some {
                        let i = choose|i: int|
                            0 <= i < m && is_live(#[trigger] documents[i], now) && document(documents[i])->Ok_0.key == key;
                        assert(is_live(documents[i], now));
                    } else {
                        assert(is_live(documents[m as int], now));
                    }
                }
                assert forall|i: int| #[trigger] batch.expired.contains(i) <==> 0 <= i < n
                    && !is_live(documents[i], now) by {
                    assert(before.expired.contains(i) <==> 0 <= i < m && !is_live(
                        documents[i],
                        now,
                    ));
                    if d.entry.expired(now) {
                        assert(batch.expired == before.expired.push(m as int));
                        if before.expired.contains(i) {
                            let a = choose|a: int|
                                0 <= a < before.expired.len() && before.expired[a] == i;
                            assert(batch.expired[a] == i);
                        }
                        if i == m {
                            assert(batch.expired[before.expired.len() as int] == i);
                        }
                        if batch.expired.contains(i) && i != m {
                            let a = choose|a: int|
                                0 <= a < batch.expired.len() && batch.expired[a] == i;
                            assert(before.expired[a] == i);
                        }
                    }
                }
            }
        }
    }
}

/// Whether `keys` are those of the live documents at `places`, which are in order.
pub open spec fn keys_at(
    documents: Seq<Fields>,
    places: Seq<int>,
    keys: Seq<Seq<char>>,
    now: i64,
) -> bool {
    &&& places.len() == keys.len()
    &&& forall|a: int|
        0 <= a < places.len() ==> {
            &&& 0 <= #[trigger] places[a] < documents.len()
            &&& is_live(documents[places[a]], now)
            &&& document(documents[places[a]])->Ok_0.key == keys[a]
        }
    &&& forall|a: int, b: int| 0 <= a < b < places.len() ==> places[a] < places[b]
}

/// Listing keys gives the keys of live documents, in their order and no more than the limit. Every
/// document before the limit is reached is accounted for: as a key, or among those that had expired.
pub proof fn law_listed_keys(documents: Seq<Fields>, limit: nat, n: nat, now: i64) -> (places: Seq<
    int,
>)
    requires
        n <= documents.len(),
        forall|i: int| 0 <= i < n ==> document(#[trigger] documents[i]) is Ok,
    ensures
        enumerated(documents, limit, n, now) matches Ok((keys, expired)) && {
            &&& keys_at(documents, places, keys, now)
            &&& forall|a: int| 0 <= a < places.len() ==> #[trigger] places[a] < n
            &&& keys.len() <= limit
            &&& forall|i: int|
                #[trigger] expired.contains(i) ==> 0 <= i < n && !is_live(documents[i], now)
            &&& keys.len() < limit ==> forall|i: int|
                0 <= i < n ==> if is_live(#[trigger] documents[i], now) {
                    places.contains(i)
                } else {
                    expired.contains(i)
                }
        },
    decreases n,
{
    if n == 0 {
        Seq::empty()
    } else {
        let m = (n - 1) as nat;
        let before = law_listed_keys(documents, limit, m, now);
        reveal(document);
        let (old_keys, old_expired) = enumerated(documents, limit, m, now)->Ok_0;
        let (keys, expired) = enumerated(documents, limit, n, now)->Ok_0;
        assert(document(documents[m as int]) is Ok);
        let places = if keys.len() > old_keys.len() {
            before.push(m as int)
        } else {
            before
        };
        assert forall|i: int| #[trigger] expired.contains(i) implies 0 <= i < n && !is_live(
            documents[i],
            now,
        ) by {
            let a = choose|a: int| 0 <= a < expired.len() && expired[a] == i;
            if a < old_expired.len() {
                assert(old_expired[a] == i);
                assert(old_expired.contains(i));
            }
        }
        if keys.len() < limit {
            assert forall|i: int| 0 <= i < n implies if is_live(#[trigger] documents[i], now) {
                places.contains(i)
            } else {
                expired.contains(i)
            } by {
                if i < m {
                    if is_live(documents[i], now) {
                        assert(before.contains(i));
                        let a = choose|a: int| 0 <= a < before.len() && before[a] == i;
                        assert(places[a] == i);
                    } else {
                        assert(old_expired.contains(i));
                        let a = choose|a: int| 0 <= a < old_expired.len() && old_expired[a] == i;
                        assert(expired[a] == i);
                    }
                } else if is_live(documents[i], now) {
                    assert(places[before.len() as int] == i);
                } else {
                    assert(expired[old_expired.len() as int] == i);
                }
            }
        }
        places
    }
}

/// Documents that must have expired pass exactly where each one is readable and its time has come.
pub proof fn law_expired_documents(collection: Seq<char>, documents: Seq<Fields>, now: i64)
    ensures
        expired_fault(collection, documents, now) is None <==> forall|i: int|
            0 <= i < documents.len() ==> (document(#[trigger] documents[i]) matches Ok(d)
                && (d.entry.expires_at matches Some(t) && t <= now)),
    decreases documents.len(),
{
    if documents.len() > 0 {
        let front = documents.drop_last();
        let n = documents.len() - 1;
        law_expired_documents(collection, front, now);
        reveal(document);
        assert(forall|i: int| 0 <= i < n ==> #[trigger] documents[i] == front[i]);
        assert(forall|i: int| 0 <= i < n ==> #[trigger] front[i] == documents[i]);
        assert(documents[n] == documents.last());
    }
}

/// A batch write passes exactly where as many writes were acknowledged as were sent.
pub proof fn law_acknowledged(collection: Seq<char>, acknowledged: int, expected: int)
    ensures
        writes_fault(collection, acknowledged, expected) is None <==> acknowledged == expected,
        writes_fault(collection, acknowledged, expected) matches Some(e) ==> e is StoreConnection,
{
}

/// The two indexes of a collection: a unique one on the key, and one on the time of expiry by which
/// the server deletes at once; both ascending, complete and in use.
pub proof fn law_good_indexes(index: MongoIndexModel)
    ensures
        index.is_key_index() <==> {
            &&& index.keys.len() == 1
            &&& index.keys[0].0 == "key"@
            &&& index.keys[0].1 == IndexDirection::Int32(1)
            &&& index.name == Some("openkeyv_key_unique"@)
            &&& index.unique == Some(true)
            &&& index.expire_after is None
            &&& index.sparse != Some(true)
            &&& index.hidden != Some(true)
            &&& !index.has_partial_filter
            &&& !index.has_collation
        },
        index.is_ttl_index() <==> {
            &&& index.keys.len() == 1
            &&& index.keys[0].0 == "expires_at"@
            &&& index.keys[0].1 == IndexDirection::Int32(1)
            &&& index.name == Some("openkeyv_expires_ttl"@)
            &&& index.unique != Some(true)
            &&& index.expire_after == Some(0u64)
            &&& index.sparse != Some(true)
            &&& index.hidden != Some(true)
            &&& !index.has_partial_filter
            &&& !index.has_collation
        },
        index.is_key_index() ==> index.claims_keys(),
        index.is_ttl_index() ==> index.claims_expiry(),
{
    let one = IndexDirection::Int32(1);
    if index.keys.len() == 1 && index.keys[0].1 == one {
        assert(index.keys =~= seq![(index.keys[0].0, one)]);
    }
    if index.is_on("key"@) {
        assert(index.keys[0] == ("key"@, one));
    }
    if index.is_on("expires_at"@) {
        assert(index.keys[0] == ("expires_at"@, one));
    }
}

/// The indexes of a collection pass exactly where each one that is on a required field, or bears a
/// required name, is the good one, and none is there twice; what is reported is which are there.
pub proof fn law_inspected(collection: Seq<char>, indexes: Seq<MongoIndexModel>, n: nat)
    requires
        n <= indexes.len(),
    ensures
        match inspected(collection, indexes, n) {
            Ok((keys, expiry)) => {
                &&& keys <==> exists|i: int| 0 <= i < n && (#[trigger] indexes[i]).is_key_index()
                &&& expiry <==> exists|i: int|
                    0 <= i < n && (#[trigger] indexes[i]).is_ttl_index()
                        && !indexes[i].claims_keys()
                &&& forall|i: int|
                    0 <= i < n ==> {
                        &&& (#[trigger] indexes[i]).claims_keys() ==> indexes[i].is_key_index()
                        &&& indexes[i].claims_expiry() && !indexes[i].claims_keys()
                            ==> indexes[i].is_ttl_index()
                    }
            },
            Err(e) => e is StoreSetup && exists|i: int|
                {
                    &&& 0 <= i < n
                    &&& {
                        ||| (#[trigger] indexes[i]).claims_keys() && !indexes[i].is_key_index()
                        ||| indexes[i].claims_expiry() && !indexes[i].is_ttl_index()
                        ||| exists|j: int|
                            0 <= j < i && (#[trigger] indexes[j]).is_key_index()
                                && indexes[i].is_key_index()
                        ||| exists|j: int|
                            0 <= j < i && (#[trigger] indexes[j]).is_ttl_index()
                                && indexes[i].is_ttl_index()
                    }
                },
        },
    decreases n,
{
    if n > 0 {
        let m = (n - 1) as nat;
        law_inspected(collection, indexes, m);
        let index = indexes[m as int];
        law_good_indexes(index);
        match inspected(collection, indexes, m) {
            Err(e) => {},
            Ok((keys, expiry)) => {
                if inspected(collection, indexes, n) is Err {
                    assert(0 <= m < n);
                }
                if keys {
                    let j = choose|j: int| 0 <= j < m && (#[trigger] indexes[j]).is_key_index();
                    assert(indexes[j].is_key_index());
                }
                if expiry {
                    let j = choose|j: int|
                        0 <= j < m && (#[trigger] indexes[j]).is_ttl_index()
                            && !indexes[j].claims_keys();
                    assert(indexes[j].is_ttl_index());
                }
            },
        }
    }
}

/// The setup of a collection makes just the indexes that its first reading did not show, and ends
/// only with a second reading that shows both.
pub proof fn law_index_stages(
    stage: IndexStage,
    collection: Seq<char>,
    indexes: Seq<MongoIndexModel>,
)
    requires
        stage is Inspect || stage is Verify,
        inspected(collection, indexes, indexes.len()) is Ok,
    ensures
        ({
            let keys = exists|i: int|
                0 <= i < indexes.len() && (#[trigger] indexes[i]).is_key_index();
            let expiry = exists|i: int|
                0 <= i < indexes.len() && (#[trigger] indexes[i]).is_ttl_index()
                    && !indexes[i].claims_keys();
            match stage_after(stage, collection, indexes) {
                Ok(IndexStage::Ready) => stage is Verify && keys && expiry,
                Ok(IndexStage::Verify) => stage is Inspect && keys && expiry,
                Ok(IndexStage::Create { keys: make_keys, expiry: make_expiry }) => stage is Inspect
                    && make_keys == !keys && make_expiry == !expiry && !(keys && expiry),
                Ok(IndexStage::Inspect) => false,
                Err(e) => stage is Verify && !(keys && expiry) && e is StoreSetup,
            }
        }),
{
    law_inspected(collection, indexes, indexes.len());
}

/// A collection has a name in a database exactly where the name, in hexadecimal behind its prefix,
/// and the name of the database fit the server's 235 bytes.
pub proof fn law_name_fits(database: Seq<char>, collection: Seq<char>)
    ensures
        encoded_name(database, collection) is Ok <==> encode_utf8(database).len() + 6 + 2
            * encode_utf8(collection).len() <= 235,
        encoded_name(database, collection) matches Err(e) ==> e is InvalidKey,
{
}

/// Only names that start with the prefix of this library are looked at; all others are passed over.
pub proof fn law_foreign_names_pass(database: Seq<char>, physical: Seq<char>)
    ensures
        decoded_name(database, physical) == Ok::<Option<Seq<char>>, ErrorModel>(None)
            <==> !"okv1-"@.is_prefix_of(physical),
        decoded_name(database, physical) matches Err(e) ==> e is InvalidKey,
{
}

/// The collections of this library among a database's: exactly those whose names read as one, with
/// what they read as, in the order given. A name that starts as one but does not read is an error.
pub proof fn law_owned(database: Seq<char>, names: Seq<Seq<char>>)
    ensures
        match owned(database, names) {
            Ok(pairs) => {
                &&& forall|i: int|
                    0 <= i < names.len() ==> decoded_name(database, #[trigger] names[i]) is Ok
                &&& forall|a: int|
                    0 <= a < pairs.len() ==> names.contains((#[trigger] pairs[a]).0)
                        && decoded_name(database, pairs[a].0) == Ok::<_, ErrorModel>(
                        Some(pairs[a].1),
                    )
                &&& forall|i: int|
                    0 <= i < names.len() && decoded_name(database, #[trigger] names[i])->Ok_0
                        is Some ==> pairs.contains(
                        (names[i], decoded_name(database, names[i])->Ok_0->0),
                    )
            },
            Err(e) => exists|i: int|
                0 <= i < names.len() && decoded_name(database, #[trigger] names[i]) == Err::<
                    Option<Seq<char>>,
                    _,
                >(e),
        },
    decreases names.len(),
{
    if names.len() > 0 {
        let front = names.drop_last();
        let n = names.len() - 1;
        law_owned(database, front);
        assert(forall|i: int| 0 <= i < n ==> #[trigger] names[i] == front[i]);
        assert(names[n] == names.last());
        match owned(database, front) {
            Err(e) => {
                let i = choose|i: int|
                    0 <= i < front.len() && decoded_name(database, #[trigger] front[i]) == Err::<
                        Option<Seq<char>>,
                        _,
                    >(e);
                assert(names[i] == front[i]);
            },
            Ok(before) => {
                match owned(database, names) {
                    Err(e) => {
                        assert(decoded_name(database, names[n]) == Err::<Option<Seq<char>>, _>(e));
                    },
                    Ok(pairs) => {
                        assert forall|a: int| 0 <= a < pairs.len() implies names.contains(
                            (#[trigger] pairs[a]).0,
                        ) && decoded_name(database, pairs[a].0) == Ok::<_, ErrorModel>(
                            Some(pairs[a].1),
                        ) by {
                            if a < before.len() {
                                assert(pairs[a] == before[a]);
                                let i = choose|i: int|
                                    0 <= i < front.len() && front[i] == before[a].0;
                                assert(names[i] == pairs[a].0);
                            } else {
                                assert(names[n] == pairs[a].0);
                            }
                        }
                        assert forall|i: int|
                            0 <= i < names.len() && decoded_name(
                                database,
                                #[trigger] names[i],
                            )->Ok_0 is Some implies pairs.contains(
                            (names[i], decoded_name(database, names[i])->Ok_0->0),
                        ) by {
                            let pair = (names[i], decoded_name(database, names[i])->Ok_0->0);
                            if i < n {
                                assert(front[i] == names[i]);
                                assert(before.contains(pair));
                                let a = choose|a: int| 0 <= a < before.len() && before[a] == pair;
                                assert(pairs[a] == pair);
                            } else {
                                assert(pairs[before.len() as int] == pair);
                            }
                        }
                    },
                }
            },
        }
    }
}

/// A page of collections is their logical names, from the first on, as many as fit.
pub proof fn law_logical_names(pairs: Seq<(Seq<char>, Seq<char>)>, size: nat)
    ensures
        logical_names(pairs, size).len() <= size,
        logical_names(pairs, size).len() <= pairs.len(),
        logical_names(pairs, size).len() == size || logical_names(pairs, size).len()
            == pairs.len(),
        forall|i: int|
            0 <= i < logical_names(pairs, size).len() ==> #[trigger] logical_names(pairs, size)[i]
                == pairs[i].1,
{
}

/// The documents, indexes and names of a list stand for themselves, one for each, in order.
pub proof fn law_lists(
    documents: Seq<MongoDocument>,
    indexes: Seq<MongoIndex>,
    pairs: Seq<(String, String)>,
    i: int,
)
    ensures
        documents_model(documents).len() == documents.len(),
        indexes_model(indexes).len() == indexes.len(),
        pairs_model(pairs).len() == pairs.len(),
        0 <= i < documents.len() ==> documents_model(documents)[i] == documents[i]@,
        0 <= i < indexes.len() ==> indexes_model(indexes)[i] == indexes[i]@,
        0 <= i < pairs.len() ==> pairs_model(pairs)[i] == (pairs[i].0@, pairs[i].1@),
{
}

/// An index stands for what the server says of it.
pub proof fn law_index_view(index: MongoIndex, i: int)
    ensures
        index@.keys.len() == index.keys@.len(),
        0 <= i < index.keys@.len() ==> index@.keys[i].0 == index.keys@[i].0@ && index@.keys[i].1
            == index.keys@[i].1,
        index.name matches Some(name) ==> index@.name == Some(name@),
        index.name is None ==> index@.name is None,
        index@.unique == index.unique,
        index@.expire_after == index.expire_after,
        index@.sparse == index.sparse,
        index@.hidden == index.hidden,
        index@.has_partial_filter == index.has_partial_filter,
        index@.has_collation == index.has_collation,
{
}

/// A collection that is there is inspected first; for a new one both indexes are made.
pub proof fn law_first_stage()
    ensures
        first_stage(true) is Inspect,
        first_stage(false) == (IndexStage::Create { keys: true, expiry: true }),
{
}

/// What was written under a key is read back until it expires, and from then on as expired.
pub proof fn law_written_document_read(
    read: Result<DocumentRead>,
    key: Seq<char>,
    entry: EntryModel,
    id: Seq<u8>,
    now: i64,
)
    requires
        reads_document(
            read,
            written_fields(key, entry).insert("_id"@, FieldModel::ObjectId(id)),
            key,
            now,
        ),
    ensures
        match read {
            Ok(DocumentRead::Live(e)) => e@ == entry && (entry.expires_at matches Some(t) ==> now
                < t),
            Ok(DocumentRead::Expired(s)) => s@.entry == entry && s@.key == key && s@.id == id && (
            entry.expires_at matches Some(t) && t <= now),
            Err(_) => false,
        },
{
    law_document_roundtrip(key, entry, id);
}

} // verus!
