//! What an OpenSearch store asks for and how its replies are judged.

use crate::entry::{entry_bytes, EntryModel, ManagedEntry};
use crate::error::{Error, ErrorModel, Outcome, Result};
use crate::encoding::encodable;
use crate::store::batch::{batch_fault, distinct, distinct_keys};
use crate::store::opensearch::config::OpenSearchConfig;
use crate::store::opensearch::document::{entry_to_doc, DocModel, OpenSearchDoc};
use crate::store::opensearch::names::{
    decode_index_name, decoded_index, encode_document_id, encode_index_name, encoded_id,
    encoded_index, index_pattern, prefix_fault,
};
use crate::store::opensearch::reply::{show_names, shown_names};
use crate::text::{bool_str, bool_text, concat, decimal, decimal_string, texts};
use crate::value::Value;
use vstd::prelude::*;
#[allow(unused_imports)]
use vstd::string::*;

verus! {

/// A store in OpenSearch.
///
/// Each collection is an index, each key a document id; both names can be read back.
pub struct OpenSearchStore {
    config: OpenSearchConfig,
}

/// The ids of the first `n` keys.
pub open spec fn encoded_ids(keys: Seq<Seq<char>>, n: nat) -> Outcome<Seq<Seq<char>>>
    decreases n,
{
    if n == 0 {
        Ok(Seq::empty())
    } else {
        match encoded_ids(keys, (n - 1) as nat) {
            Err(e) => Err(e),
            Ok(ids) => match encoded_id(keys[n - 1]) {
                Err(e) => Err(e),
                Ok(id) => Ok(ids.push(id)),
            },
        }
    }
}

proof fn lemma_encoded_prefix(keys: Seq<Seq<char>>, k: nat, n: nat)
    requires
        k <= n,
        encoded_ids(keys, k) is Err,
    ensures
        encoded_ids(keys, n) == encoded_ids(keys, k),
    decreases n - k,
{
    if k < n {
        lemma_encoded_prefix(keys, k, (n - 1) as nat);
    }
}

/// The indices of this store among the given ones, with their collections.
pub open spec fn owned(prefix: Seq<char>, indices: Seq<Seq<char>>, n: nat) -> Outcome<
    Seq<(Seq<char>, Seq<char>)>,
>
    decreases n,
{
    if n == 0 {
        Ok(Seq::empty())
    } else {
        match owned(prefix, indices, (n - 1) as nat) {
            Err(e) => Err(e),
            Ok(pairs) => match decoded_index(prefix, indices[n - 1]) {
                Err(e) => Err(e),
                Ok(collection) => Ok(pairs.push((indices[n - 1], collection))),
            },
        }
    }
}

proof fn lemma_owned_prefix(prefix: Seq<char>, indices: Seq<Seq<char>>, k: nat, n: nat)
    requires
        k <= n,
        owned(prefix, indices, k) is Err,
    ensures
        owned(prefix, indices, n) == owned(prefix, indices, k),
    decreases n - k,
{
    if k < n {
        lemma_owned_prefix(prefix, indices, k, (n - 1) as nat);
    }
}

/// What a delete-by-query did.
#[derive(Debug, Clone, Copy, PartialEq, Eq, Structural)]
pub struct CullReply {
    pub timed_out: bool,
    pub total: u64,
    pub deleted: u64,
    pub version_conflicts: u64,
    pub noops: u64,
    pub failures: usize,
}

impl CullReply {
    /// Whether everything that was found was deleted.
    pub open spec fn complete(self) -> bool {
        &&& !self.timed_out
        &&& self.version_conflicts == 0
        &&& self.noops == 0
        &&& self.failures == 0
        &&& self.deleted == self.total
    }
}

/// Why a cull is not acceptable, if it is not.
pub open spec fn cull_fault(indices: Seq<Seq<char>>, reply: CullReply) -> Option<ErrorModel> {
    if reply.complete() {
        None
    } else {
        Some(
            ErrorModel::StoreConnection {
                message: "OpenSearch cull for exact indices "@ + shown_names(indices)
                    + " was incomplete: timed_out="@ + bool_text(reply.timed_out) + ", total="@
                    + decimal(reply.total as nat) + ", deleted="@ + decimal(reply.deleted as nat)
                    + ", version_conflicts="@ + decimal(reply.version_conflicts as nat)
                    + ", noops="@ + decimal(reply.noops as nat) + ", failures="@ + decimal(
                    reply.failures as nat,
                ),
            },
        )
    }
}

/// The collection that an optional name stands for.
pub open spec fn collection_of(default: Seq<char>, collection: Option<&str>) -> Seq<char> {
    match collection {
        Some(name) => name@,
        None => default,
    }
}

/// Where an id last occurs; -1 where it does not.
pub open spec fn last_of(ids: Seq<Seq<char>>, id: Seq<char>) -> int
    decreases ids.len(),
{
    if ids.len() == 0 {
        -1
    } else if ids.last() == id {
        ids.len() - 1
    } else {
        last_of(ids.drop_last(), id)
    }
}

/// The documents of a batch write: each id once, in the order of first occurrence, with the
/// last entry given for it.
pub open spec fn batch_documents(ids: Seq<Seq<char>>, entries: Seq<EntryModel>) -> Seq<
    (Seq<char>, EntryModel),
> {
    distinct(ids).map_values(|id: Seq<char>| (id, entries[last_of(ids, id)]))
}

proof fn lemma_last_of(ids: Seq<Seq<char>>, id: Seq<char>)
    ensures
        ids.contains(id) ==> 0 <= last_of(ids, id) < ids.len() && ids[last_of(ids, id)] == id,
        -1 <= last_of(ids, id) < ids.len(),
    decreases ids.len(),
{
    if ids.len() > 0 {
        let front = ids.drop_last();
        lemma_last_of(front, id);
        if ids.contains(id) && ids.last() != id {
            let i = choose|i: int| 0 <= i < ids.len() && ids[i] == id;
            assert(front[i] == id);
            assert(front.contains(id));
        }
    }
}

/// Whether the entry of a value can be held as text.
pub open spec fn storable(value: Value) -> bool {
    encodable(value@.bytes.len() + 24)
}

proof fn lemma_entry_size(entry: EntryModel)
    ensures
        entry_bytes(entry).len() <= entry.value.bytes.len() + 24,
{
    if let Some(t) = entry.created_at {
        crate::bytes::lemma_le_bytes_len(crate::bytes::signed_bits(t), 8);
    }
    if let Some(t) = entry.expires_at {
        crate::bytes::lemma_le_bytes_len(crate::bytes::signed_bits(t), 8);
    }
}

/// Whether documents are the written form of entries under their ids.
pub open spec fn documents_hold(
    documents: Seq<(String, OpenSearchDoc)>,
    wanted: Seq<(Seq<char>, EntryModel)>,
) -> bool {
    &&& documents.len() == wanted.len()
    &&& forall|i: int|
        0 <= i < wanted.len() ==> {
            &&& (#[trigger] documents[i]).0@ == wanted[i].0
            &&& documents[i].1@ == (DocModel {
                entry: crate::encoding::base64(entry_bytes(wanted[i].1)),
                expires_at: wanted[i].1.expires_at,
            })
        }
}

impl OpenSearchStore {
    /// What the store's indices start with.
    pub closed spec fn prefix(&self) -> Seq<char> {
        self.config.index_prefix@
    }

    /// The collection that is used where none is named.
    pub closed spec fn default_collection(&self) -> Seq<char> {
        self.config.default_collection@
    }

    pub fn new(index_prefix: &str) -> (store: Self)
        ensures
            store.prefix() == index_prefix@,
            store.default_collection() == "default_collection"@,
    {
        OpenSearchStore::with_config(OpenSearchConfig::new(index_prefix))
    }

    pub fn with_config(config: OpenSearchConfig) -> (store: Self)
        ensures
            store.prefix() == config.index_prefix@,
            store.default_collection() == config.default_collection@,
    {
        OpenSearchStore { config }
    }

    /// The collection that an optional name stands for.
    pub fn collection_name<'a>(&'a self, collection: Option<&'a str>) -> (name: &'a str)
        ensures
            name@ == collection_of(self.default_collection(), collection),
    {
        match collection {
            Some(name) => name,
            None => self.config.default_collection.as_str(),
        }
    }

    /// The index of a collection.
    pub fn index_name(&self, collection: &str) -> (index: Result<String>)
        ensures
            match index {
                Ok(i) => encoded_index(self.prefix(), collection@) == Ok::<_, ErrorModel>(i@),
                Err(e) => encoded_index(self.prefix(), collection@) == Err::<Seq<char>, _>(e@),
            },
    {
        encode_index_name(self.config.index_prefix.as_str(), collection)
    }

    /// The pattern that matches every index of the store.
    pub fn index_pattern(&self) -> (pattern: Result<String>)
        ensures
            match pattern {
                Ok(p) => prefix_fault(self.prefix()) is None && p@ == self.prefix() + "-*"@,
                Err(e) => prefix_fault(self.prefix()) == Some(e@),
            },
    {
        index_pattern(self.config.index_prefix.as_str())
    }

    /// The collections of the indices that the server listed for the store's pattern.
    pub fn owned_indices(&self, indices: &Vec<String>) -> (pairs: Result<Vec<(String, String)>>)
        ensures
            match pairs {
                Ok(p) => owned(self.prefix(), texts(indices@), indices@.len()) == Ok::<
                    _,
                    ErrorModel,
                >(crate::store::mongodb::names::pairs_model(p@)),
                Err(e) => owned(self.prefix(), texts(indices@), indices@.len()) == Err::<
                    Seq<(Seq<char>, Seq<char>)>,
                    _,
                >(e@),
            },
    {
        let ghost all = texts(indices@);
        let mut pairs: Vec<(String, String)> = Vec::new();
        let mut i: usize = 0;
        proof {
            assert(crate::store::mongodb::names::pairs_model(pairs@) =~= Seq::empty());
        }
        while i < indices.len()
            invariant
                i <= indices@.len(),
                all == texts(indices@),
                owned(self.prefix(), all, i as nat) == Ok::<_, ErrorModel>(
                    crate::store::mongodb::names::pairs_model(pairs@),
                ),
            decreases indices@.len() - i,
        {
            let ghost before = pairs@;
            proof {
                assert(all[i as int] == indices@[i as int]@);
                if owned(self.prefix(), all, (i + 1) as nat) is Err {
                    lemma_owned_prefix(self.prefix(), all, (i + 1) as nat, all.len());
                }
            }
            let collection = decode_index_name(
                self.config.index_prefix.as_str(),
                indices[i].as_str(),
            )?;
            let ghost name = collection@;
            pairs.push((indices[i].clone(), collection));
            proof {
                assert(crate::store::mongodb::names::pairs_model(pairs@)
                    =~= crate::store::mongodb::names::pairs_model(before).push(
                    (all[i as int], name),
                ));
            }
            i += 1;
        }
        Ok(pairs)
    }

    /// The document ids of keys.
    pub fn document_ids(keys: &Vec<String>) -> (ids: Result<Vec<String>>)
        ensures
            match ids {
                Ok(i) => encoded_ids(texts(keys@), keys@.len()) == Ok::<_, ErrorModel>(texts(i@))
                    && i@.len() == keys@.len(),
                Err(e) => encoded_ids(texts(keys@), keys@.len()) == Err::<Seq<Seq<char>>, _>(e@),
            },
    {
        let ghost all = texts(keys@);
        let mut ids: Vec<String> = Vec::new();
        let mut i: usize = 0;
        proof {
            assert(texts(ids@) =~= Seq::empty());
        }
        while i < keys.len()
            invariant
                i <= keys@.len(),
                ids@.len() == i,
                all == texts(keys@),
                encoded_ids(all, i as nat) == Ok::<_, ErrorModel>(texts(ids@)),
            decreases keys@.len() - i,
        {
            let ghost before = ids@;
            proof {
                assert(all[i as int] == keys@[i as int]@);
                if encoded_ids(all, (i + 1) as nat) is Err {
                    lemma_encoded_prefix(all, (i + 1) as nat, all.len());
                }
            }
            let id = encode_document_id(keys[i].as_str())?;
            let ghost text = id@;
            ids.push(id);
            proof {
                assert(texts(ids@) =~= texts(before).push(text));
            }
            i += 1;
        }
        Ok(ids)
    }

    /// The documents of a batch write.
    fn documents(ids: &Vec<String>, entries: &Vec<ManagedEntry>) -> (documents: Vec<
        (String, OpenSearchDoc),
    >)
        requires
            ids@.len() == entries@.len(),
            forall|i: int|
                0 <= i < entries@.len() ==> encodable(
                    (#[trigger] entries@[i])@.value.bytes.len() + 24,
                ),
        ensures
            documents_hold(
                documents@,
                batch_documents(texts(ids@), entries@.map_values(|e: ManagedEntry| e@)),
            ),
    {
        let ghost all = texts(ids@);
        let ghost models = entries@.map_values(|e: ManagedEntry| e@);
        let mut last: crate::ordered::KeyMap<usize> = crate::ordered::KeyMap::new();
        let mut i: usize = 0;
        proof {
            assert(all.take(0) =~= Seq::empty());
        }
        while i < ids.len()
            invariant
                i <= ids@.len(),
                all == texts(ids@),
                last.wf(),
                forall|k: Seq<char>| #[trigger]
                    last@.dom().contains(k) ==> last@[k] == last_of(all.take(i as int), k),
                forall|j: int| 0 <= j < i ==> last@.dom().contains(#[trigger] all[j]),
            decreases ids@.len() - i,
        {
            let ghost known = last@;
            let _ = last.insert(ids[i].clone(), i);
            proof {
                assert(all[i as int] == ids@[i as int]@);
                assert(all.take(i + 1).drop_last() =~= all.take(i as int));
                assert(all.take(i + 1).last() == all[i as int]);
                assert forall|k: Seq<char>| #[trigger] last@.dom().contains(k) implies last@[k]
                    == last_of(all.take(i + 1), k) by {
                    if k != all[i as int] {
                        assert(known.dom().contains(k));
                    }
                }
                assert forall|j: int| 0 <= j < i + 1 implies last@.dom().contains(
                    #[trigger] all[j],
                ) by {
                    if j < i {
                        assert(known.dom().contains(all[j]));
                    }
                }
            }
            i += 1;
        }
        proof {
            assert(all.take(i as int) =~= all);
            crate::store::batch::law_distinct(all);
        }
        let unique = distinct_keys(ids);
        let ghost wanted = batch_documents(all, models);
        let mut documents: Vec<(String, OpenSearchDoc)> = Vec::new();
        let mut n: usize = 0;
        while n < unique.len()
            invariant
                n <= unique@.len(),
                ids@.len() == entries@.len(),
                all == texts(ids@),
                models == entries@.map_values(|e: ManagedEntry| e@),
                texts(unique@) == distinct(all),
                forall|k: Seq<char>| #[trigger] distinct(all).contains(k) <==> all.contains(k),
                wanted == batch_documents(all, models),
                wanted.len() == unique@.len(),
                last.wf(),
                forall|k: Seq<char>| #[trigger]
                    last@.dom().contains(k) ==> last@[k] == last_of(all, k),
                forall|j: int| 0 <= j < all.len() ==> last@.dom().contains(#[trigger] all[j]),
                forall|i: int|
                    0 <= i < entries@.len() ==> encodable(
                        (#[trigger] entries@[i])@.value.bytes.len() + 24,
                    ),
                documents_hold(documents@, wanted.take(n as int)),
            decreases unique@.len() - n,
        {
            let ghost id = unique@[n as int]@;
            proof {
                assert(texts(unique@)[n as int] == id);
                assert(distinct(all).contains(id));
                let j = choose|j: int| 0 <= j < all.len() && all[j] == id;
                assert(last@.dom().contains(all[j]));
                lemma_last_of(all, id);
            }
            match last.get(unique[n].as_str()) {
                Some(at) => {
                    proof {
                        lemma_entry_size(entries@[*at as int]@);
                        assert(encodable(entries@[*at as int]@.value.bytes.len() + 24));
                        assert(models[*at as int] == entries@[*at as int]@);
                    }
                    let document = entry_to_doc(&entries[*at]);
                    let ghost so_far = documents@;
                    let ghost doc = document@;
                    documents.push((unique[n].clone(), document));
                    proof {
                        assert(wanted[n as int] == (id, models[*at as int]));
                        assert forall|i: int| 0 <= i < n + 1 implies {
                            &&& (#[trigger] documents@[i]).0@ == wanted.take(n + 1)[i].0
                            &&& documents@[i].1@ == (DocModel {
                                entry: crate::encoding::base64(
                                    entry_bytes(wanted.take(n + 1)[i].1),
                                ),
                                expires_at: wanted.take(n + 1)[i].1.expires_at,
                            })
                        } by {
                            if i < n {
                                assert(documents@[i] == so_far[i]);
                                assert(wanted.take(n as int)[i] == wanted[i]);
                            }
                        }
                    }
                },
                None => {},
            }
            n += 1;
        }
        assert(wanted.take(n as int) =~= wanted);
        documents
    }

    /// Prepares a batch write: the index, and the documents for it.
    pub fn prepare_put_many(
        &self,
        keys: &Vec<String>,
        values: &Vec<Value>,
        collection: Option<&str>,
        ttl: Option<i64>,
        now: i64,
    ) -> (prepared: Result<(String, Vec<(String, OpenSearchDoc)>)>)
        requires
            forall|i: int| 0 <= i < values@.len() ==> storable(#[trigger] values@[i]),
        ensures
            ({
                let name = collection_of(self.default_collection(), collection);
                let index = encoded_index(self.prefix(), name);
                let ids = encoded_ids(texts(keys@), keys@.len());
                let late = batch_fault(keys@.len(), values@.len(), ttl, now);
                match prepared {
                    Ok((i, documents)) => {
                        &&& late is None
                        &&& index == Ok::<_, ErrorModel>(i@)
                        &&& ids is Ok
                        &&& documents_hold(
                            documents@,
                            batch_documents(
                                ids->Ok_0,
                                values@.map_values(
                                    |v: Value| crate::entry::entry_for(v@, ttl, now)->Ok_0,
                                ),
                            ),
                        )
                    },
                    Err(e) => if keys@.len() != values@.len() {
                        late == Some(e@)
                    } else if index is Err {
                        index == Err::<Seq<char>, _>(e@)
                    } else if ids is Err {
                        ids == Err::<Seq<Seq<char>>, _>(e@)
                    } else {
                        late == Some(e@)
                    },
                }
            }),
    {
        if keys.len() != values.len() {
            return Err(Error::BatchSizeMismatch { keys: keys.len(), values: values.len() });
        }
        let index = self.index_name(self.collection_name(collection))?;
        let ids = OpenSearchStore::document_ids(keys)?;
        if let Some(t) = ttl {
            ManagedEntry::validate_ttl(t, now)?;
        }
        let ghost wanted = values@.map_values(
            |v: Value| crate::entry::entry_for(v@, ttl, now)->Ok_0,
        );
        let mut entries: Vec<ManagedEntry> = Vec::new();
        let mut i: usize = 0;
        while i < values.len()
            invariant
                i <= values@.len(),
                entries@.len() == i,
                batch_fault(values@.len(), values@.len(), ttl, now) is None,
                forall|i: int| 0 <= i < values@.len() ==> storable(#[trigger] values@[i]),
                wanted == values@.map_values(
                    |v: Value| crate::entry::entry_for(v@, ttl, now)->Ok_0,
                ),
                forall|j: int| 0 <= j < i ==> (#[trigger] entries@[j])@ == wanted[j],
                forall|j: int|
                    0 <= j < i ==> encodable((#[trigger] entries@[j])@.value.bytes.len() + 24),
            decreases values@.len() - i,
        {
            let entry = ManagedEntry::with_optional_ttl(values[i].clone(), ttl, now)?;
            proof {
                assert(storable(values@[i as int]));
            }
            entries.push(entry);
            i += 1;
        }
        let documents = OpenSearchStore::documents(&ids, &entries);
        proof {
            assert(entries@.map_values(|e: ManagedEntry| e@) =~= wanted);
        }
        Ok((index, documents))
    }

    /// Judges the reply to the deletion of everything that has expired.
    pub fn judge_cull(indices: &Vec<String>, reply: CullReply) -> (result: Result<()>)
        ensures
            match result {
                Ok(_) => cull_fault(texts(indices@), reply) is None,
                Err(e) => cull_fault(texts(indices@), reply) == Some(e@),
            },
    {
        if !reply.timed_out && reply.version_conflicts == 0 && reply.noops == 0 && reply.failures
            == 0 && reply.deleted == reply.total {
            return Ok(());
        }
        let mut message = concat(
            "OpenSearch cull for exact indices ",
            show_names(indices).as_str(),
        );
        message.append(" was incomplete: timed_out=");
        message.append(bool_str(reply.timed_out));
        message.append(", total=");
        message.append(decimal_string(reply.total).as_str());
        message.append(", deleted=");
        message.append(decimal_string(reply.deleted).as_str());
        message.append(", version_conflicts=");
        message.append(decimal_string(reply.version_conflicts).as_str());
        message.append(", noops=");
        message.append(decimal_string(reply.noops).as_str());
        message.append(", failures=");
        message.append(decimal_string(reply.failures as u64).as_str());
        Err(Error::StoreConnection { message })
    }

    /// Judges the reply to the destruction of a collection.
    pub fn judge_collection_destroyed(index: &str, acknowledged: bool) -> (result: Result<()>)
        ensures
            match result {
                Ok(_) => acknowledged,
                Err(e) => !acknowledged && e@ == (ErrorModel::StoreConnection {
                    message: "OpenSearch did not acknowledge collection destruction for "@
                        + index@,
                }),
            },
    {
        if acknowledged {
            Ok(())
        } else {
            Err(
                Error::StoreConnection {
                    message: concat(
                        "OpenSearch did not acknowledge collection destruction for ",
                        index,
                    ),
                },
            )
        }
    }

    /// Judges the reply to the destruction of the whole store.
    pub fn judge_destroyed(indices: &Vec<String>, acknowledged: bool) -> (result: Result<()>)
        ensures
            match result {
                Ok(_) => acknowledged,
                Err(e) => !acknowledged && e@ == (ErrorModel::StoreConnection {
                    message: "OpenSearch did not acknowledge destruction for exact indices "@
                        + shown_names(texts(indices@)),
                }),
            },
    {
        if acknowledged {
            Ok(())
        } else {
            Err(
                Error::StoreConnection {
                    message: concat(
                        "OpenSearch did not acknowledge destruction for exact indices ",
                        show_names(indices).as_str(),
                    ),
                },
            )
        }
    }
}

} // verus!
