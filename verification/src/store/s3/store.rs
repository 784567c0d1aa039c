//! How an S3 store reads listings and prepares writes.

use crate::entry::{entry_bytes, entry_for, EntryModel, ManagedEntry};
use crate::error::{Error, ErrorModel, Outcome, Result};
use crate::store::batch::{batch_fault, check_batch, distinct};
use crate::store::s3::config::S3Config;
use crate::store::s3::names::{decompose_s3_key, decomposed, key_outcome, s3_key};
use crate::text::{concat, contains_text, list_contains, occurs_in, quote, quoted, str_eq, texts};
use crate::value::Value;
use vstd::prelude::*;
#[allow(unused_imports)]
use vstd::string::*;

verus! {

/// A store in an S3 bucket: each entry is an object.
pub struct S3Store {
    config: S3Config,
}

/// How many objects one request can delete.
pub const DELETE_LIMIT: usize = 1000;

/// Whether the words of a service error say that something does not exist.
pub open spec fn says_not_found(message: Seq<char>) -> bool {
    occurs_in("NoSuchKey"@, message) || occurs_in("404"@, message) || occurs_in(
        "NotFound"@,
        message,
    )
}

/// Whether the words of a service error say that something does not exist.
pub fn is_s3_not_found(message: &str) -> (absent: bool)
    ensures
        absent == says_not_found(message@),
{
    contains_text(message, "NoSuchKey") || contains_text(message, "404") || contains_text(
        message,
        "NotFound",
    )
}

/// The error for an object of another collection.
pub open spec fn foreign(found: Seq<char>, expected: Seq<char>) -> ErrorModel {
    ErrorModel::InvalidKey(
        "S3 object key belongs to collection "@ + quoted(found) + ", expected "@ + quoted(expected),
    )
}

/// The keys of the first `n` objects, which must all belong to one collection.
pub open spec fn keys_of(collection: Seq<char>, objects: Seq<Seq<char>>, n: nat) -> Outcome<
    Seq<Seq<char>>,
>
    decreases n,
{
    if n == 0 {
        Ok(Seq::empty())
    } else {
        match keys_of(collection, objects, (n - 1) as nat) {
            Err(e) => Err(e),
            Ok(keys) => match decomposed(objects[n - 1]) {
                Err(e) => Err(e),
                Ok((c, k)) => if c != collection {
                    Err(foreign(c, collection))
                } else {
                    Ok(keys.push(k))
                },
            },
        }
    }
}

/// The collections of the first `n` objects.
pub open spec fn collections_of(objects: Seq<Seq<char>>, n: nat) -> Outcome<Seq<Seq<char>>>
    decreases n,
{
    if n == 0 {
        Ok(Seq::empty())
    } else {
        match collections_of(objects, (n - 1) as nat) {
            Err(e) => Err(e),
            Ok(names) => match decomposed(objects[n - 1]) {
                Err(e) => Err(e),
                Ok((c, _)) => Ok(names.push(c)),
            },
        }
    }
}

/// The object keys of the first `n` keys of a collection.
pub open spec fn object_keys_of(collection: Seq<char>, keys: Seq<Seq<char>>, n: nat) -> Outcome<
    Seq<Seq<char>>,
>
    decreases n,
{
    if n == 0 {
        Ok(Seq::empty())
    } else {
        match object_keys_of(collection, keys, (n - 1) as nat) {
            Err(e) => Err(e),
            Ok(objects) => match key_outcome(collection, keys[n - 1]) {
                Err(e) => Err(e),
                Ok(object_key) => Ok(objects.push(object_key)),
            },
        }
    }
}

proof fn lemma_object_keys_prefix(collection: Seq<char>, keys: Seq<Seq<char>>, k: nat, n: nat)
    requires
        k <= n,
        object_keys_of(collection, keys, k) is Err,
    ensures
        object_keys_of(collection, keys, n) == object_keys_of(collection, keys, k),
    decreases n,
{
    if k < n {
        lemma_object_keys_prefix(collection, keys, k, (n - 1) as nat);
    }
}

/// The writes of a batch: for each key its object key and its entry.
pub open spec fn writes_of(
    collection: Seq<char>,
    keys: Seq<Seq<char>>,
    entries: Seq<EntryModel>,
    n: nat,
) -> Outcome<Seq<(Seq<char>, Seq<u8>)>>
    decreases n,
{
    if n == 0 {
        Ok(Seq::empty())
    } else {
        match writes_of(collection, keys, entries, (n - 1) as nat) {
            Err(e) => Err(e),
            Ok(writes) => match key_outcome(collection, keys[n - 1]) {
                Err(e) => Err(e),
                Ok(object_key) => Ok(writes.push((object_key, entry_bytes(entries[n - 1])))),
            },
        }
    }
}

/// An object that could not be deleted, as far as the service describes it.
pub struct DeleteFailure {
    pub key: Option<String>,
    pub code: Option<String>,
    pub message: Option<String>,
}

/// A description, or a stand-in for a missing one.
pub open spec fn known(text: Option<String>) -> Seq<char> {
    match text {
        Some(t) => t@,
        None => "<unknown>"@,
    }
}

/// One failure in words.
pub open spec fn failure_text(failure: DeleteFailure) -> Seq<char> {
    "key="@ + known(failure.key) + " code="@ + known(failure.code) + " message="@ + known(
        failure.message,
    )
}

/// The first `n` failures in words.
pub open spec fn failures_text(failures: Seq<DeleteFailure>, n: nat) -> Seq<char>
    decreases n,
{
    if n == 0 {
        Seq::empty()
    } else if n == 1 {
        failure_text(failures[0])
    } else {
        failures_text(failures, (n - 1) as nat) + ", "@ + failure_text(failures[n - 1])
    }
}

fn or_unknown(text: &Option<String>) -> (known_text: &str)
    ensures
        known_text@ == known(*text),
{
    match text {
        Some(t) => t.as_str(),
        None => "<unknown>",
    }
}

/// Judges the reply to a batch delete.
pub fn judge_batch_delete(failures: &Vec<DeleteFailure>) -> (result: Result<()>)
    ensures
        match result {
            Ok(_) => failures@.len() == 0,
            Err(e) => failures@.len() > 0 && e@ == (ErrorModel::StoreConnection {
                message: "S3 batch delete failed: "@ + failures_text(failures@, failures@.len()),
            }),
        },
{
    if failures.len() == 0 {
        return Ok(());
    }
    let mut details = String::new();
    let mut i: usize = 0;
    while i < failures.len()
        invariant
            i <= failures@.len(),
            details@ == failures_text(failures@, i as nat),
        decreases failures@.len() - i,
    {
        let failure = &failures[i];
        let mut text = concat("key=", or_unknown(&failure.key));
        text.append(" code=");
        text.append(or_unknown(&failure.code));
        text.append(" message=");
        text.append(or_unknown(&failure.message));
        proof {
            if i == 0 {
                assert(details@ + text@ =~= text@);
            }
        }
        if i > 0 {
            details.append(", ");
        }
        details.append(text.as_str());
        i += 1;
    }
    Err(Error::StoreConnection { message: concat("S3 batch delete failed: ", details.as_str()) })
}

proof fn lemma_keys_prefix(collection: Seq<char>, objects: Seq<Seq<char>>, k: nat, n: nat)
    requires
        k <= n,
        keys_of(collection, objects, k) is Err,
    ensures
        keys_of(collection, objects, n) == keys_of(collection, objects, k),
    decreases n - k,
{
    if k < n {
        lemma_keys_prefix(collection, objects, k, (n - 1) as nat);
    }
}

proof fn lemma_collections_prefix(objects: Seq<Seq<char>>, k: nat, n: nat)
    requires
        k <= n,
        collections_of(objects, k) is Err,
    ensures
        collections_of(objects, n) == collections_of(objects, k),
    decreases n - k,
{
    if k < n {
        lemma_collections_prefix(objects, k, (n - 1) as nat);
    }
}

proof fn lemma_writes_prefix(
    collection: Seq<char>,
    keys: Seq<Seq<char>>,
    entries: Seq<EntryModel>,
    k: nat,
    n: nat,
)
    requires
        k <= n,
        writes_of(collection, keys, entries, k) is Err,
    ensures
        writes_of(collection, keys, entries, n) == writes_of(collection, keys, entries, k),
    decreases n - k,
{
    if k < n {
        lemma_writes_prefix(collection, keys, entries, k, (n - 1) as nat);
    }
}

/// The models of object keys and bodies.
pub open spec fn writes_model(writes: Seq<(String, Vec<u8>)>) -> Seq<(Seq<char>, Seq<u8>)> {
    writes.map_values(|w: (String, Vec<u8>)| (w.0@, w.1@))
}

impl S3Store {
    /// The collection that is used where none is named.
    pub closed spec fn default_collection(&self) -> Seq<char> {
        self.config.default_collection@
    }

    /// The bucket.
    pub closed spec fn bucket(&self) -> Seq<char> {
        self.config.bucket_name@
    }

    pub fn with_config(config: S3Config) -> (store: Self)
        ensures
            store.default_collection() == config.default_collection@,
            store.bucket() == config.bucket_name@,
    {
        S3Store { config }
    }

    pub fn bucket_name(&self) -> (name: &str)
        ensures
            name@ == self.bucket(),
    {
        self.config.bucket_name.as_str()
    }

    /// The collection that an optional name stands for.
    pub fn collection_name<'a>(&'a self, collection: Option<&'a str>) -> (name: &'a str)
        ensures
            name@ == match collection {
                Some(n) => n@,
                None => self.default_collection(),
            },
    {
        match collection {
            Some(name) => name,
            None => self.config.default_collection.as_str(),
        }
    }

    /// The keys of the objects of a page, which must all belong to one collection.
    pub fn page_keys(collection: &str, objects: &Vec<String>) -> (keys: Result<Vec<String>>)
        ensures
            match keys {
                Ok(k) => keys_of(collection@, texts(objects@), objects@.len()) == Ok::<
                    _,
                    ErrorModel,
                >(texts(k@)),
                Err(e) => keys_of(collection@, texts(objects@), objects@.len()) == Err::<
                    Seq<Seq<char>>,
                    _,
                >(e@),
            },
    {
        let ghost all = texts(objects@);
        let mut keys: Vec<String> = Vec::new();
        let mut i: usize = 0;
        proof {
            assert(texts(keys@) =~= Seq::empty());
        }
        while i < objects.len()
            invariant
                i <= objects@.len(),
                all == texts(objects@),
                keys_of(collection@, all, i as nat) == Ok::<_, ErrorModel>(texts(keys@)),
            decreases objects@.len() - i,
        {
            let ghost before = keys@;
            proof {
                assert(all[i as int] == objects@[i as int]@);
                if keys_of(collection@, all, (i + 1) as nat) is Err {
                    lemma_keys_prefix(collection@, all, (i + 1) as nat, all.len());
                }
            }
            let (found, key) = decompose_s3_key(objects[i].as_str())?;
            if !str_eq(found.as_str(), collection) {
                let mut message = concat(
                    "S3 object key belongs to collection ",
                    quote(found.as_str()).as_str(),
                );
                message.append(", expected ");
                message.append(quote(collection).as_str());
                return Err(Error::InvalidKey(message));
            }
            let ghost k = key@;
            keys.push(key);
            proof {
                assert(texts(keys@) =~= texts(before).push(k));
            }
            i += 1;
        }
        Ok(keys)
    }

    /// Adds the collections of a page of objects to the names found so far, each once.
    pub fn page_collections(known: Vec<String>, objects: &Vec<String>) -> (names: Result<
        Vec<String>,
    >)
        ensures
            ({
                let found = collections_of(texts(objects@), objects@.len());
                match names {
                    Ok(n) => found is Ok && texts(n@) == extended(texts(known@), found->Ok_0),
                    Err(e) => found == Err::<Seq<Seq<char>>, _>(e@),
                }
            }),
    {
        let ghost start = texts(known@);
        let mut names = known;
        let ghost all = texts(objects@);
        let ghost mut found: Seq<Seq<char>> = Seq::empty();
        let mut i: usize = 0;
        while i < objects.len()
            invariant
                i <= objects@.len(),
                all == texts(objects@),
                collections_of(all, i as nat) == Ok::<_, ErrorModel>(found),
                texts(names@) == extended(start, found),
            decreases objects@.len() - i,
        {
            let ghost before = names@;
            proof {
                assert(all[i as int] == objects@[i as int]@);
                if collections_of(all, (i + 1) as nat) is Err {
                    lemma_collections_prefix(all, (i + 1) as nat, all.len());
                }
            }
            let (name, _) = decompose_s3_key(objects[i].as_str())?;
            let ghost c = name@;
            if !list_contains(&names, name.as_str()) {
                names.push(name);
                proof {
                    assert(texts(names@) =~= texts(before).push(c));
                }
            }
            proof {
                let earlier = found;
                found = found.push(c);
                assert(found.drop_last() =~= earlier);
            }
            i += 1;
        }
        Ok(names)
    }

    /// Whether the next page of a listing is asked for.
    pub fn wants_next_page(truncated: Option<bool>, found: usize, limit: usize) -> (more: bool)
        ensures
            more == (truncated == Some(true) && found < limit),
    {
        match truncated {
            Some(more) => more && found < limit,
            None => false,
        }
    }

    /// The object keys of some keys of a collection: all are checked before any is used.
    pub fn object_keys(&self, keys: &Vec<String>, collection: Option<&str>) -> (objects: Result<
        Vec<String>,
    >)
        ensures
            ({
                let name = match collection {
                    Some(n) => n@,
                    None => self.default_collection(),
                };
                let outcome = object_keys_of(name, texts(keys@), keys@.len());
                match objects {
                    Ok(o) => outcome == Ok::<_, ErrorModel>(texts(o@)) && o@.len() == keys@.len(),
                    Err(e) => outcome == Err::<Seq<Seq<char>>, _>(e@),
                }
            }),
    {
        let name = self.collection_name(collection);
        let ghost all = texts(keys@);
        let mut objects: Vec<String> = Vec::new();
        let mut i: usize = 0;
        assert(texts(objects@) =~= Seq::empty());
        while i < keys.len()
            invariant
                i <= keys@.len(),
                objects@.len() == i,
                name@ == match collection {
                    Some(n) => n@,
                    None => self.default_collection(),
                },
                all == texts(keys@),
                object_keys_of(name@, all, i as nat) == Ok::<_, ErrorModel>(texts(objects@)),
            decreases keys@.len() - i,
        {
            let ghost before = objects@;
            proof {
                assert(all[i as int] == keys@[i as int]@);
                if object_keys_of(name@, all, (i + 1) as nat) is Err {
                    lemma_object_keys_prefix(name@, all, (i + 1) as nat, all.len());
                }
            }
            let object_key = s3_key(name, keys[i].as_str())?;
            let ghost text = object_key@;
            objects.push(object_key);
            assert(texts(objects@) =~= texts(before).push(text));
            i += 1;
        }
        Ok(objects)
    }

    /// Prepares the writes of a batch: all checks come before the first write.
    pub fn prepare_put_many(
        &self,
        keys: &Vec<String>,
        values: &Vec<Value>,
        collection: Option<&str>,
        ttl: Option<i64>,
        now: i64,
    ) -> (writes: Result<Vec<(String, Vec<u8>)>>)
        ensures
            ({
                let name = match collection {
                    Some(n) => n@,
                    None => self.default_collection(),
                };
                let fault = batch_fault(keys@.len(), values@.len(), ttl, now);
                let outcome = writes_of(
                    name,
                    texts(keys@),
                    values@.map_values(|v: Value| entry_for(v@, ttl, now)->Ok_0),
                    keys@.len(),
                );
                match writes {
                    Ok(w) => fault is None && outcome == Ok::<_, ErrorModel>(writes_model(w@)),
                    Err(e) => if fault is Some {
                        fault == Some(e@)
                    } else {
                        outcome == Err::<Seq<(Seq<char>, Seq<u8>)>, _>(e@)
                    },
                }
            }),
    {
        check_batch(keys, values, ttl, now)?;
        let name = self.collection_name(collection);
        let ghost all = texts(keys@);
        let ghost entries = values@.map_values(|v: Value| entry_for(v@, ttl, now)->Ok_0);
        let mut writes: Vec<(String, Vec<u8>)> = Vec::new();
        let mut i: usize = 0;
        proof {
            assert(writes_model(writes@) =~= Seq::empty());
        }
        while i < keys.len()
            invariant
                i <= keys@.len(),
                keys@.len() == values@.len(),
                batch_fault(keys@.len(), values@.len(), ttl, now) is None,
                name@ == match collection {
                    Some(n) => n@,
                    None => self.default_collection(),
                },
                all == texts(keys@),
                entries == values@.map_values(|v: Value| entry_for(v@, ttl, now)->Ok_0),
                writes_of(name@, all, entries, i as nat) == Ok::<_, ErrorModel>(
                    writes_model(writes@),
                ),
            decreases keys@.len() - i,
        {
            let ghost before = writes@;
            proof {
                assert(all[i as int] == keys@[i as int]@);
                assert(entries[i as int] == entry_for(values@[i as int]@, ttl, now)->Ok_0);
                if writes_of(name@, all, entries, (i + 1) as nat) is Err {
                    lemma_writes_prefix(name@, all, entries, (i + 1) as nat, all.len());
                }
            }
            let entry = ManagedEntry::with_optional_ttl(values[i].clone(), ttl, now)?;
            let object_key = s3_key(name, keys[i].as_str())?;
            let body = entry.encode();
            let ghost write = (object_key@, body@);
            writes.push((object_key, body));
            proof {
                assert(writes_model(writes@) =~= writes_model(before).push(write));
            }
            i += 1;
        }
        Ok(writes)
    }
}

/// Names with further names, each added where it is not there yet.
pub open spec fn extended(names: Seq<Seq<char>>, more: Seq<Seq<char>>) -> Seq<Seq<char>>
    decreases more.len(),
{
    if more.len() == 0 {
        names
    } else {
        let front = extended(names, more.drop_last());
        if front.contains(more.last()) {
            front
        } else {
            front.push(more.last())
        }
    }
}

/// Names found page by page are the distinct names of all pages together.
pub proof fn law_pages_together(seen: Seq<Seq<char>>, more: Seq<Seq<char>>)
    ensures
        extended(distinct(seen), more) == distinct(seen + more),
    decreases more.len(),
{
    if more.len() == 0 {
        assert(seen + more =~= seen);
    } else {
        law_pages_together(seen, more.drop_last());
        assert((seen + more).drop_last() =~= seen + more.drop_last());
    }
}

} // verus!
