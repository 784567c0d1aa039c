//! Walks through the keys of a database: a collection, a colon and a key.

use crate::error::{Error, ErrorModel, Outcome, Result};
use crate::ordered::{sorted_keys, KeySet};
use crate::store::rocksdb::store::RocksDBStore;
use crate::text::{
    concat, first_index, lemma_first_index_is, split_once, strip_prefix, texts, utf8_error_text,
    utf8_string, COLON,
};
use vstd::prelude::*;
#[allow(unused_imports)]
use vstd::string::*;
use vstd::utf8::{decode_utf8, encode_utf8, encode_utf8_decode_utf8, valid_utf8};

verus! {

/// What every key of a collection starts with.
pub open spec fn prefix_of(collection: Seq<char>) -> Seq<char> {
    collection.push(':')
}

/// The key in the database for a key of a collection.
pub open spec fn physical(collection: Seq<char>, key: Seq<char>) -> Seq<char> {
    prefix_of(collection) + key
}

/// What every key of a collection starts with.
pub fn key_prefix(collection: &str) -> (prefix: String)
    ensures
        prefix@ == prefix_of(collection@),
{
    let mut prefix = collection.to_owned();
    prefix.push(':');
    prefix
}

/// The key in the database for a key of a collection.
pub fn compound_key(collection: &str, key: &str) -> (identity: String)
    ensures
        identity@ == physical(collection@, key@),
{
    concat(key_prefix(collection).as_str(), key)
}

/// The text of a key, or why it is none.
pub open spec fn key_text(key: Seq<u8>) -> Outcome<Seq<char>> {
    if valid_utf8(key) {
        Ok(decode_utf8(key))
    } else {
        Err(ErrorModel::Deserialization(utf8_error_text(key)))
    }
}

fn read_text(key: Vec<u8>) -> (text: Result<String>)
    ensures
        match text {
            Ok(t) => key_text(key@) == Ok::<_, ErrorModel>(t@),
            Err(e) => key_text(key@) == Err::<Seq<char>, _>(e@),
        },
{
    match utf8_string(key) {
        Ok(text) => {
            proof {
                encode_utf8_decode_utf8(text@);
            }
            Ok(text)
        },
        Err(why) => Err(Error::Deserialization(why)),
    }
}

/// A walk along the keys of one collection.
pub struct KeyWalk {
    prefix: String,
    limit: usize,
    keys: Vec<String>,
}

/// The keys found after one more, and whether the walk goes on: it ends behind the collection, and
/// with enough keys.
pub open spec fn walked(
    prefix: Seq<char>,
    limit: nat,
    keys: Seq<Seq<char>>,
    key: Seq<u8>,
) -> Outcome<(Seq<Seq<char>>, bool)> {
    match key_text(key) {
        Err(e) => Err(e),
        Ok(text) => if prefix.is_prefix_of(text) {
            let after = keys.push(text.skip(prefix.len() as int));
            Ok((after, after.len() < limit))
        } else {
            Ok((keys, false))
        },
    }
}

impl KeyWalk {
    /// What every key of the collection starts with.
    pub closed spec fn prefix(&self) -> Seq<char> {
        self.prefix@
    }

    pub closed spec fn limit(&self) -> nat {
        self.limit as nat
    }

    /// The keys that were found.
    pub closed spec fn found(&self) -> Seq<Seq<char>> {
        texts(self.keys@)
    }

    pub fn new(collection: &str, limit: usize) -> (walk: Self)
        ensures
            walk.prefix() == prefix_of(collection@),
            walk.limit() == limit,
            walk.found() == Seq::<Seq<char>>::empty(),
    {
        let walk = KeyWalk { prefix: key_prefix(collection), limit, keys: Vec::new() };
        assert(walk.found() =~= Seq::empty());
        walk
    }

    /// Takes in a key, and says whether the walk goes on.
    pub fn visit(&mut self, key: Vec<u8>) -> (more: Result<bool>)
        ensures
            final(self).prefix() == old(self).prefix(),
            final(self).limit() == old(self).limit(),
            match more {
                Ok(b) => walked(old(self).prefix(), old(self).limit(), old(self).found(), key@)
                    == Ok::<_, ErrorModel>((final(self).found(), b)),
                Err(e) => walked(old(self).prefix(), old(self).limit(), old(self).found(), key@)
                    == Err::<(Seq<Seq<char>>, bool), _>(e@) && final(self).found() == old(
                    self,
                ).found(),
            },
    {
        let ghost before = self.found();
        let text = read_text(key)?;
        match strip_prefix(text.as_str(), self.prefix.as_str()) {
            Some(rest) => {
                self.keys.push(rest.to_owned());
                proof {
                    assert(text@.skip(self.prefix@.len() as int) =~= rest@);
                    assert(self.found() =~= before.push(rest@));
                }
                Ok(self.keys.len() < self.limit)
            },
            None => Ok(false),
        }
    }

    /// The keys that were found, in the order of the walk.
    pub fn keys(self) -> (keys: Vec<String>)
        ensures
            texts(keys@) == self.found(),
    {
        self.keys
    }
}

/// The collection that a key of the database names: all before the first colon.
pub open spec fn collection_of(key: Seq<u8>) -> Outcome<Seq<char>> {
    match key_text(key) {
        Err(e) => Err(e),
        Ok(text) => if first_index(text, ':') < text.len() {
            Ok(text.take(first_index(text, ':') as int))
        } else {
            Err(ErrorModel::Deserialization("invalid RocksDB compound key"@))
        },
    }
}

/// A walk along all keys for the names of the collections.
pub struct CollectionWalk {
    limit: usize,
    names: KeySet,
}

impl CollectionWalk {
    pub closed spec fn wf(&self) -> bool {
        self.names.wf()
    }

    pub closed spec fn limit(&self) -> nat {
        self.limit as nat
    }

    /// The names that were found.
    pub closed spec fn found(&self) -> Set<Seq<char>> {
        self.names@
    }

    pub fn new(limit: usize) -> (walk: Self)
        ensures
            walk.wf(),
            walk.limit() == limit,
            walk.found() == Set::<Seq<char>>::empty(),
    {
        CollectionWalk { limit, names: KeySet::new() }
    }

    /// Takes in a key, and says whether the walk goes on: it ends with enough names.
    pub fn visit(&mut self, key: Vec<u8>) -> (more: Result<bool>)
        requires
            old(self).wf(),
        ensures
            final(self).wf(),
            final(self).limit() == old(self).limit(),
            match more {
                Ok(b) => collection_of(key@) matches Ok(name) && final(self).found() == old(
                    self,
                ).found().insert(name) && b == (final(self).found().len() < final(self).limit()),
                Err(e) => collection_of(key@) == Err::<Seq<char>, _>(e@) && final(self).found()
                    == old(self).found(),
            },
    {
        let text = read_text(key)?;
        match split_once(text.as_str(), COLON) {
            Some((name, _)) => {
                let _ = self.names.insert(name);
                Ok(self.names.len() < self.limit)
            },
            None => Err(Error::Deserialization("invalid RocksDB compound key".to_owned())),
        }
    }

    /// The names that were found, in order.
    pub fn names(&self) -> (names: Vec<String>)
        requires
            self.wf(),
        ensures
            texts(names@) == sorted_keys(self.found()),
    {
        self.names.sorted()
    }
}

/// The key of a collection without a colon in its name names that collection, and starts with the
/// prefix of no other such collection.
pub proof fn law_plain_collections_apart(
    collection: Seq<char>,
    key: Seq<char>,
    other: Seq<char>,
)
    requires
        !collection.contains(':'),
        !other.contains(':'),
    ensures
        ({
            let text = physical(collection, key);
            &&& first_index(text, ':') == collection.len()
            &&& text.take(collection.len() as int) == collection
            &&& prefix_of(other).is_prefix_of(text) <==> other == collection
        }),
{
    let text = physical(collection, key);
    assert forall|i: int| 0 <= i < collection.len() implies text[i] != ':' by {
        assert(text[i] == collection[i]);
    }
    assert(text[collection.len() as int] == ':');
    lemma_first_index_is(text, ':', collection.len() as int);
    assert(text.take(collection.len() as int) =~= collection);
    if prefix_of(other).is_prefix_of(text) {
        assert forall|i: int| 0 <= i < other.len() implies text[i] != ':' by {
            assert(prefix_of(other)[i] == text[i]);
            assert(other[i] == text[i]);
        }
        assert(prefix_of(other)[other.len() as int] == text[other.len() as int]);
        lemma_first_index_is(text, ':', other.len() as int);
        assert(other =~= text.take(other.len() as int)) by {
            assert forall|i: int| 0 <= i < other.len() implies other[i] == text[i] by {
                assert(prefix_of(other)[i] == text[i]);
            }
        }
    } else if other == collection {
        assert(prefix_of(other) =~= text.take(prefix_of(other).len() as int));
    }
}

/// The models of a list of keys of the database.
pub open spec fn raw_keys(keys: Seq<Vec<u8>>) -> Seq<Seq<u8>> {
    keys.map_values(|key: Vec<u8>| key@)
}

/// A walk along the keys of a collection that is to be destroyed.
pub struct DoomedWalk {
    collection: String,
    keys: Vec<Vec<u8>>,
}

impl DoomedWalk {
    pub closed spec fn collection(&self) -> Seq<char> {
        self.collection@
    }

    /// The keys that are to be deleted.
    pub closed spec fn doomed(&self) -> Seq<Seq<u8>> {
        raw_keys(self.keys@)
    }

    pub fn new(collection: &str) -> (walk: Self)
        ensures
            walk.collection() == collection@,
            walk.doomed() == Seq::<Seq<u8>>::empty(),
    {
        let walk = DoomedWalk { collection: collection.to_owned(), keys: Vec::new() };
        assert(walk.doomed() =~= Seq::empty());
        walk
    }

    /// Takes in a key where it belongs to the collection, and says whether the walk goes on: it
    /// ends behind the collection.
    pub fn visit(&mut self, key: Vec<u8>) -> (more: bool)
        ensures
            final(self).collection() == old(self).collection(),
            more == encode_utf8(prefix_of(old(self).collection())).is_prefix_of(key@),
            final(self).doomed() == if more {
                old(self).doomed().push(key@)
            } else {
                old(self).doomed()
            },
    {
        let ghost before = self.doomed();
        let ghost k = key@;
        let goes = RocksDBStore::goes_with(self.collection.as_str(), key.as_slice());
        if goes {
            self.keys.push(key);
            assert(self.doomed() =~= before.push(k));
        }
        goes
    }

    /// The keys that are to be deleted together; none where the collection is empty.
    pub fn batch(self) -> (batch: Option<Vec<Vec<u8>>>)
        ensures
            match batch {
                Some(keys) => raw_keys(keys@) == self.doomed() && self.doomed().len() > 0,
                None => self.doomed().len() == 0,
            },
    {
        if self.keys.len() == 0 {
            None
        } else {
            Some(self.keys)
        }
    }
}

/// A walk along a collection finds each of its keys, goes on while it has too few, ends at the first
/// key of another collection, and fails on a key that is no text.
pub proof fn law_key_walk(
    collection: Seq<char>,
    limit: nat,
    keys: Seq<Seq<char>>,
    key: Seq<char>,
    other: Seq<u8>,
)
    ensures
        walked(
            prefix_of(collection),
            limit,
            keys,
            encode_utf8(collection + seq![':'] + key),
        ) == Ok::<_, ErrorModel>((keys.push(key), keys.len() + 1 < limit)),
        match walked(prefix_of(collection), limit, keys, other) {
            Ok((found, more)) => exists|text: Seq<char>|
                {
                    &&& other == #[trigger] encode_utf8(text)
                    &&& if (collection + seq![':']).is_prefix_of(text) {
                        found == keys.push(text.skip(collection.len() as int + 1)) && more == (
                        found.len() < limit)
                    } else {
                        found == keys && !more
                    }
                },
            Err(e) => e is Deserialization && !valid_utf8(other),
        },
{
    let text = collection + seq![':'] + key;
    assert(prefix_of(collection) =~= collection + seq![':']);
    vstd::utf8::encode_utf8_valid_utf8(text);
    encode_utf8_decode_utf8(text);
    assert(prefix_of(collection).is_prefix_of(text));
    assert(text.skip(prefix_of(collection).len() as int) =~= key);
    if valid_utf8(other) {
        vstd::utf8::decode_utf8_encode_utf8(other);
        assert(other == encode_utf8(decode_utf8(other)));
    }
}

/// A key of the database names the collection before its first colon; one without a colon, or that
/// is no text, is a deserialization error.
pub proof fn law_collection_named(collection: Seq<char>, key: Seq<char>, other: Seq<u8>)
    requires
        !collection.contains(':'),
    ensures
        collection_of(encode_utf8(collection + seq![':'] + key)) == Ok::<_, ErrorModel>(collection),
        match collection_of(other) {
            Ok(name) => valid_utf8(other) && !name.contains(':') && prefix_of(name).is_prefix_of(
                decode_utf8(other),
            ),
            Err(e) => e is Deserialization && (!valid_utf8(other) || !decode_utf8(other).contains(
                ':',
            )),
        },
{
    let text = collection + seq![':'] + key;
    vstd::utf8::encode_utf8_valid_utf8(text);
    encode_utf8_decode_utf8(text);
    assert forall|i: int| 0 <= i < collection.len() implies text[i] != ':' by {
        assert(collection.contains(collection[i]));
    }
    lemma_first_index_is(text, ':', collection.len() as int);
    assert(text.take(collection.len() as int) =~= collection);
    if valid_utf8(other) {
        let read = decode_utf8(other);
        crate::text::lemma_first_index(read, ':');
        let colon = first_index(read, ':') as int;
        if colon < read.len() {
            let name = read.take(colon);
            assert(!name.contains(':')) by {
                if name.contains(':') {
                    let i = choose|i: int| 0 <= i < name.len() && name[i] == ':';
                    assert(read[i] == ':');
                }
            }
            assert(prefix_of(name) =~= read.take(colon + 1));
        } else if read.contains(':') {
            let i = choose|i: int| 0 <= i < read.len() && read[i] == ':';
            assert(read[i] == ':');
        }
    }
}

/// The keys of a list stand for their bytes, one for each, in order.
pub proof fn law_raw_keys(keys: Seq<Vec<u8>>, i: int)
    requires
        0 <= i < keys.len(),
    ensures
        raw_keys(keys).len() == keys.len(),
        raw_keys(keys)[i] == keys[i]@,
{
}

} // verus!
