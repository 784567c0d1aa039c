//! Canonical compound identities for stores that do not natively support collections.
//!
//! An identity is the collection's UTF-8 length in decimal, a colon, the collection and the
//! key. The length makes the frame unambiguous whatever the two texts contain.

use crate::error::{Error, ErrorModel, Outcome, Result};
use crate::text::{
    all_digits, chars_in_bytes, decimal, decimal_string, decimal_value, first_index, is_all_digits,
    is_digit, lemma_canonical_decimal, lemma_chars_in_bytes, lemma_decimal_canonical,
    lemma_first_index, lemma_first_index_is, parse_digits, split_at_byte, split_once,
    splits_at_byte, strip_prefix, COLON, ZERO,
};
use vstd::prelude::*;
#[allow(unused_imports)]
use vstd::string::*;
use vstd::utf8::*;

verus! {

/// The frame that announces `text`: its byte length, a colon and the text.
pub open spec fn framed(text: Seq<char>) -> Seq<char> {
    decimal(encode_utf8(text).len()) + seq![':'] + text
}

/// The identity of a `(collection, key)` pair.
pub open spec fn compound(collection: Seq<char>, key: Seq<char>) -> Seq<char> {
    framed(collection) + key
}

/// The prefix that a namespace puts before every identity; empty for the empty namespace.
pub open spec fn subspace_prefix(space: Seq<char>) -> Seq<char> {
    if space.len() == 0 {
        Seq::empty()
    } else {
        framed(space)
    }
}

/// What reading `s` as an identity gives: the pair, or why it is none.
pub open spec fn decompound(s: Seq<char>) -> Outcome<(Seq<char>, Seq<char>)> {
    let colon = first_index(s, ':') as int;
    let length = s.take(colon);
    let payload = s.skip(colon + 1);
    if colon == s.len() {
        Err(ErrorModel::InvalidKey("compound identity is missing its length delimiter"@))
    } else if length.len() == 0 || !all_digits(length) {
        Err(ErrorModel::InvalidKey("compound identity has an invalid collection length"@))
    } else if length.len() > 1 && length[0] == '0' {
        Err(ErrorModel::InvalidKey("compound identity has a non-canonical collection length"@))
    } else if decimal_value(length) > usize::MAX {
        Err(ErrorModel::InvalidKey("compound identity collection length is too large"@))
    } else if !splits_at_byte(payload, decimal_value(length)) {
        Err(
            ErrorModel::InvalidKey(
                "compound identity collection length is outside a UTF-8 boundary"@,
            ),
        )
    } else {
        let i = chars_in_bytes(payload, decimal_value(length));
        Ok((payload.take(i), payload.skip(i)))
    }
}

/// What reading `s` as an identity inside a namespace gives.
pub open spec fn subspace_decompound(
    space: Seq<char>,
    s: Seq<char>,
) -> Option<(Seq<char>, Seq<char>)> {
    let prefix = subspace_prefix(space);
    if prefix.is_prefix_of(s) {
        match decompound(s.skip(prefix.len() as int)) {
            Ok(pair) => Some(pair),
            Err(_) => None,
        }
    } else {
        None
    }
}

/// Reading an identity gives back the pair it was made of.
pub proof fn law_compound_roundtrip(collection: Seq<char>, key: Seq<char>)
    requires
        encode_utf8(collection).len() <= usize::MAX,
    ensures
        decompound(compound(collection, key)) == Ok::<_, ErrorModel>((collection, key)),
{
    let s = compound(collection, key);
    let n = encode_utf8(collection).len();
    let d = decimal(n);
    lemma_decimal_canonical(n);
    assert(s.take(d.len() as int) =~= d);
    assert forall|i: int| 0 <= i < d.len() implies s[i] != ':' by {
        assert(is_digit(d[i]));
    }
    lemma_first_index_is(s, ':', d.len() as int);
    let payload = s.skip(d.len() as int + 1);
    assert(payload =~= collection + key);
    assert(payload.take(collection.len() as int) =~= collection);
    assert(payload.skip(collection.len() as int) =~= key);
    lemma_chars_in_bytes(payload, n, collection.len() as int);
}

/// Only identities read as identities: what is read is what made the text.
pub proof fn law_decompound_exact(s: Seq<char>)
    ensures
        decompound(s) matches Ok((c, k)) ==> s == compound(c, k),
{
    if let Ok((c, k)) = decompound(s) {
        lemma_first_index(s, ':');
        let colon = first_index(s, ':') as int;
        let length = s.take(colon);
        let payload = s.skip(colon + 1);
        lemma_canonical_decimal(length);
        assert(payload =~= c + k);
        assert(s =~= length + seq![':'] + payload);
        assert(s =~= compound(c, k));
    }
}

/// Different pairs have different identities.
pub proof fn law_compound_injective(c1: Seq<char>, k1: Seq<char>, c2: Seq<char>, k2: Seq<char>)
    requires
        encode_utf8(c1).len() <= usize::MAX,
        encode_utf8(c2).len() <= usize::MAX,
        compound(c1, k1) == compound(c2, k2),
    ensures
        c1 == c2,
        k1 == k2,
{
    law_compound_roundtrip(c1, k1);
    law_compound_roundtrip(c2, k2);
}

/// An identity starts with the prefix of a collection exactly when it belongs to it.
pub proof fn law_prefix_exact(collection: Seq<char>, c: Seq<char>, k: Seq<char>)
    requires
        encode_utf8(collection).len() <= usize::MAX,
        encode_utf8(c).len() <= usize::MAX,
    ensures
        framed(collection).is_prefix_of(compound(c, k)) <==> c == collection,
{
    let s = compound(c, k);
    if framed(collection).is_prefix_of(s) {
        let rest = s.skip(framed(collection).len() as int);
        assert(s =~= compound(collection, rest));
        law_compound_injective(c, k, collection, rest);
    } else if c == collection {
        assert(framed(collection).is_prefix_of(s));
    }
}

/// An identity made in a namespace reads back in it.
pub proof fn law_subspace_roundtrip(space: Seq<char>, collection: Seq<char>, key: Seq<char>)
    requires
        encode_utf8(collection).len() <= usize::MAX,
    ensures
        subspace_decompound(space, subspace_prefix(space) + compound(collection, key)) == Some(
            (collection, key),
        ),
{
    let p = subspace_prefix(space);
    let s = p + compound(collection, key);
    assert(s.skip(p.len() as int) =~= compound(collection, key));
    law_compound_roundtrip(collection, key);
}

/// An identity of one non-empty namespace is never read in another non-empty one.
pub proof fn law_subspaces_disjoint(
    a: Seq<char>,
    b: Seq<char>,
    collection: Seq<char>,
    key: Seq<char>,
)
    requires
        a.len() > 0,
        b.len() > 0,
        a != b,
        encode_utf8(a).len() <= usize::MAX,
        encode_utf8(b).len() <= usize::MAX,
    ensures
        subspace_decompound(b, subspace_prefix(a) + compound(collection, key)) is None,
{
    let s = subspace_prefix(a) + compound(collection, key);
    assert(s == compound(a, compound(collection, key)));
    law_prefix_exact(b, a, compound(collection, key));
}

/// Physical key namespace used by stores sharing one database.
#[derive(Debug, PartialEq, Eq)]
pub struct Subspace(String);

impl Clone for Subspace {
    fn clone(&self) -> (space: Self)
        ensures
            space@ == self@,
    {
        Subspace(self.0.clone())
    }
}

impl View for Subspace {
    type V = Seq<char>;

    closed spec fn view(&self) -> Seq<char> {
        self.0@
    }
}

impl Default for Subspace {
    fn default() -> (space: Self)
        ensures
            space@ == Seq::<char>::empty(),
    {
        Subspace(String::new())
    }
}

impl Subspace {
    pub fn new(value: &str) -> (space: Self)
        ensures
            space@ == value@,
    {
        Subspace(value.to_owned())
    }

    pub fn is_empty(&self) -> (empty: bool)
        ensures
            empty == (self@.len() == 0),
    {
        self.0.as_str().is_empty()
    }

    /// What every physical key of this namespace starts with.
    pub fn prefix(&self) -> (prefix: String)
        ensures
            prefix@ == subspace_prefix(self@),
    {
        if self.is_empty() {
            String::new()
        } else {
            collection_prefix(self.0.as_str())
        }
    }

    /// `key` inside this namespace.
    pub fn scope(&self, key: &str) -> (scoped: String)
        ensures
            scoped@ == subspace_prefix(self@) + key@,
    {
        let mut scoped = self.prefix();
        scoped.append(key);
        scoped
    }
}

/// The canonical prefix for every key in `collection`.
///
/// The length is the collection's UTF-8 byte length, not its character count.
pub fn collection_prefix(collection: &str) -> (prefix: String)
    ensures
        prefix@ == framed(collection@),
{
    let mut prefix = decimal_string(collection.as_bytes().len() as u64);
    prefix.push(':');
    prefix.append(collection);
    assert(prefix@ =~= framed(collection@));
    prefix
}

/// Encodes an exact `(collection, key)` pair as one unambiguous identity.
pub fn compound_key(collection: &str, key: &str) -> (identity: String)
    ensures
        identity@ == compound(collection@, key@),
{
    let mut identity = collection_prefix(collection);
    identity.append(key);
    identity
}

/// Encodes an exact `(collection, key)` pair inside `subspace`.
pub fn subspace_compound_key(subspace: &Subspace, collection: &str, key: &str) -> (identity: String)
    ensures
        identity@ == subspace_prefix(subspace@) + compound(collection@, key@),
{
    subspace.scope(compound_key(collection, key).as_str())
}

/// Decodes a canonical compound identity into its borrowed collection and key.
pub fn decompound_key<'a>(identity: &'a str) -> (pair: Result<(&'a str, &'a str)>)
    ensures
        match pair {
            Ok((c, k)) => decompound(identity@) == Ok::<_, ErrorModel>((c@, k@)),
            Err(e) => decompound(identity@) == Err::<(Seq<char>, Seq<char>), _>(e@),
        },
{
    proof {
        lemma_first_index(identity@, ':');
    }
    let (length, payload) = match split_once(identity, COLON) {
        Some(parts) => parts,
        None => {
            return Err(
                Error::InvalidKey("compound identity is missing its length delimiter".to_owned()),
            );
        },
    };
    proof {
        let colon = first_index(identity@, ':') as int;
        assert(identity@.take(colon) =~= length@);
        assert(identity@.skip(colon + 1) =~= payload@);
    }
    if length.is_empty() || !is_all_digits(length) {
        return Err(
            Error::InvalidKey("compound identity has an invalid collection length".to_owned()),
        );
    }
    proof {
        is_ascii_chars_encode_utf8(length@);
    }
    if length.as_bytes().len() > 1 && length.as_bytes()[0] == ZERO {
        return Err(
            Error::InvalidKey("compound identity has a non-canonical collection length".to_owned()),
        );
    }
    let n: usize = match parse_digits(length) {
        Some(n) if n <= usize::MAX as u64 => n as usize,
        _ => {
            return Err(
                Error::InvalidKey("compound identity collection length is too large".to_owned()),
            );
        },
    };
    match split_at_byte(payload, n) {
        Some(pair) => Ok(pair),
        None => Err(
            Error::InvalidKey(
                "compound identity collection length is outside a UTF-8 boundary".to_owned(),
            ),
        ),
    }
}

/// Decodes a compound identity only when it belongs to `subspace`.
pub fn subspace_decompound_key<'a>(subspace: &Subspace, identity: &'a str) -> (pair: Option<
    (&'a str, &'a str),
>)
    ensures
        match pair {
            Some((c, k)) => subspace_decompound(subspace@, identity@) == Some((c@, k@)),
            None => subspace_decompound(subspace@, identity@) is None,
        },
{
    match strip_prefix(identity, subspace.prefix().as_str()) {
        Some(inner) => {
            proof {
                assert(identity@.skip(subspace_prefix(subspace@).len() as int) =~= inner@);
            }
            match decompound_key(inner) {
                Ok(pair) => Some(pair),
                Err(_) => None,
            }
        },
        None => None,
    }
}

/// An identity starts with the number of bytes of its collection, a colon and the collection, and
/// goes on with the key.
pub proof fn law_compound_layout(collection: Seq<char>, key: Seq<char>)
    ensures
        compound(collection, key) == decimal(encode_utf8(collection).len()) + seq![':'] + collection
            + key,
        subspace_prefix(Seq::<char>::empty()) == Seq::<char>::empty(),
        collection.len() > 0 ==> subspace_prefix(collection) == decimal(
            encode_utf8(collection).len(),
        ) + seq![':'] + collection,
{
}

} // verus!
