//! The physical names of collections.
//!
//! A logical name is carried as `okv1-` and the lowercase hexadecimal form of its UTF-8
//! bytes, so that every text, case and normalization included, keeps its own collection.

use crate::error::{Error, ErrorModel, Outcome, Result};
use crate::hex::{
    append_hex, decode_hex, hex_bytes, hex_of, is_hex, lemma_hex_bytes, lemma_hex_injective,
    lemma_hex_of, lemma_is_hex,
};
use crate::text::{
    concat, decimal, decimal_string, lemma_encode_concat, lemma_encode_injective, strip_prefix,
    utf8_string,
};
use crate::store::page::{page_limit, page_size};
use vstd::prelude::*;
#[allow(unused_imports)]
use vstd::string::*;
use vstd::utf8::{
    decode_utf8, decode_utf8_encode_utf8, encode_utf8, encode_utf8_decode_utf8,
    encode_utf8_valid_utf8, is_ascii_chars, is_ascii_chars_encode_utf8, valid_utf8,
};

verus! {

/// The longest namespace, in bytes, that is also valid for sharded collections.
pub const MAX_NAMESPACE_BYTES: usize = 235;

/// The physical name of a collection.
pub open spec fn physical_name(collection: Seq<char>) -> Seq<char> {
    "okv1-"@ + hex_of(encode_utf8(collection))
}

/// The length of the namespace that a collection's physical name makes in a database.
pub open spec fn namespace_len(database: Seq<char>, physical_bytes: nat) -> nat {
    encode_utf8(database).len() + 1 + physical_bytes
}

/// What making the physical name of a collection gives.
pub open spec fn encoded_name(database: Seq<char>, collection: Seq<char>) -> Outcome<Seq<char>> {
    let encoded_len = 5 + 2 * encode_utf8(collection).len();
    let total = namespace_len(database, encoded_len);
    if encoded_len > usize::MAX {
        Err(ErrorModel::InvalidKey("MongoDB collection is too large to encode"@))
    } else if total > usize::MAX {
        Err(ErrorModel::InvalidKey("MongoDB collection namespace is too large"@))
    } else if total > MAX_NAMESPACE_BYTES {
        Err(
            ErrorModel::InvalidKey(
                "MongoDB collection namespace exceeds 235 bytes: "@ + decimal(total),
            ),
        )
    } else {
        Ok(physical_name(collection))
    }
}

/// What reading a physical name gives: nothing where it is not one of this library, and
/// otherwise the logical name.
pub open spec fn decoded_name(database: Seq<char>, physical: Seq<char>) -> Outcome<
    Option<Seq<char>>,
> {
    let total = namespace_len(database, encode_utf8(physical).len());
    let hex = physical.skip(5);
    if !"okv1-"@.is_prefix_of(physical) {
        Ok(None)
    } else if total > usize::MAX {
        Err(ErrorModel::InvalidKey("MongoDB collection namespace is too large"@))
    } else if total > MAX_NAMESPACE_BYTES {
        Err(
            ErrorModel::InvalidKey(
                "MongoDB physical collection namespace exceeds 235 bytes: "@ + decimal(total),
            ),
        )
    } else if encode_utf8(hex).len() % 2 != 0 {
        Err(
            ErrorModel::InvalidKey("MongoDB physical collection has an odd hexadecimal length"@),
        )
    } else if !is_hex(hex) {
        Err(
            ErrorModel::InvalidKey("MongoDB physical collection must use lowercase hexadecimal"@),
        )
    } else {
        let bytes = hex_bytes(hex);
        if !valid_utf8(bytes) {
            Err(ErrorModel::InvalidKey("MongoDB physical collection is not valid UTF-8"@))
        } else {
            Ok(Some(decode_utf8(bytes)))
        }
    }
}

proof fn lemma_prefix_bytes(rest: Seq<char>)
    ensures
        "okv1-"@.len() == 5,
        encode_utf8("okv1-"@ + rest).len() == 5 + encode_utf8(rest).len(),
        ("okv1-"@ + rest).skip(5) == rest,
{
    reveal_strlit("okv1-");
    assert(is_ascii_chars("okv1-"@));
    is_ascii_chars_encode_utf8("okv1-"@);
    lemma_encode_concat("okv1-"@, rest);
    assert(("okv1-"@ + rest).skip(5) =~= rest);
}

proof fn lemma_physical_bytes(collection: Seq<char>)
    ensures
        encode_utf8(physical_name(collection)).len() == 5 + 2 * encode_utf8(collection).len(),
        "okv1-"@.is_prefix_of(physical_name(collection)),
        physical_name(collection).skip(5) == hex_of(encode_utf8(collection)),
{
    let hex = hex_of(encode_utf8(collection));
    lemma_prefix_bytes(hex);
    lemma_hex_of(encode_utf8(collection));
    is_ascii_chars_encode_utf8(hex);
}

/// A physical name reads back as the logical name it was made of.
pub proof fn law_name_roundtrip(database: Seq<char>, collection: Seq<char>)
    ensures
        encoded_name(database, collection) matches Ok(physical) ==> decoded_name(database, physical)
            == Ok::<_, ErrorModel>(Some(collection)),
{
    if let Ok(physical) = encoded_name(database, collection) {
        let bytes = encode_utf8(collection);
        lemma_physical_bytes(collection);
        lemma_hex_of(bytes);
        is_ascii_chars_encode_utf8(hex_of(bytes));
        lemma_hex_bytes(bytes);
        encode_utf8_valid_utf8(collection);
        encode_utf8_decode_utf8(collection);
    }
}

/// Only the physical name of a logical name reads as that name: no other spelling does.
pub proof fn law_name_canonical(database: Seq<char>, physical: Seq<char>)
    ensures
        decoded_name(database, physical) matches Ok(Some(collection)) ==> encoded_name(
            database,
            collection,
        ) == Ok::<_, ErrorModel>(physical),
{
    if let Ok(Some(collection)) = decoded_name(database, physical) {
        let hex = physical.skip(5);
        lemma_prefix_bytes(hex);
        assert(physical =~= "okv1-"@ + hex);
        lemma_is_hex(hex);
        let bytes = hex_bytes(hex);
        decode_utf8_encode_utf8(bytes);
        lemma_physical_bytes(collection);
    }
}

/// Different collections have different physical names.
pub proof fn law_name_injective(a: Seq<char>, b: Seq<char>)
    requires
        physical_name(a) == physical_name(b),
    ensures
        a == b,
{
    lemma_physical_bytes(a);
    lemma_physical_bytes(b);
    lemma_hex_injective(encode_utf8(a), encode_utf8(b));
    lemma_encode_injective(a, b);
}

fn name_error(message: &str) -> (error: Error)
    ensures
        error@ == ErrorModel::InvalidKey(message@),
{
    Error::InvalidKey(message.to_owned())
}

/// The physical name of a collection in a database.
pub fn encode_collection_name(database: &str, collection: &str) -> (name: Result<String>)
    ensures
        match name {
            Ok(n) => encoded_name(database@, collection@) == Ok::<_, ErrorModel>(n@),
            Err(e) => encoded_name(database@, collection@) == Err::<Seq<char>, _>(e@),
        },
{
    let bytes = collection.as_bytes();
    let encoded_len: usize = match bytes.len().checked_mul(2) {
        Some(doubled) => match doubled.checked_add(5) {
            Some(len) => len,
            None => {
                return Err(name_error("MongoDB collection is too large to encode"));
            },
        },
        None => {
            return Err(name_error("MongoDB collection is too large to encode"));
        },
    };
    let total: usize = match database.as_bytes().len().checked_add(1) {
        Some(prefix) => match prefix.checked_add(encoded_len) {
            Some(len) => len,
            None => {
                return Err(name_error("MongoDB collection namespace is too large"));
            },
        },
        None => {
            return Err(name_error("MongoDB collection namespace is too large"));
        },
    };
    if total > MAX_NAMESPACE_BYTES {
        return Err(
            Error::InvalidKey(
                concat(
                    "MongoDB collection namespace exceeds 235 bytes: ",
                    decimal_string(total as u64).as_str(),
                ),
            ),
        );
    }
    let mut physical = "okv1-".to_owned();
    append_hex(&mut physical, bytes);
    Ok(physical)
}

/// The logical name that a physical name carries; nothing where it is none of this library.
pub fn decode_collection_name(database: &str, physical: &str) -> (name: Result<Option<String>>)
    ensures
        match name {
            Ok(Some(n)) => decoded_name(database@, physical@) == Ok::<_, ErrorModel>(Some(n@)),
            Ok(None) => decoded_name(database@, physical@) == Ok::<Option<Seq<char>>, ErrorModel>(
                None,
            ),
            Err(e) => decoded_name(database@, physical@) == Err::<Option<Seq<char>>, _>(e@),
        },
{
    let hex = match strip_prefix(physical, "okv1-") {
        Some(hex) => hex,
        None => {
            return Ok(None);
        },
    };
    proof {
        lemma_prefix_bytes(hex@);
    }
    let total: usize = match database.as_bytes().len().checked_add(1) {
        Some(prefix) => match prefix.checked_add(physical.as_bytes().len()) {
            Some(len) => len,
            None => {
                return Err(name_error("MongoDB collection namespace is too large"));
            },
        },
        None => {
            return Err(name_error("MongoDB collection namespace is too large"));
        },
    };
    if total > MAX_NAMESPACE_BYTES {
        return Err(
            Error::InvalidKey(
                concat(
                    "MongoDB physical collection namespace exceeds 235 bytes: ",
                    decimal_string(total as u64).as_str(),
                ),
            ),
        );
    }
    if hex.as_bytes().len() % 2 != 0 {
        return Err(name_error("MongoDB physical collection has an odd hexadecimal length"));
    }
    let bytes = match decode_hex(hex) {
        Some(bytes) => bytes,
        None => {
            return Err(name_error("MongoDB physical collection must use lowercase hexadecimal"));
        },
    };
    proof {
        lemma_hex_of(bytes@);
        lemma_hex_bytes(bytes@);
    }
    match utf8_string(bytes) {
        Ok(logical) => {
            proof {
                encode_utf8_decode_utf8(logical@);
            }
            Ok(Some(logical))
        },
        Err(_) => Err(name_error("MongoDB physical collection is not valid UTF-8")),
    }
}

/// The collections of this library among a database's: the physical and the logical name.
pub open spec fn owned(database: Seq<char>, names: Seq<Seq<char>>) -> Outcome<
    Seq<(Seq<char>, Seq<char>)>,
>
    decreases names.len(),
{
    if names.len() == 0 {
        Ok(Seq::empty())
    } else {
        match owned(database, names.drop_last()) {
            Err(e) => Err(e),
            Ok(front) => match decoded_name(database, names.last()) {
                Err(e) => Err(e),
                Ok(None) => Ok(front),
                Ok(Some(logical)) => Ok(front.push((names.last(), logical))),
            },
        }
    }
}

proof fn lemma_owned_prefix(database: Seq<char>, names: Seq<Seq<char>>, k: int)
    requires
        0 <= k <= names.len(),
        owned(database, names.take(k)) is Err,
    ensures
        owned(database, names) == owned(database, names.take(k)),
    decreases names.len() - k,
{
    if k == names.len() {
        assert(names.take(k) =~= names);
    } else {
        assert(names.take(k + 1).drop_last() =~= names.take(k));
        lemma_owned_prefix(database, names, k + 1);
    }
}

/// The models of name pairs.
pub open spec fn pairs_model(pairs: Seq<(String, String)>) -> Seq<(Seq<char>, Seq<char>)> {
    pairs.map_values(|p: (String, String)| (p.0@, p.1@))
}

/// The collections of this library among a database's: the physical and the logical name.
pub fn owned_collection_names(database: &str, names: &Vec<String>) -> (pairs: Result<
    Vec<(String, String)>,
>)
    ensures
        match pairs {
            Ok(p) => owned(database@, crate::text::texts(names@)) == Ok::<_, ErrorModel>(
                pairs_model(p@),
            ),
            Err(e) => owned(database@, crate::text::texts(names@)) == Err::<
                Seq<(Seq<char>, Seq<char>)>,
                _,
            >(e@),
        },
{
    let ghost all = crate::text::texts(names@);
    let mut pairs: Vec<(String, String)> = Vec::new();
    let mut i: usize = 0;
    proof {
        assert(all.take(0) =~= Seq::empty());
        assert(pairs_model(pairs@) =~= Seq::empty());
    }
    while i < names.len()
        invariant
            i <= names@.len(),
            all == crate::text::texts(names@),
            owned(database@, all.take(i as int)) == Ok::<_, ErrorModel>(pairs_model(pairs@)),
        decreases names@.len() - i,
    {
        let ghost before = pairs@;
        proof {
            assert(all.take(i + 1).drop_last() =~= all.take(i as int));
            assert(all.take(i + 1).last() == names@[i as int]@);
            if owned(database@, all.take(i + 1)) is Err {
                lemma_owned_prefix(database@, all, i + 1);
            }
        }
        match decode_collection_name(database, names[i].as_str())? {
            Some(logical) => {
                let ghost l = logical@;
                pairs.push((names[i].clone(), logical));
                proof {
                    assert(pairs_model(pairs@) =~= pairs_model(before).push(
                        (names@[i as int]@, l),
                    ));
                }
            },
            None => {},
        }
        i += 1;
    }
    assert(all.take(i as int) =~= all);
    Ok(pairs)
}

/// The logical names of a page of collections, in the order given.
pub open spec fn logical_names(pairs: Seq<(Seq<char>, Seq<char>)>, size: nat) -> Seq<Seq<char>> {
    Seq::new(
        if pairs.len() < size {
            pairs.len()
        } else {
            size
        },
        |i: int| pairs[i].1,
    )
}

/// The logical names of a page of collections.
pub fn collection_page(pairs: &Vec<(String, String)>, limit: Option<usize>) -> (names: Vec<String>)
    ensures
        crate::text::texts(names@) == logical_names(pairs_model(pairs@), page_size(limit)),
{
    let size: usize = page_limit(limit);
    let mut names: Vec<String> = Vec::new();
    while names.len() < size && names.len() < pairs.len()
        invariant
            names@.len() <= size,
            names@.len() <= pairs@.len(),
            forall|i: int| 0 <= i < names@.len() ==> (#[trigger] names@[i])@ == pairs@[i].1@,
        decreases pairs@.len() - names@.len(),
    {
        names.push(pairs[names.len()].1.clone());
    }
    assert(crate::text::texts(names@) =~= logical_names(pairs_model(pairs@), page_size(limit)));
    names
}

} // verus!
