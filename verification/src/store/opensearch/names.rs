//! The names of indices and documents.
//!
//! A collection is the index `{prefix}-okv1-` and the lowercase hexadecimal form of its
//! UTF-8 bytes. A key is the document `okv1-` and the unpadded Base64URL form of its bytes.

use crate::encoding::{
    base64url, base64url_decoded, decode_url, encode_url, is_url_char, unpadded_len,
};
use crate::error::{Error, ErrorModel, Outcome, Result};
use crate::hex::{
    append_hex, decode_hex, hex_bytes, hex_of, is_hex, lemma_hex_bytes, lemma_hex_injective,
    lemma_hex_of, lemma_is_hex,
};
use crate::text::{
    concat, decimal, lemma_encode_concat, lemma_encode_injective, quote, quoted, str_eq,
    strip_prefix, utf8_error_text, utf8_string, wide_decimal_string,
};
use vstd::prelude::*;
#[allow(unused_imports)]
use vstd::string::*;
use vstd::utf8::{
    decode_utf8, decode_utf8_encode_utf8, encode_utf8, encode_utf8_decode_utf8,
    encode_utf8_valid_utf8, is_ascii_chars, is_ascii_chars_encode_utf8, valid_utf8,
};

verus! {

/// The longest index name, in bytes.
pub const MAX_INDEX_BYTES: usize = 255;

/// The longest document id, in bytes.
pub const MAX_DOCUMENT_ID_BYTES: usize = 512;

/// Whether a character may begin an index prefix.
pub open spec fn starts_prefix(c: char) -> bool {
    'a' <= c <= 'z' || '0' <= c <= '9'
}

/// Whether a character may stand in an index prefix.
pub open spec fn fits_prefix(c: char) -> bool {
    starts_prefix(c) || c == '.' || c == '_' || c == '-'
}

/// Why a text cannot be an index prefix, if it cannot.
pub open spec fn prefix_fault(prefix: Seq<char>) -> Option<ErrorModel> {
    if prefix.len() == 0 {
        Some(ErrorModel::InvalidKey("OpenSearch index prefix must not be empty"@))
    } else if !starts_prefix(prefix[0]) {
        Some(
            ErrorModel::InvalidKey(
                "OpenSearch index prefix must start with a lowercase ASCII letter or digit: "@
                    + quoted(prefix),
            ),
        )
    } else if exists|i: int| 0 <= i < prefix.len() && !fits_prefix(#[trigger] prefix[i]) {
        Some(
            ErrorModel::InvalidKey(
                "OpenSearch index prefix contains unsupported characters: "@ + quoted(prefix),
            ),
        )
    } else if encode_utf8(prefix).len() + 6 > MAX_INDEX_BYTES {
        Some(
            ErrorModel::InvalidKey(
                "OpenSearch index prefix is too long: empty collection index would be "@ + decimal(
                    encode_utf8(prefix).len() + 6,
                ) + " bytes (max 255)"@,
            ),
        )
    } else {
        None
    }
}

/// The index of a collection.
pub open spec fn index_of(prefix: Seq<char>, collection: Seq<char>) -> Seq<char> {
    prefix + "-okv1-"@ + hex_of(encode_utf8(collection))
}

/// What making the index name of a collection gives.
pub open spec fn encoded_index(prefix: Seq<char>, collection: Seq<char>) -> Outcome<Seq<char>> {
    let total = encode_utf8(prefix).len() + 6 + 2 * encode_utf8(collection).len();
    match prefix_fault(prefix) {
        Some(e) => Err(e),
        None => if total > MAX_INDEX_BYTES {
            Err(
                ErrorModel::InvalidKey(
                    "OpenSearch collection identity encodes to "@ + decimal(total)
                        + " index bytes (max 255)"@,
                ),
            )
        } else {
            Ok(index_of(prefix, collection))
        },
    }
}

/// What reading an index name gives.
pub open spec fn decoded_index(prefix: Seq<char>, index: Seq<char>) -> Outcome<Seq<char>> {
    let marked = prefix + "-okv1-"@;
    let hex = index.skip(marked.len() as int);
    match prefix_fault(prefix) {
        Some(e) => Err(e),
        None => if encode_utf8(index).len() > MAX_INDEX_BYTES {
            Err(
                ErrorModel::InvalidKey(
                    "OpenSearch index name is "@ + decimal(encode_utf8(index).len())
                        + " bytes (max 255): "@ + quoted(index),
                ),
            )
        } else if !marked.is_prefix_of(index) {
            Err(
                ErrorModel::InvalidKey(
                    "OpenSearch index is not a canonical OpenKeyV collection identity: "@ + quoted(
                        index,
                    ),
                ),
            )
        } else if encode_utf8(hex).len() % 2 != 0 {
            Err(
                ErrorModel::InvalidKey(
                    "OpenSearch index has odd-length collection hex: "@ + quoted(index),
                ),
            )
        } else if !is_hex(hex) {
            Err(
                ErrorModel::InvalidKey(
                    "OpenSearch index contains non-lowercase-hex collection data: "@ + quoted(
                        index,
                    ),
                ),
            )
        } else if !valid_utf8(hex_bytes(hex)) {
            Err(
                ErrorModel::InvalidKey(
                    "OpenSearch index contains invalid UTF-8 collection data "@ + quoted(index)
                        + ": "@ + utf8_error_text(hex_bytes(hex)),
                ),
            )
        } else {
            Ok(decode_utf8(hex_bytes(hex)))
        },
    }
}

/// What making the document id of a key gives.
pub open spec fn encoded_id(key: Seq<char>) -> Outcome<Seq<char>> {
    let bytes = encode_utf8(key);
    let total = 5 + unpadded_len(bytes.len());
    if total > MAX_DOCUMENT_ID_BYTES {
        Err(
            ErrorModel::InvalidKey(
                "OpenSearch key identity encodes to "@ + decimal(total)
                    + " document ID bytes (max 512)"@,
            ),
        )
    } else {
        Ok("okv1-"@ + base64url(bytes))
    }
}

/// What reading a document id gives.
pub open spec fn decoded_id(id: Seq<char>) -> Outcome<Seq<char>> {
    let encoded = id.skip(5);
    if encode_utf8(id).len() > MAX_DOCUMENT_ID_BYTES {
        Err(
            ErrorModel::InvalidKey(
                "OpenSearch document ID is "@ + decimal(encode_utf8(id).len())
                    + " bytes (max 512): "@ + quoted(id),
            ),
        )
    } else if !"okv1-"@.is_prefix_of(id) {
        Err(
            ErrorModel::InvalidKey(
                "OpenSearch document ID is not a canonical OpenKeyV key identity: "@ + quoted(id),
            ),
        )
    } else {
        match base64url_decoded(encoded) {
            Err(why) => Err(
                ErrorModel::InvalidKey(
                    "OpenSearch document ID contains invalid unpadded Base64URL "@ + quoted(id)
                        + ": "@ + why,
                ),
            ),
            Ok(bytes) => if base64url(bytes) != encoded {
                Err(
                    ErrorModel::InvalidKey(
                        "OpenSearch document ID is not canonical unpadded Base64URL: "@ + quoted(
                            id,
                        ),
                    ),
                )
            } else if !valid_utf8(bytes) {
                Err(
                    ErrorModel::InvalidKey(
                        "OpenSearch document ID contains invalid UTF-8 key data "@ + quoted(id)
                            + ": "@ + utf8_error_text(bytes),
                    ),
                )
            } else {
                Ok(decode_utf8(bytes))
            },
        }
    }
}

proof fn lemma_marker_bytes(prefix: Seq<char>, rest: Seq<char>)
    ensures
        "-okv1-"@.len() == 6,
        encode_utf8(prefix + "-okv1-"@ + rest).len() == encode_utf8(prefix).len() + 6
            + encode_utf8(rest).len(),
        (prefix + "-okv1-"@ + rest).skip((prefix + "-okv1-"@).len() as int) == rest,
        (prefix + "-okv1-"@).is_prefix_of(prefix + "-okv1-"@ + rest),
{
    reveal_strlit("-okv1-");
    assert(is_ascii_chars("-okv1-"@));
    is_ascii_chars_encode_utf8("-okv1-"@);
    lemma_encode_concat(prefix, "-okv1-"@);
    lemma_encode_concat(prefix + "-okv1-"@, rest);
    assert((prefix + "-okv1-"@ + rest).skip((prefix + "-okv1-"@).len() as int) =~= rest);
}

proof fn lemma_index_bytes(prefix: Seq<char>, collection: Seq<char>)
    ensures
        encode_utf8(index_of(prefix, collection)).len() == encode_utf8(prefix).len() + 6 + 2
            * encode_utf8(collection).len(),
{
    let hex = hex_of(encode_utf8(collection));
    lemma_marker_bytes(prefix, hex);
    lemma_hex_of(encode_utf8(collection));
    is_ascii_chars_encode_utf8(hex);
}

/// An index name reads back as the collection it was made of, and is not too long.
pub proof fn law_index_roundtrip(prefix: Seq<char>, collection: Seq<char>)
    ensures
        encoded_index(prefix, collection) matches Ok(index) ==> decoded_index(prefix, index)
            == Ok::<_, ErrorModel>(collection) && encode_utf8(index).len() <= MAX_INDEX_BYTES,
{
    if let Ok(index) = encoded_index(prefix, collection) {
        let bytes = encode_utf8(collection);
        lemma_index_bytes(prefix, collection);
        lemma_marker_bytes(prefix, hex_of(bytes));
        lemma_hex_of(bytes);
        is_ascii_chars_encode_utf8(hex_of(bytes));
        lemma_hex_bytes(bytes);
        encode_utf8_valid_utf8(collection);
        encode_utf8_decode_utf8(collection);
    }
}

/// Only the index name of a collection reads as that collection.
pub proof fn law_index_canonical(prefix: Seq<char>, index: Seq<char>)
    ensures
        decoded_index(prefix, index) matches Ok(collection) ==> encoded_index(prefix, collection)
            == Ok::<_, ErrorModel>(index),
{
    if let Ok(collection) = decoded_index(prefix, index) {
        let marked = prefix + "-okv1-"@;
        let hex = index.skip(marked.len() as int);
        assert(index =~= marked + hex);
        lemma_marker_bytes(prefix, hex);
        lemma_is_hex(hex);
        decode_utf8_encode_utf8(hex_bytes(hex));
        lemma_index_bytes(prefix, collection);
    }
}

/// Different collections have different indices under one prefix.
pub proof fn law_index_injective(prefix: Seq<char>, a: Seq<char>, b: Seq<char>)
    requires
        index_of(prefix, a) == index_of(prefix, b),
    ensures
        a == b,
{
    lemma_marker_bytes(prefix, hex_of(encode_utf8(a)));
    lemma_marker_bytes(prefix, hex_of(encode_utf8(b)));
    lemma_hex_injective(encode_utf8(a), encode_utf8(b));
    lemma_encode_injective(a, b);
}

fn all_fit_prefix(prefix: &str) -> (fit: bool)
    ensures
        fit == !(exists|i: int| 0 <= i < prefix@.len() && !fits_prefix(#[trigger] prefix@[i])),
{
    if !prefix.is_ascii() {
        proof {
            if forall|i: int| 0 <= i < prefix@.len() ==> fits_prefix(#[trigger] prefix@[i]) {
                assert forall|i: int| 0 <= i < prefix@.len() implies '\0' <= #[trigger] prefix@[i]
                    <= '\u{7f}' by {
                    assert(fits_prefix(prefix@[i]));
                }
            }
        }
        return false;
    }
    proof {
        is_ascii_chars_encode_utf8(prefix@);
    }
    let bytes = prefix.as_bytes();
    let mut i: usize = 0;
    while i < bytes.len()
        invariant
            i <= bytes@.len(),
            prefix@.len() == bytes@.len(),
            is_ascii_chars(prefix@),
            forall|j: int| 0 <= j < prefix@.len() ==> #[trigger] prefix@[j] as u8 == bytes@[j],
            forall|j: int| 0 <= j < i ==> fits_prefix(#[trigger] prefix@[j]),
        decreases bytes@.len() - i,
    {
        let b: u8 = bytes[i];
        assert(prefix@[i as int] as u8 == b);
        if !((b >= 97 && b <= 122) || (b >= 48 && b <= 57) || b == 46 || b == 95 || b == 45) {
            assert(!fits_prefix(prefix@[i as int]));
            return false;
        }
        i += 1;
    }
    true
}

/// Accepts a text that indices may start with.
pub fn validate_index_prefix(prefix: &str) -> (result: Result<()>)
    ensures
        match result {
            Ok(_) => prefix_fault(prefix@) is None,
            Err(e) => prefix_fault(prefix@) == Some(e@),
        },
{
    if prefix.is_empty() {
        return Err(Error::InvalidKey("OpenSearch index prefix must not be empty".to_owned()));
    }
    let first = prefix.get_char(0);
    if !(('a' <= first && first <= 'z') || ('0' <= first && first <= '9')) {
        return Err(
            Error::InvalidKey(
                concat(
                    "OpenSearch index prefix must start with a lowercase ASCII letter or digit: ",
                    quote(prefix).as_str(),
                ),
            ),
        );
    }
    if !all_fit_prefix(prefix) {
        return Err(
            Error::InvalidKey(
                concat(
                    "OpenSearch index prefix contains unsupported characters: ",
                    quote(prefix).as_str(),
                ),
            ),
        );
    }
    let total: u128 = prefix.as_bytes().len() as u128 + 6;
    if total > MAX_INDEX_BYTES as u128 {
        let mut message = concat(
            "OpenSearch index prefix is too long: empty collection index would be ",
            wide_decimal_string(total).as_str(),
        );
        message.append(" bytes (max 255)");
        return Err(Error::InvalidKey(message));
    }
    Ok(())
}

/// The index of a collection.
pub fn encode_index_name(prefix: &str, collection: &str) -> (index: Result<String>)
    ensures
        match index {
            Ok(i) => encoded_index(prefix@, collection@) == Ok::<_, ErrorModel>(i@),
            Err(e) => encoded_index(prefix@, collection@) == Err::<Seq<char>, _>(e@),
        },
{
    validate_index_prefix(prefix)?;
    let bytes = collection.as_bytes();
    let total: u128 = prefix.as_bytes().len() as u128 + 6 + bytes.len() as u128 * 2;
    if total > MAX_INDEX_BYTES as u128 {
        let mut message = concat(
            "OpenSearch collection identity encodes to ",
            wide_decimal_string(total).as_str(),
        );
        message.append(" index bytes (max 255)");
        return Err(Error::InvalidKey(message));
    }
    let mut index = concat(prefix, "-okv1-");
    append_hex(&mut index, bytes);
    Ok(index)
}

/// The error that shows an index.
fn index_error(message: &str, index: &str) -> (error: Error)
    ensures
        error@ == ErrorModel::InvalidKey(message@ + quoted(index@)),
{
    Error::InvalidKey(concat(message, quote(index).as_str()))
}

/// The collection that an index name carries.
pub fn decode_index_name(prefix: &str, index: &str) -> (collection: Result<String>)
    ensures
        match collection {
            Ok(c) => decoded_index(prefix@, index@) == Ok::<_, ErrorModel>(c@),
            Err(e) => decoded_index(prefix@, index@) == Err::<Seq<char>, _>(e@),
        },
{
    validate_index_prefix(prefix)?;
    let length: usize = index.as_bytes().len();
    if length > MAX_INDEX_BYTES {
        let mut message = concat(
            "OpenSearch index name is ",
            wide_decimal_string(length as u128).as_str(),
        );
        message.append(" bytes (max 255): ");
        return Err(index_error(message.as_str(), index));
    }
    let marked = concat(prefix, "-okv1-");
    let hex = match strip_prefix(index, marked.as_str()) {
        Some(hex) => hex,
        None => {
            return Err(
                index_error(
                    "OpenSearch index is not a canonical OpenKeyV collection identity: ",
                    index,
                ),
            );
        },
    };
    proof {
        lemma_marker_bytes(prefix@, hex@);
    }
    if hex.as_bytes().len() % 2 != 0 {
        return Err(index_error("OpenSearch index has odd-length collection hex: ", index));
    }
    let bytes = match decode_hex(hex) {
        Some(bytes) => bytes,
        None => {
            return Err(
                index_error(
                    "OpenSearch index contains non-lowercase-hex collection data: ",
                    index,
                ),
            );
        },
    };
    proof {
        lemma_hex_of(bytes@);
        lemma_hex_bytes(bytes@);
    }
    match utf8_string(bytes) {
        Ok(collection) => {
            proof {
                encode_utf8_decode_utf8(collection@);
            }
            Ok(collection)
        },
        Err(why) => {
            let mut message = concat(
                "OpenSearch index contains invalid UTF-8 collection data ",
                quote(index).as_str(),
            );
            message.append(": ");
            message.append(why.as_str());
            Err(Error::InvalidKey(message))
        },
    }
}

/// The pattern that matches every index of a prefix.
pub fn index_pattern(prefix: &str) -> (pattern: Result<String>)
    ensures
        match pattern {
            Ok(p) => prefix_fault(prefix@) is None && p@ == prefix@ + "-*"@,
            Err(e) => prefix_fault(prefix@) == Some(e@),
        },
{
    validate_index_prefix(prefix)?;
    Ok(concat(prefix, "-*"))
}

proof fn lemma_id_bytes(rest: Seq<char>)
    ensures
        "okv1-"@.len() == 5,
        encode_utf8("okv1-"@ + rest).len() == 5 + encode_utf8(rest).len(),
        ("okv1-"@ + rest).skip(5) == rest,
        "okv1-"@.is_prefix_of("okv1-"@ + rest),
{
    reveal_strlit("okv1-");
    assert(is_ascii_chars("okv1-"@));
    is_ascii_chars_encode_utf8("okv1-"@);
    lemma_encode_concat("okv1-"@, rest);
    assert(("okv1-"@ + rest).skip(5) =~= rest);
}

proof fn lemma_url_ascii(text: Seq<char>)
    requires
        forall|i: int| 0 <= i < text.len() ==> is_url_char(#[trigger] text[i]),
    ensures
        encode_utf8(text).len() == text.len(),
{
    assert forall|i: int| 0 <= i < text.len() implies '\0' <= #[trigger] text[i]
        <= '\u{7f}' by {
        assert(is_url_char(text[i]));
    }
    is_ascii_chars_encode_utf8(text);
}

/// The document id of a key. The id reads back as the key.
pub fn encode_document_id(key: &str) -> (id: Result<String>)
    ensures
        match id {
            Ok(i) => {
                &&& encoded_id(key@) == Ok::<_, ErrorModel>(i@)
                &&& decoded_id(i@) == Ok::<_, ErrorModel>(key@)
                &&& encode_utf8(i@).len() <= MAX_DOCUMENT_ID_BYTES
            },
            Err(e) => encoded_id(key@) == Err::<Seq<char>, _>(e@),
        },
{
    let bytes = key.as_bytes();
    let total: u128 = 5 + (bytes.len() as u128 * 4 + 2) / 3;
    if total > MAX_DOCUMENT_ID_BYTES as u128 {
        let mut message = concat(
            "OpenSearch key identity encodes to ",
            wide_decimal_string(total).as_str(),
        );
        message.append(" document ID bytes (max 512)");
        return Err(Error::InvalidKey(message));
    }
    let encoded = encode_url(bytes);
    let id = concat("okv1-", encoded.as_str());
    proof {
        lemma_id_bytes(encoded@);
        lemma_url_ascii(encoded@);
        encode_utf8_valid_utf8(key@);
        encode_utf8_decode_utf8(key@);
    }
    Ok(id)
}

/// The error that shows a document id.
fn id_error(message: &str, id: &str) -> (error: Error)
    ensures
        error@ == ErrorModel::InvalidKey(message@ + quoted(id@)),
{
    Error::InvalidKey(concat(message, quote(id).as_str()))
}

/// The key that a document id carries. Only the id of a key reads as that key.
pub fn decode_document_id(document_id: &str) -> (key: Result<String>)
    ensures
        match key {
            Ok(k) => {
                &&& decoded_id(document_id@) == Ok::<_, ErrorModel>(k@)
                &&& encoded_id(k@) == Ok::<_, ErrorModel>(document_id@)
            },
            Err(e) => decoded_id(document_id@) == Err::<Seq<char>, _>(e@),
        },
{
    let length: usize = document_id.as_bytes().len();
    if length > MAX_DOCUMENT_ID_BYTES {
        let mut message = concat(
            "OpenSearch document ID is ",
            wide_decimal_string(length as u128).as_str(),
        );
        message.append(" bytes (max 512): ");
        return Err(id_error(message.as_str(), document_id));
    }
    let encoded = match strip_prefix(document_id, "okv1-") {
        Some(encoded) => encoded,
        None => {
            return Err(
                id_error(
                    "OpenSearch document ID is not a canonical OpenKeyV key identity: ",
                    document_id,
                ),
            );
        },
    };
    proof {
        lemma_id_bytes(encoded@);
    }
    let bytes = match decode_url(encoded) {
        Ok(bytes) => bytes,
        Err(why) => {
            let mut message = concat(
                "OpenSearch document ID contains invalid unpadded Base64URL ",
                quote(document_id).as_str(),
            );
            message.append(": ");
            message.append(why.as_str());
            return Err(Error::InvalidKey(message));
        },
    };
    let again = encode_url(bytes.as_slice());
    if !str_eq(again.as_str(), encoded) {
        return Err(
            id_error(
                "OpenSearch document ID is not canonical unpadded Base64URL: ",
                document_id,
            ),
        );
    }
    proof {
        lemma_url_ascii(again@);
    }
    let ghost raw = bytes@;
    match utf8_string(bytes) {
        Ok(key) => {
            proof {
                encode_utf8_decode_utf8(key@);
            }
            Ok(key)
        },
        Err(why) => {
            let mut message = concat(
                "OpenSearch document ID contains invalid UTF-8 key data ",
                quote(document_id).as_str(),
            );
            message.append(": ");
            message.append(why.as_str());
            Err(Error::InvalidKey(message))
        },
    }
}

} // verus!
