//! The object keys.
//!
//! An object key is `okv1`, the length of the encoded collection, the encoded collection in
//! segments of at most 200 characters, `key`, and the encoded key in such segments, with
//! slashes between them. Both are encoded as unpadded Base64URL, the collection in its
//! frame. An object key is at most 1024 bytes long.

use crate::encoding::{
    base64url, base64url_decoded, decode_url, encode_url, is_url_char, unpadded_len,
};
use crate::error::{Error, ErrorModel, Outcome, Result};
use crate::text::{
    all_digits, concat, decimal, decimal_string, decimal_value, free_of, is_all_digits, is_digit,
    join, lemma_canonical_decimal, lemma_decimal_canonical, lemma_encode_concat, lemma_encode_len,
    lemma_join_split, lemma_split_join, parse_digits, split, split_text, str_eq, utf8_string,
    wide_decimal_string, ZERO,
};
use crate::utils::compound::{
    collection_prefix, compound, decompound, decompound_key, framed, law_compound_roundtrip,
    law_decompound_exact,
};
use vstd::prelude::*;
#[allow(unused_imports)]
use vstd::string::*;
use vstd::utf8::{
    decode_utf8, encode_utf8, encode_utf8_decode_utf8, encode_utf8_valid_utf8, is_ascii_chars,
    is_ascii_chars_encode_utf8, valid_utf8,
};

verus! {

/// The longest object key, in bytes.
pub const MAX_KEY_BYTES: usize = 1024;

/// The longest segment, in bytes.
pub const SEGMENT_BYTES: usize = 200;

/// A text in segments of 200 characters and a shorter rest; the empty text is one segment.
pub open spec fn chunk_list(text: Seq<char>) -> Seq<Seq<char>>
    decreases text.len(),
{
    if text.len() <= 200 {
        seq![text]
    } else {
        seq![text.take(200)] + chunk_list(text.skip(200))
    }
}

/// Texts, one behind the other.
pub open spec fn together(texts: Seq<Seq<char>>) -> Seq<char>
    decreases texts.len(),
{
    if texts.len() == 0 {
        Seq::empty()
    } else {
        texts[0] + together(texts.drop_first())
    }
}

/// The segments of the object key for an encoded collection and an encoded key.
pub open spec fn segments_of(collection: Seq<char>, key: Seq<char>) -> Seq<Seq<char>> {
    seq!["okv1"@, decimal(collection.len())] + chunk_list(collection) + seq!["key"@] + chunk_list(
        key,
    )
}

/// The object key for an encoded collection and an encoded key.
pub open spec fn joined_key(collection: Seq<char>, key: Seq<char>) -> Seq<char> {
    join(segments_of(collection, key), '/')
}

/// The encoded form of a collection.
pub open spec fn encoded_collection(collection: Seq<char>) -> Seq<char> {
    base64url(encode_utf8(framed(collection)))
}

/// The encoded form of a key.
pub open spec fn encoded_key(key: Seq<char>) -> Seq<char> {
    base64url(encode_utf8(key))
}

/// How long a text of `n` characters is with a slash between its segments.
pub open spec fn chunked_len(n: nat) -> nat {
    if n == 0 {
        0
    } else {
        n + ((n - 1) / 200) as nat
    }
}

/// How long what comes before the key is in the object keys of a collection.
pub open spec fn prefix_len(collection: Seq<char>) -> nat {
    let n = unpadded_len(encode_utf8(framed(collection)).len());
    11 + decimal(n).len() + chunked_len(n)
}

/// How long the object key of a collection and a key is.
pub open spec fn object_len(collection: Seq<char>, key: Seq<char>) -> nat {
    prefix_len(collection) + chunked_len(unpadded_len(encode_utf8(key).len()))
}

/// What making the prefix of a collection's object keys gives.
pub open spec fn prefix_outcome(collection: Seq<char>) -> Outcome<Seq<char>> {
    if prefix_len(collection) > MAX_KEY_BYTES {
        Err(
            ErrorModel::InvalidKey(
                "encoded S3 collection prefix is "@ + decimal(prefix_len(collection))
                    + " bytes (max 1024)"@,
            ),
        )
    } else {
        Ok(joined_key(encoded_collection(collection), Seq::empty()))
    }
}

/// The error for an object key that is too long.
pub open spec fn too_long(len: nat) -> ErrorModel {
    ErrorModel::InvalidKey("encoded S3 object key is "@ + decimal(len) + " bytes (max 1024)"@)
}

/// What making an object key gives.
pub open spec fn key_outcome(collection: Seq<char>, key: Seq<char>) -> Outcome<Seq<char>> {
    match prefix_outcome(collection) {
        Err(e) => Err(e),
        Ok(_) => if object_len(collection, key) > MAX_KEY_BYTES {
            Err(too_long(object_len(collection, key)))
        } else {
            Ok(joined_key(encoded_collection(collection), encoded_key(key)))
        },
    }
}

/// How many segments a text of `n` characters has.
pub open spec fn chunk_count(n: nat) -> nat {
    (n + 199) / 200
}

/// What the first `i` of a collection's segments give, where it is `len` characters long.
pub open spec fn collected(segments: Seq<Seq<char>>, len: nat, i: nat) -> Outcome<Seq<char>>
    decreases i,
{
    if i == 0 {
        Ok(Seq::empty())
    } else {
        match collected(segments, len, (i - 1) as nat) {
            Err(e) => Err(e),
            Ok(text) => {
                let expected = if i == chunk_count(len) {
                    len - (i - 1) * 200
                } else {
                    200
                };
                if segments.len() < 2 + i {
                    Err(
                        ErrorModel::InvalidKey(
                            "S3 object key has a truncated collection encoding"@,
                        ),
                    )
                } else if encode_utf8(segments[1 + i as int]).len() != expected {
                    Err(
                        ErrorModel::InvalidKey(
                            "S3 object key has non-canonical collection chunks"@,
                        ),
                    )
                } else {
                    Ok(text + segments[1 + i as int])
                }
            },
        }
    }
}

/// Whether segments are as a key is cut into them.
pub open spec fn key_chunks_ok(chunks: Seq<Seq<char>>) -> bool {
    &&& forall|i: int|
        0 <= i < chunks.len() - 1 ==> encode_utf8(#[trigger] chunks[i]).len() == 200
    &&& 0 < encode_utf8(chunks.last()).len() <= 200
}

/// What the segments behind the marker say the encoded key is.
pub open spec fn key_of_chunks(chunks: Seq<Seq<char>>) -> Outcome<Seq<char>> {
    if chunks.len() == 0 {
        Err(ErrorModel::InvalidKey("S3 object key is missing its key encoding"@))
    } else if chunks == seq![Seq::<char>::empty()] {
        Ok(Seq::empty())
    } else if !key_chunks_ok(chunks) {
        Err(ErrorModel::InvalidKey("S3 object key has non-canonical key chunks"@))
    } else {
        Ok(together(chunks))
    }
}

/// The collection that an encoded collection carries.
pub open spec fn collection_of(encoded: Seq<char>) -> Outcome<Seq<char>> {
    match base64url_decoded(encoded) {
        Err(_) => Err(ErrorModel::InvalidKey("S3 object key has an invalid collection encoding"@)),
        Ok(bytes) => if base64url(bytes) != encoded {
            Err(
                ErrorModel::InvalidKey("S3 object key has a non-canonical collection encoding"@),
            )
        } else if !valid_utf8(bytes) {
            Err(ErrorModel::InvalidKey("S3 object key collection is not valid UTF-8"@))
        } else {
            match decompound(decode_utf8(bytes)) {
                Err(e) => Err(e),
                Ok((collection, extra)) => if extra.len() != 0 {
                    Err(
                        ErrorModel::InvalidKey(
                            "S3 object key collection frame contains key data"@,
                        ),
                    )
                } else {
                    Ok(collection)
                },
            }
        },
    }
}

/// The key that an encoded key carries.
pub open spec fn key_of(encoded: Seq<char>) -> Outcome<Seq<char>> {
    match base64url_decoded(encoded) {
        Err(_) => Err(ErrorModel::InvalidKey("S3 object key has an invalid key encoding"@)),
        Ok(bytes) => if base64url(bytes) != encoded {
            Err(ErrorModel::InvalidKey("S3 object key has a non-canonical key encoding"@))
        } else if !valid_utf8(bytes) {
            Err(ErrorModel::InvalidKey("S3 object key is not valid UTF-8"@))
        } else {
            Ok(decode_utf8(bytes))
        },
    }
}

/// The length that a segment announces for the encoded collection.
pub open spec fn announced(segments: Seq<Seq<char>>, total: nat) -> Outcome<nat> {
    if segments[0] != "okv1"@ {
        Err(ErrorModel::InvalidKey("S3 object key has an invalid identity version"@))
    } else if segments.len() < 2 {
        Err(ErrorModel::InvalidKey("S3 object key is missing its collection length"@))
    } else {
        let digits = segments[1];
        if digits.len() == 0 || !all_digits(digits) || (digits.len() > 1 && digits[0] == '0') {
            Err(ErrorModel::InvalidKey("S3 object key has an invalid collection length"@))
        } else if decimal_value(digits) > usize::MAX {
            Err(ErrorModel::InvalidKey("S3 object key collection length is too large"@))
        } else if decimal_value(digits) == 0 {
            Err(ErrorModel::InvalidKey("S3 object key has an empty collection frame"@))
        } else if decimal_value(digits) > total {
            Err(ErrorModel::InvalidKey("S3 object key has a truncated collection encoding"@))
        } else {
            Ok(decimal_value(digits))
        }
    }
}

/// The encoded collection and the encoded key of an object key.
pub open spec fn taken_apart(object_key: Seq<char>) -> Outcome<(Seq<char>, Seq<char>)> {
    let total = encode_utf8(object_key).len();
    let segments = split(object_key, '/');
    if total > MAX_KEY_BYTES {
        Err(too_long(total))
    } else {
        match announced(segments, total) {
            Err(e) => Err(e),
            Ok(len) => {
                let count = chunk_count(len);
                match collected(segments, len, count) {
                    Err(e) => Err(e),
                    Ok(collection) => if segments.len() < 3 + count || segments[2 + count as int]
                        != "key"@ {
                        Err(ErrorModel::InvalidKey("S3 object key is missing its key marker"@))
                    } else {
                        match key_of_chunks(segments.skip(3 + count as int)) {
                            Err(e) => Err(e),
                            Ok(key) => Ok((collection, key)),
                        }
                    },
                }
            },
        }
    }
}

/// What reading an object key gives.
pub open spec fn decomposed(object_key: Seq<char>) -> Outcome<(Seq<char>, Seq<char>)> {
    match taken_apart(object_key) {
        Err(e) => Err(e),
        Ok((collection, key)) => match collection_of(collection) {
            Err(e) => Err(e),
            Ok(c) => match key_of(key) {
                Err(e) => Err(e),
                Ok(k) => Ok((c, k)),
            },
        },
    }
}

proof fn lemma_together_ascii(texts: Seq<Seq<char>>)
    requires
        is_ascii_chars(together(texts)),
    ensures
        forall|i: int|
            0 <= i < texts.len() ==> encode_utf8(#[trigger] texts[i]).len() == texts[i].len()
                && is_ascii_chars(texts[i]),
    decreases texts.len(),
{
    if texts.len() > 0 {
        let whole = together(texts);
        let rest = texts.drop_first();
        assert forall|j: int| 0 <= j < texts[0].len() implies '\0' <= #[trigger] texts[0][j]
            <= '\u{7f}' by {
            assert(whole[j] == texts[0][j]);
        }
        is_ascii_chars_encode_utf8(texts[0]);
        assert forall|j: int| 0 <= j < together(rest).len() implies '\0' <= #[trigger] together(
            rest,
        )[j] <= '\u{7f}' by {
            assert(whole[texts[0].len() + j] == together(rest)[j]);
        }
        lemma_together_ascii(rest);
        assert forall|i: int| 0 <= i < texts.len() implies encode_utf8(#[trigger] texts[i]).len()
            == texts[i].len() && is_ascii_chars(texts[i]) by {
            if i > 0 {
                assert(texts[i] == rest[i - 1]);
            }
        }
    }
}

proof fn lemma_chunk_list(text: Seq<char>)
    ensures
        together(chunk_list(text)) == text,
        text.len() > 0 ==> chunk_list(text).len() == chunk_count(text.len()),
        chunk_list(text).len() > 0,
        forall|i: int|
            0 <= i < chunk_list(text).len() - 1 ==> (#[trigger] chunk_list(text)[i]).len() == 200,
        text.len() > 0 ==> chunk_list(text).last().len() == text.len() - (chunk_list(text).len()
            - 1) * 200,
        chunk_list(text).last().len() <= 200,
        text.len() > 0 ==> chunk_list(text).last().len() > 0,
    decreases text.len(),
{
    reveal_with_fuel(together, 2);
    let list = chunk_list(text);
    if text.len() <= 200 {
        assert(list.drop_first() =~= Seq::empty());
        assert(together(list) =~= text);
    } else {
        let rest = text.skip(200);
        lemma_chunk_list(rest);
        assert(list.drop_first() =~= chunk_list(rest));
        assert(together(list) =~= text);
        assert forall|i: int| 0 <= i < list.len() - 1 implies (#[trigger] list[i]).len()
            == 200 by {
            if i > 0 {
                assert(list[i] == chunk_list(rest)[i - 1]);
            }
        }
        assert(list.last() == chunk_list(rest).last());
    }
}

/// Segments that are cut as a text is are the segments of what they make together.
proof fn lemma_chunks_unique(list: Seq<Seq<char>>)
    requires
        list.len() > 0,
        forall|i: int| 0 <= i < list.len() - 1 ==> (#[trigger] list[i]).len() == 200,
        list.last().len() <= 200,
        list.len() > 1 ==> list.last().len() > 0,
    ensures
        chunk_list(together(list)) == list,
    decreases list.len(),
{
    let rest = list.drop_first();
    if list.len() == 1 {
        assert(together(rest) =~= Seq::empty());
        assert(together(list) =~= list[0]);
        assert(list =~= seq![list[0]]);
    } else {
        assert forall|i: int| 0 <= i < rest.len() - 1 implies (#[trigger] rest[i]).len()
            == 200 by {
            assert(rest[i] == list[i + 1]);
        }
        assert(rest.last() == list.last());
        lemma_chunks_unique(rest);
        assert(list[0].len() == 200);
        lemma_together_len(rest);
        let text = together(list);
        assert(text.take(200) =~= list[0]);
        assert(text.skip(200) =~= together(rest));
        assert(chunk_list(text) =~= list);
    }
}

proof fn lemma_together_len(list: Seq<Seq<char>>)
    requires
        list.len() > 0,
    ensures
        together(list).len() >= list.last().len(),
    decreases list.len(),
{
    if list.len() > 1 {
        assert(list.drop_first().last() == list.last());
        lemma_together_len(list.drop_first());
    } else {
        assert(together(list.drop_first()) =~= Seq::empty());
    }
}

proof fn lemma_together_push(list: Seq<Seq<char>>, one: Seq<char>)
    ensures
        together(list.push(one)) == together(list) + one,
    decreases list.len(),
{
    reveal_with_fuel(together, 2);
    if list.len() == 0 {
        assert(list.push(one).drop_first() =~= Seq::empty());
        assert(together(list.push(one)) =~= together(list) + one);
    } else {
        assert(list.push(one).drop_first() =~= list.drop_first().push(one));
        lemma_together_push(list.drop_first(), one);
        assert(together(list.push(one)) =~= together(list) + one);
    }
}

/// The segments that gather to a text are the collection's segments.
proof fn lemma_collected(segments: Seq<Seq<char>>, len: nat, i: nat)
    requires
        segments.len() >= 2,
        collected(segments, len, i) is Ok,
    ensures
        segments.len() >= 2 + i,
        collected(segments, len, i)->Ok_0 == together(segments.subrange(2, 2 + i as int)),
        forall|j: int|
            0 <= j < i ==> encode_utf8(#[trigger] segments[2 + j]).len() == if j + 1
                == chunk_count(len) {
                len - j * 200
            } else {
                200
            },
    decreases i,
{
    if i == 0 {
        assert(segments.subrange(2, 2) =~= Seq::empty());
    } else {
        lemma_collected(segments, len, (i - 1) as nat);
        let front = segments.subrange(2, 1 + i as int);
        lemma_together_push(front, segments[1 + i as int]);
        assert(segments.subrange(2, 2 + i as int) =~= front.push(segments[1 + i as int]));
    }
}

proof fn lemma_join_push(list: Seq<Seq<char>>, one: Seq<char>)
    requires
        list.len() > 0,
    ensures
        join(list.push(one), '/') == join(list, '/') + seq!['/'] + one,
    decreases list.len(),
{
    reveal_with_fuel(join, 2);
    let whole = list.push(one);
    if list.len() == 1 {
        assert(whole.drop_first() =~= seq![one]);
        assert(join(whole, '/') =~= join(list, '/') + seq!['/'] + one);
    } else {
        assert(whole.drop_first() =~= list.drop_first().push(one));
        lemma_join_push(list.drop_first(), one);
        assert(join(whole, '/') =~= join(list, '/') + seq!['/'] + one);
    }
}

proof fn lemma_join_concat(a: Seq<Seq<char>>, b: Seq<Seq<char>>)
    requires
        a.len() > 0,
        b.len() > 0,
    ensures
        join(a + b, '/') == join(a, '/') + seq!['/'] + join(b, '/'),
    decreases a.len(),
{
    let whole = a + b;
    if a.len() == 1 {
        assert(whole.drop_first() =~= b);
        assert(join(whole, '/') =~= join(a, '/') + seq!['/'] + join(b, '/'));
    } else {
        assert(whole.drop_first() =~= a.drop_first() + b);
        lemma_join_concat(a.drop_first(), b);
        assert(join(whole, '/') =~= join(a, '/') + seq!['/'] + join(b, '/'));
    }
}

/// The object key is the prefix, which has no key yet, and the key's segments.
pub proof fn lemma_key_behind_prefix(collection: Seq<char>, key: Seq<char>)
    ensures
        joined_key(collection, key) == joined_key(collection, Seq::empty()) + join(
            chunk_list(key),
            '/',
        ),
{
    let front = seq!["okv1"@, decimal(collection.len())] + chunk_list(collection) + seq!["key"@];
    lemma_chunk_list(key);
    let nothing = Seq::<char>::empty();
    lemma_join_concat(front, chunk_list(key));
    lemma_join_concat(front, chunk_list(nothing));
    assert(chunk_list(nothing) =~= seq![nothing]);
    assert(join(chunk_list(nothing), '/') =~= nothing);
    assert(joined_key(collection, nothing) =~= join(front, '/') + seq!['/']);
    assert(joined_key(collection, key) =~= join(front, '/') + seq!['/'] + join(
        chunk_list(key),
        '/',
    ));
}

proof fn lemma_chunked_len(text: Seq<char>)
    ensures
        join(chunk_list(text), '/').len() == chunked_len(text.len()),
    decreases text.len(),
{
    if text.len() > 200 {
        let rest = text.skip(200);
        lemma_chunked_len(rest);
        let list = chunk_list(text);
        lemma_chunk_list(rest);
        assert(list.drop_first() =~= chunk_list(rest));
        assert((text.len() - 1) / 200 == 1 + (rest.len() - 1) / 200);
    }
}

proof fn lemma_prefix_shape(collection: Seq<char>)
    ensures
        joined_key(collection, Seq::empty()) == "okv1/"@ + decimal(collection.len()) + "/"@ + join(
            chunk_list(collection),
            '/',
        ) + "/key/"@,
        joined_key(collection, Seq::empty()).len() == 11 + decimal(collection.len()).len()
            + chunked_len(collection.len()),
{
    reveal_strlit("okv1");
    reveal_strlit("okv1/");
    reveal_strlit("key");
    reveal_strlit("/key/");
    reveal_strlit("/");
    reveal_with_fuel(join, 2);
    let nothing = Seq::<char>::empty();
    let head = seq!["okv1"@, decimal(collection.len())];
    let chunks = chunk_list(collection);
    lemma_chunk_list(collection);
    lemma_chunked_len(collection);
    assert(head.drop_first() =~= seq![decimal(collection.len())]);
    assert(join(head, '/') =~= "okv1"@ + seq!['/'] + decimal(collection.len()));
    lemma_join_concat(head, chunks);
    lemma_join_push(head + chunks, "key"@);
    assert((head + chunks).push("key"@) =~= head + chunks + seq!["key"@]);
    lemma_join_push(head + chunks + seq!["key"@], nothing);
    assert(chunk_list(nothing) =~= seq![nothing]);
    assert(segments_of(collection, nothing) =~= (head + chunks + seq!["key"@]).push(nothing));
    assert(joined_key(collection, nothing) =~= "okv1/"@ + decimal(collection.len()) + "/"@ + join(
        chunks,
        '/',
    ) + "/key/"@);
}

proof fn lemma_url_free(text: Seq<char>)
    requires
        forall|i: int| 0 <= i < text.len() ==> is_url_char(#[trigger] text[i]),
    ensures
        is_ascii_chars(text),
        free_of(chunk_list(text), '/'),
        forall|i: int| 0 <= i < chunk_list(text).len() ==> is_ascii_chars(
            #[trigger] chunk_list(text)[i],
        ),
    decreases text.len(),
{
    assert forall|i: int| 0 <= i < text.len() implies '\0' <= #[trigger] text[i] <= '\u{7f}' by {
        assert(is_url_char(text[i]));
    }
    let list = chunk_list(text);
    if text.len() <= 200 {
        assert forall|i: int| 0 <= i < list.len() implies !(#[trigger] list[i]).contains('/')
            && is_ascii_chars(list[i]) by {
            assert(list[i] == text);
            if text.contains('/') {
                let j = choose|j: int| 0 <= j < text.len() && text[j] == '/';
                assert(is_url_char(text[j]));
            }
        }
    } else {
        let rest = text.skip(200);
        let first = text.take(200);
        assert forall|i: int| 0 <= i < rest.len() implies is_url_char(#[trigger] rest[i]) by {
            assert(rest[i] == text[i + 200]);
        }
        lemma_url_free(rest);
        assert forall|i: int| 0 <= i < list.len() implies !(#[trigger] list[i]).contains('/')
            && is_ascii_chars(list[i]) by {
            if i > 0 {
                assert(list[i] == chunk_list(rest)[i - 1]);
            } else {
                assert(list[0] == first);
                assert forall|j: int| 0 <= j < first.len() implies '\0' <= #[trigger] first[j]
                    <= '\u{7f}' && first[j] != '/' by {
                    assert(first[j] == text[j]);
                    assert(is_url_char(text[j]));
                }
            }
        }
    }
}

proof fn lemma_chunked_ascii(text: Seq<char>)
    requires
        is_ascii_chars(text),
    ensures
        is_ascii_chars(join(chunk_list(text), '/')),
    decreases text.len(),
{
    let j = join(chunk_list(text), '/');
    if text.len() > 200 {
        let rest = text.skip(200);
        assert forall|i: int| 0 <= i < rest.len() implies '\0' <= #[trigger] rest[i]
            <= '\u{7f}' by {
            assert(rest[i] == text[i + 200]);
        }
        lemma_chunked_ascii(rest);
        lemma_chunk_list(rest);
        let list = chunk_list(text);
        assert(list.drop_first() =~= chunk_list(rest));
        let tail = join(chunk_list(rest), '/');
        assert(j =~= text.take(200) + seq!['/'] + tail);
        assert forall|i: int| 0 <= i < j.len() implies '\0' <= #[trigger] j[i] <= '\u{7f}' by {
            if i < 200 {
                assert(j[i] == text[i]);
            } else if i > 200 {
                assert(j[i] == tail[i - 201]);
            }
        }
    }
}

proof fn lemma_joined_ascii(collection: Seq<char>, key: Seq<char>)
    requires
        forall|i: int| 0 <= i < collection.len() ==> is_url_char(#[trigger] collection[i]),
        forall|i: int| 0 <= i < key.len() ==> is_url_char(#[trigger] key[i]),
    ensures
        is_ascii_chars(joined_key(collection, key)),
        joined_key(collection, key).len() == 11 + decimal(collection.len()).len() + chunked_len(
            collection.len(),
        ) + chunked_len(key.len()),
{
    reveal_strlit("okv1/");
    reveal_strlit("/key/");
    reveal_strlit("/");
    lemma_url_free(collection);
    lemma_url_free(key);
    lemma_chunked_ascii(collection);
    lemma_chunked_ascii(key);
    lemma_prefix_shape(collection);
    lemma_key_behind_prefix(collection, key);
    lemma_chunked_len(key);
    lemma_decimal_canonical(collection.len());
    let d = decimal(collection.len());
    assert forall|i: int| 0 <= i < d.len() implies '\0' <= #[trigger] d[i] <= '\u{7f}' by {
        assert(is_digit(d[i]));
    }
    let chunks = join(chunk_list(collection), '/');
    let tail = join(chunk_list(key), '/');
    lemma_ascii_concat("okv1/"@, d);
    lemma_ascii_concat("okv1/"@ + d, "/"@);
    lemma_ascii_concat("okv1/"@ + d + "/"@, chunks);
    lemma_ascii_concat("okv1/"@ + d + "/"@ + chunks, "/key/"@);
    lemma_ascii_concat(joined_key(collection, Seq::empty()), tail);
}

proof fn lemma_ascii_concat(a: Seq<char>, b: Seq<char>)
    requires
        is_ascii_chars(a),
        is_ascii_chars(b),
    ensures
        is_ascii_chars(a + b),
{
    assert forall|i: int| 0 <= i < (a + b).len() implies '\0' <= #[trigger] (a + b)[i]
        <= '\u{7f}' by {
        if i < a.len() {
            assert((a + b)[i] == a[i]);
        } else {
            assert((a + b)[i] == b[i - a.len()]);
        }
    }
}

proof fn lemma_segments_free(collection: Seq<char>, key: Seq<char>)
    requires
        forall|i: int| 0 <= i < collection.len() ==> is_url_char(#[trigger] collection[i]),
        forall|i: int| 0 <= i < key.len() ==> is_url_char(#[trigger] key[i]),
    ensures
        free_of(segments_of(collection, key), '/'),
{
    reveal_strlit("okv1");
    reveal_strlit("key");
    lemma_url_free(collection);
    lemma_url_free(key);
    lemma_decimal_canonical(collection.len());
    let d = decimal(collection.len());
    let a = chunk_list(collection);
    let b = chunk_list(key);
    let all = segments_of(collection, key);
    assert forall|i: int| 0 <= i < all.len() implies !(#[trigger] all[i]).contains('/') by {
        if i == 0 {
            assert(all[i] == "okv1"@);
        } else if i == 1 {
            assert(all[i] == d);
            if d.contains('/') {
                let j = choose|j: int| 0 <= j < d.len() && d[j] == '/';
                assert(is_digit(d[j]));
            }
        } else if i < 2 + a.len() {
            assert(all[i] == a[i - 2]);
        } else if i == 2 + a.len() {
            assert(all[i] == "key"@);
        } else {
            assert(all[i] == b[i - 3 - a.len()]);
        }
    }
}

proof fn lemma_collects(collection: Seq<char>, key: Seq<char>, i: nat)
    requires
        collection.len() > 0,
        is_ascii_chars(collection),
        i <= chunk_count(collection.len()),
    ensures
        collected(segments_of(collection, key), collection.len(), i) == Ok::<_, ErrorModel>(
            together(chunk_list(collection).take(i as int)),
        ),
    decreases i,
{
    let list = chunk_list(collection);
    let segments = segments_of(collection, key);
    lemma_chunk_list(collection);
    lemma_together_ascii(list);
    if i == 0 {
        assert(list.take(0) =~= Seq::empty());
    } else {
        lemma_collects(collection, key, (i - 1) as nat);
        assert(segments[1 + i as int] == list[i - 1]);
        assert(encode_utf8(list[i - 1]).len() == list[i - 1].len());
        lemma_together_push(list.take(i - 1), list[i - 1]);
        assert(list.take(i as int) =~= list.take(i - 1).push(list[i - 1]));
        if i == list.len() {
            assert(list[i - 1] == list.last());
        }
    }
}

proof fn lemma_taken_apart(collection: Seq<char>, key: Seq<char>)
    requires
        collection.len() > 0,
        forall|i: int| 0 <= i < collection.len() ==> is_url_char(#[trigger] collection[i]),
        forall|i: int| 0 <= i < key.len() ==> is_url_char(#[trigger] key[i]),
        joined_key(collection, key).len() <= MAX_KEY_BYTES,
    ensures
        taken_apart(joined_key(collection, key)) == Ok::<_, ErrorModel>((collection, key)),
{
    let object_key = joined_key(collection, key);
    let segments = segments_of(collection, key);
    let list = chunk_list(collection);
    let tail = chunk_list(key);
    let count = chunk_count(collection.len());
    lemma_joined_ascii(collection, key);
    is_ascii_chars_encode_utf8(object_key);
    lemma_segments_free(collection, key);
    lemma_split_join(segments, '/');
    lemma_decimal_canonical(collection.len());
    lemma_url_free(collection);
    lemma_url_free(key);
    lemma_chunk_list(collection);
    lemma_chunk_list(key);
    assert(segments[0] == "okv1"@);
    assert(segments[1] == decimal(collection.len()));
    lemma_collects(collection, key, count);
    assert(list.take(count as int) =~= list);
    assert(segments[2 + count as int] == "key"@);
    assert(segments.skip(3 + count as int) =~= tail);
    if key.len() == 0 {
        assert(key =~= Seq::<char>::empty());
        assert(tail =~= seq![Seq::<char>::empty()]);
    } else {
        lemma_together_ascii(tail);
        assert(tail.last() == tail[tail.len() - 1]);
        if tail == seq![Seq::<char>::empty()] {
            assert(tail.last().len() == 0);
        }
    }
}

proof fn lemma_sum(list: Seq<Seq<char>>, len: nat)
    requires
        list.len() > 0,
        forall|i: int| 0 <= i < list.len() - 1 ==> (#[trigger] list[i]).len() == 200,
        list.last().len() == len - (list.len() - 1) * 200,
    ensures
        together(list).len() == len,
    decreases list.len(),
{
    let rest = list.drop_first();
    if list.len() == 1 {
        assert(together(rest) =~= Seq::empty());
    } else {
        assert forall|i: int| 0 <= i < rest.len() - 1 implies (#[trigger] rest[i]).len()
            == 200 by {
            assert(rest[i] == list[i + 1]);
        }
        assert(rest.last() == list.last());
        assert(list[0].len() == 200);
        lemma_together_len(rest);
        assert(list.last().len() == len - (list.len() - 1) * 200);
        lemma_sum(rest, (len - 200) as nat);
    }
}

proof fn lemma_taken_apart_exact(object_key: Seq<char>)
    ensures
        taken_apart(object_key) matches Ok((collection, key)) ==> (is_ascii_chars(collection)
            && is_ascii_chars(key) ==> object_key == joined_key(collection, key)),
{
    if let Ok((collection, key)) = taken_apart(object_key) {
        if is_ascii_chars(collection) && is_ascii_chars(key) {
            let segments = split(object_key, '/');
            let total = encode_utf8(object_key).len();
            let len = announced(segments, total)->Ok_0;
            let count = chunk_count(len);
            lemma_join_split(object_key, '/');
            lemma_collected(segments, len, count);
            let list = segments.subrange(2, 2 + count as int);
            lemma_together_ascii(list);
            assert(count >= 1);
            assert forall|j: int| 0 <= j < list.len() implies (#[trigger] list[j]).len() == if j
                + 1 == count {
                len - j * 200
            } else {
                200
            } by {
                assert(list[j] == segments[2 + j]);
                assert(encode_utf8(segments[2 + j]).len() == list[j].len());
            }
            assert(list.last() == list[count - 1]);
            assert(len - (count - 1) * 200 <= 200 && len - (count - 1) * 200 > 0) by {
                assert(count == (len + 199) / 200);
            }
            lemma_chunks_unique(list);
            lemma_sum(list, len);
            assert(chunk_list(collection) == list);
            assert(collection.len() == len);
            lemma_canonical_decimal(segments[1]);
            assert(segments[1] == decimal(collection.len()));
            let tail = segments.skip(3 + count as int);
            if tail == seq![Seq::<char>::empty()] {
                assert(chunk_list(key) =~= tail);
            } else {
                lemma_together_ascii(tail);
                assert(tail.last() == tail[tail.len() - 1]);
                assert forall|j: int| 0 <= j < tail.len() - 1 implies (#[trigger] tail[j]).len()
                    == 200 by {
                    assert(encode_utf8(tail[j]).len() == 200);
                }
                lemma_chunks_unique(tail);
                assert(chunk_list(key) == tail);
            }
            assert(segments =~= segments_of(collection, key));
        }
    }
}

/// Appends a text in segments of 200 characters, with slashes between them.
fn append_chunked(out: &mut String, text: &str)
    requires
        is_ascii_chars(text@),
    ensures
        final(out)@ == old(out)@ + join(chunk_list(text@), '/'),
{
    proof {
        is_ascii_chars_encode_utf8(text@);
    }
    let total: usize = text.as_bytes().len();
    let ghost start = out@;
    let mut at: usize = 0;
    proof {
        assert(text@.skip(0) =~= text@);
    }
    while total - at > 200
        invariant
            at <= total == text@.len(),
            is_ascii_chars(text@),
            out@ + join(chunk_list(text@.skip(at as int)), '/') == start + join(
                chunk_list(text@),
                '/',
            ),
        decreases total - at,
    {
        let ghost before = out@;
        let ghost rest = text@.skip(at as int);
        out.append(text.substring_ascii(at, at + 200));
        out.append("/");
        proof {
            reveal_strlit("/");
            let next = text@.skip(at + 200);
            assert(rest.skip(200) =~= next);
            assert(rest.take(200) =~= text@.subrange(at as int, at + 200));
            lemma_chunk_list(next);
            assert(chunk_list(rest).drop_first() =~= chunk_list(next));
            assert(join(chunk_list(rest), '/') =~= rest.take(200) + seq!['/'] + join(
                chunk_list(next),
                '/',
            ));
            assert("/"@ =~= seq!['/']);
            assert(out@ + join(chunk_list(next), '/') =~= before + join(chunk_list(rest), '/'));
        }
        at += 200;
    }
    out.append(text.substring_ascii(at, total));
    proof {
        assert(text@.subrange(at as int, total as int) =~= text@.skip(at as int));
        assert(out@ =~= start + join(chunk_list(text@), '/'));
    }
}

/// The number of characters that `bytes` bytes take, with a slash between the segments.
fn chunked_size(bytes: usize) -> (size: u128)
    ensures
        size == chunked_len(unpadded_len(bytes as nat)),
{
    let n: u128 = (bytes as u128 * 4 + 2) / 3;
    if n == 0 {
        0
    } else {
        n + (n - 1) / 200
    }
}

fn prefix_size(frame_bytes: usize) -> (size: u128)
    ensures
        size == 11 + decimal(unpadded_len(frame_bytes as nat)).len() + chunked_len(
            unpadded_len(frame_bytes as nat),
        ),
{
    let n: u128 = (frame_bytes as u128 * 4 + 2) / 3;
    let digits = wide_decimal_string(n);
    proof {
        lemma_decimal_canonical(n as nat);
        assert forall|i: int| 0 <= i < digits@.len() implies '\0' <= #[trigger] digits@[i]
            <= '\u{7f}' by {
            assert(is_digit(digits@[i]));
        }
        is_ascii_chars_encode_utf8(digits@);
    }
    let width: usize = digits.as_str().as_bytes().len();
    chunked_size(frame_bytes) + 11 + width as u128
}

/// What every object key of a collection starts with.
pub fn s3_collection_prefix(collection: &str) -> (prefix: Result<String>)
    ensures
        match prefix {
            Ok(p) => prefix_outcome(collection@) == Ok::<_, ErrorModel>(p@),
            Err(e) => prefix_outcome(collection@) == Err::<Seq<char>, _>(e@),
        },
{
    match encoded_prefix(collection) {
        Ok((prefix, _)) => Ok(prefix),
        Err(e) => Err(e),
    }
}

/// The prefix of a collection's object keys, and the encoded collection.
fn encoded_prefix(collection: &str) -> (prefix: Result<(String, String)>)
    ensures
        match prefix {
            Ok((p, enc)) => {
                &&& prefix_outcome(collection@) == Ok::<_, ErrorModel>(p@)
                &&& enc@ == encoded_collection(collection@)
                &&& enc@.len() > 0
                &&& p@.len() == prefix_len(collection@)
                &&& forall|i: int| 0 <= i < enc@.len() ==> is_url_char(#[trigger] enc@[i])
                &&& collection_of(enc@) == Ok::<_, ErrorModel>(collection@)
                &&& enc@.len() == unpadded_len(encode_utf8(framed(collection@)).len())
            },
            Err(e) => prefix_outcome(collection@) == Err::<Seq<char>, _>(e@),
        },
{
    let frame = collection_prefix(collection);
    let bytes = frame.as_str().as_bytes();
    let size: u128 = prefix_size(bytes.len());
    if size > MAX_KEY_BYTES as u128 {
        let mut message = concat(
            "encoded S3 collection prefix is ",
            wide_decimal_string(size).as_str(),
        );
        message.append(" bytes (max 1024)");
        return Err(Error::InvalidKey(message));
    }
    let encoded = encode_url(bytes);
    proof {
        lemma_encode_len(frame@);
        lemma_decimal_canonical(encode_utf8(collection@).len());
        assert(frame@.len() > 0);
        assert(frame@ =~= compound(collection@, Seq::empty()));
        lemma_frame_bound(collection@);
        law_compound_roundtrip(collection@, Seq::empty());
        encode_utf8_valid_utf8(frame@);
        encode_utf8_decode_utf8(frame@);
        lemma_url_free(encoded@);
        is_ascii_chars_encode_utf8(encoded@);
        lemma_prefix_shape(encoded@);
    }
    let mut prefix = concat("okv1/", decimal_string(encoded.as_str().as_bytes().len() as u64).as_str());
    prefix.append("/");
    append_chunked(&mut prefix, encoded.as_str());
    prefix.append("/key/");
    Ok((prefix, encoded))
}

proof fn lemma_frame_bound(collection: Seq<char>)
    ensures
        encode_utf8(framed(collection)).len() >= encode_utf8(collection).len(),
{
    let head = decimal(encode_utf8(collection).len()) + seq![':'];
    lemma_encode_concat(head, collection);
}

fn too_long_error(len: u128) -> (error: Error)
    ensures
        error@ == too_long(len as nat),
{
    let mut message = concat("encoded S3 object key is ", wide_decimal_string(len).as_str());
    message.append(" bytes (max 1024)");
    Error::InvalidKey(message)
}

/// The object key of a collection and a key. It reads back as these.
pub fn s3_key(collection: &str, key: &str) -> (object_key: Result<String>)
    ensures
        match object_key {
            Ok(k) => {
                &&& key_outcome(collection@, key@) == Ok::<_, ErrorModel>(k@)
                &&& decomposed(k@) == Ok::<_, ErrorModel>((collection@, key@))
                &&& encode_utf8(k@).len() <= MAX_KEY_BYTES
            },
            Err(e) => key_outcome(collection@, key@) == Err::<Seq<char>, _>(e@),
        },
{
    let (prefix, collection_text) = encoded_prefix(collection)?;
    let bytes = key.as_bytes();
    let frame_bytes: usize = collection_prefix(collection).as_str().as_bytes().len();
    let size: u128 = prefix_size(frame_bytes) + chunked_size(bytes.len());
    if size > MAX_KEY_BYTES as u128 {
        return Err(too_long_error(size));
    }
    let encoded = encode_url(bytes);
    let mut object_key = prefix;
    proof {
        lemma_url_free(encoded@);
        lemma_key_behind_prefix(collection_text@, encoded@);
    }
    append_chunked(&mut object_key, encoded.as_str());
    proof {
        lemma_joined_ascii(collection_text@, encoded@);
        is_ascii_chars_encode_utf8(object_key@);
        lemma_taken_apart(collection_text@, encoded@);
        encode_utf8_valid_utf8(key@);
        encode_utf8_decode_utf8(key@);
    }
    Ok(object_key)
}

fn key_error(message: &str) -> (error: Error)
    ensures
        error@ == ErrorModel::InvalidKey(message@),
{
    Error::InvalidKey(message.to_owned())
}

/// The length that an object key announces for its encoded collection.
fn read_announced<'a>(segments: &Vec<&'a str>, total: usize) -> (len: Result<usize>)
    requires
        segments@.len() > 0,
    ensures
        ({
            let models = segments@.map_values(|t: &'a str| t@);
            match len {
                Ok(n) => announced(models, total as nat) == Ok::<_, ErrorModel>(n as nat),
                Err(e) => announced(models, total as nat) == Err::<nat, _>(e@),
            }
        }),
{
    let ghost models = segments@.map_values(|t: &'a str| t@);
    assert(models[0] == segments@[0]@);
    if !str_eq(segments[0], "okv1") {
        return Err(key_error("S3 object key has an invalid identity version"));
    }
    if segments.len() < 2 {
        return Err(key_error("S3 object key is missing its collection length"));
    }
    let digits = segments[1];
    assert(models[1] == digits@);
    if digits.is_empty() || !is_all_digits(digits) {
        return Err(key_error("S3 object key has an invalid collection length"));
    }
    proof {
        assert forall|j: int| 0 <= j < digits@.len() implies '\0' <= #[trigger] digits@[j]
            <= '\u{7f}' by {
            assert(is_digit(digits@[j]));
        }
        is_ascii_chars_encode_utf8(digits@);
    }
    if digits.as_bytes().len() > 1 && digits.as_bytes()[0] == ZERO {
        return Err(key_error("S3 object key has an invalid collection length"));
    }
    let len: usize = match parse_digits(digits) {
        Some(n) if n <= usize::MAX as u64 => n as usize,
        _ => {
            return Err(key_error("S3 object key collection length is too large"));
        },
    };
    if len == 0 {
        return Err(key_error("S3 object key has an empty collection frame"));
    }
    if len > total {
        return Err(key_error("S3 object key has a truncated collection encoding"));
    }
    Ok(len)
}

proof fn lemma_collected_prefix(segments: Seq<Seq<char>>, len: nat, k: nat, n: nat)
    requires
        k <= n,
        collected(segments, len, k) is Err,
    ensures
        collected(segments, len, n) == collected(segments, len, k),
    decreases n - k,
{
    if k < n {
        lemma_collected_prefix(segments, len, k, (n - 1) as nat);
    }
}

/// Gathers the segments of the encoded collection.
fn read_collection<'a>(segments: &Vec<&'a str>, len: usize, count: usize) -> (text: Result<String>)
    requires
        count == chunk_count(len as nat),
        segments@.len() >= 2,
        len <= MAX_KEY_BYTES,
    ensures
        ({
            let models = segments@.map_values(|t: &'a str| t@);
            match text {
                Ok(t) => collected(models, len as nat, count as nat) == Ok::<_, ErrorModel>(t@),
                Err(e) => collected(models, len as nat, count as nat) == Err::<Seq<char>, _>(e@),
            }
        }),
{
    let ghost models = segments@.map_values(|t: &'a str| t@);
    let mut text = String::new();
    let mut i: usize = 0;
    while i < count
        invariant
            i <= count,
            count == chunk_count(len as nat),
            len <= MAX_KEY_BYTES,
            models == segments@.map_values(|t: &'a str| t@),
            collected(models, len as nat, i as nat) == Ok::<_, ErrorModel>(text@),
        decreases count - i,
    {
        proof {
            if collected(models, len as nat, (i + 1) as nat) is Err {
                lemma_collected_prefix(models, len as nat, (i + 1) as nat, count as nat);
            }
        }
        if segments.len() < 3 + i {
            return Err(key_error("S3 object key has a truncated collection encoding"));
        }
        let chunk = segments[2 + i];
        assert(models[2 + i] == chunk@);
        let expected: usize = if i + 1 == count {
            len - i * 200
        } else {
            200
        };
        if chunk.as_bytes().len() != expected {
            return Err(key_error("S3 object key has non-canonical collection chunks"));
        }
        text.append(chunk);
        i += 1;
    }
    Ok(text)
}

/// Gathers the segments of the encoded key, which start at `from`.
fn read_key<'a>(segments: &Vec<&'a str>, from: usize) -> (text: Result<String>)
    requires
        from <= segments@.len(),
    ensures
        ({
            let chunks = segments@.map_values(|t: &'a str| t@).skip(from as int);
            match text {
                Ok(t) => key_of_chunks(chunks) == Ok::<_, ErrorModel>(t@),
                Err(e) => key_of_chunks(chunks) == Err::<Seq<char>, _>(e@),
            }
        }),
{
    let ghost models = segments@.map_values(|t: &'a str| t@);
    let ghost chunks = models.skip(from as int);
    let total: usize = segments.len();
    if from == total {
        return Err(key_error("S3 object key is missing its key encoding"));
    }
    if total - from == 1 && segments[from].is_empty() {
        proof {
            assert(chunks[0] == segments@[from as int]@);
            assert(chunks[0] =~= Seq::<char>::empty());
            assert(chunks =~= seq![Seq::<char>::empty()]);
        }
        return Ok(String::new());
    }
    proof {
        if chunks == seq![Seq::<char>::empty()] {
            assert(chunks.len() == 1);
            assert(chunks[0] == segments@[from as int]@);
        }
    }
    let mut text = String::new();
    let mut i: usize = from;
    proof {
        assert(chunks.take(0) =~= Seq::empty());
    }
    while i < total
        invariant
            from <= i <= total == segments@.len(),
            from < total,
            models == segments@.map_values(|t: &'a str| t@),
            chunks == models.skip(from as int),
            chunks != seq![Seq::<char>::empty()],
            text@ == together(chunks.take(i - from)),
            forall|j: int|
                0 <= j < i - from && j < chunks.len() - 1 ==> encode_utf8(
                    #[trigger] chunks[j],
                ).len() == 200,
            i == total ==> 0 < encode_utf8(chunks.last()).len() <= 200,
        decreases total - i,
    {
        let chunk = segments[i];
        let size: usize = chunk.as_bytes().len();
        let last = i + 1 == total;
        proof {
            assert(chunks[i - from] == chunk@);
            if last {
                assert(chunks.last() == chunk@);
            }
        }
        if size == 0 || (!last && size != 200) || (last && size > 200) {
            assert(!key_chunks_ok(chunks));
            return Err(key_error("S3 object key has non-canonical key chunks"));
        }
        text.append(chunk);
        proof {
            lemma_together_push(chunks.take(i - from), chunk@);
            assert(chunks.take(i + 1 - from) =~= chunks.take(i - from).push(chunk@));
        }
        i += 1;
    }
    proof {
        assert(chunks.take(i - from) =~= chunks);
    }
    Ok(text)
}

proof fn lemma_parts_bounded(object_key: Seq<char>)
    ensures
        taken_apart(object_key) matches Ok((collection, key)) ==> encode_utf8(collection).len()
            <= MAX_KEY_BYTES && encode_utf8(key).len() <= MAX_KEY_BYTES,
{
    if let Ok((collection, key)) = taken_apart(object_key) {
        let segments = split(object_key, '/');
        let total = encode_utf8(object_key).len();
        let len = announced(segments, total)->Ok_0;
        let count = chunk_count(len);
        lemma_join_split(object_key, '/');
        lemma_collected(segments, len, count);
        lemma_part_bytes(segments, 2, 2 + count as int);
        let tail = segments.skip(3 + count as int);
        lemma_part_bytes(segments, 3 + count as int, segments.len() as int);
        assert(segments.subrange(3 + count as int, segments.len() as int) =~= tail);
    }
}

proof fn lemma_join_bytes(segments: Seq<Seq<char>>)
    ensures
        encode_utf8(together(segments)).len() <= encode_utf8(join(segments, '/')).len(),
    decreases segments.len(),
{
    reveal_with_fuel(together, 2);
    if segments.len() == 1 {
        assert(segments.drop_first() =~= Seq::empty());
        assert(together(segments) =~= segments[0]);
    } else if segments.len() > 1 {
        let rest = segments.drop_first();
        lemma_join_bytes(rest);
        lemma_encode_concat(segments[0], together(rest));
        lemma_encode_concat(segments[0] + seq!['/'], join(rest, '/'));
        lemma_encode_concat(segments[0], seq!['/']);
    }
}

proof fn lemma_part_bytes(segments: Seq<Seq<char>>, from: int, to: int)
    requires
        0 <= from <= to <= segments.len(),
    ensures
        encode_utf8(together(segments.subrange(from, to))).len() <= encode_utf8(
            join(segments, '/'),
        ).len(),
{
    let a = segments.subrange(0, from);
    let b = segments.subrange(from, to);
    let c = segments.subrange(to, segments.len() as int);
    lemma_join_bytes(segments);
    assert(segments =~= a + (b + c));
    lemma_together_concat(a, b + c);
    lemma_together_concat(b, c);
    lemma_encode_concat(together(a), together(b + c));
    lemma_encode_concat(together(b), together(c));
}

proof fn lemma_together_concat(a: Seq<Seq<char>>, b: Seq<Seq<char>>)
    ensures
        together(a + b) == together(a) + together(b),
    decreases a.len(),
{
    if a.len() == 0 {
        assert(a + b =~= b);
        assert(together(a) + together(b) =~= together(b));
    } else {
        assert((a + b).drop_first() =~= a.drop_first() + b);
        lemma_together_concat(a.drop_first(), b);
        assert(together(a + b) =~= together(a) + together(b));
    }
}

/// The collection that an encoded collection carries.
fn read_encoded_collection(encoded: &str) -> (collection: Result<String>)
    requires
        encode_utf8(encoded@).len() <= MAX_KEY_BYTES,
    ensures
        match collection {
            Ok(c) => {
                &&& collection_of(encoded@) == Ok::<_, ErrorModel>(c@)
                &&& encoded@ == encoded_collection(c@)
                &&& encoded@.len() == unpadded_len(encode_utf8(framed(c@)).len())
                &&& forall|i: int|
                    0 <= i < encoded@.len() ==> is_url_char(#[trigger] encoded@[i])
            },
            Err(e) => collection_of(encoded@) == Err::<Seq<char>, _>(e@),
        },
{
    let bytes = match decode_url(encoded) {
        Ok(bytes) => bytes,
        Err(_) => {
            return Err(key_error("S3 object key has an invalid collection encoding"));
        },
    };
    let again = encode_url(bytes.as_slice());
    if !str_eq(again.as_str(), encoded) {
        return Err(key_error("S3 object key has a non-canonical collection encoding"));
    }
    let frame = match utf8_string(bytes) {
        Ok(frame) => frame,
        Err(_) => {
            return Err(key_error("S3 object key collection is not valid UTF-8"));
        },
    };
    proof {
        encode_utf8_decode_utf8(frame@);
        law_decompound_exact(frame@);
    }
    let (collection, extra) = decompound_key(frame.as_str())?;
    if !extra.is_empty() {
        return Err(key_error("S3 object key collection frame contains key data"));
    }
    proof {
        assert(frame@ =~= framed(collection@));
    }
    Ok(collection.to_owned())
}

/// The key that an encoded key carries.
fn read_encoded_key(encoded: &str) -> (key: Result<String>)
    requires
        encode_utf8(encoded@).len() <= MAX_KEY_BYTES,
    ensures
        match key {
            Ok(k) => {
                &&& key_of(encoded@) == Ok::<_, ErrorModel>(k@)
                &&& encoded@ == encoded_key(k@)
                &&& encoded@.len() == unpadded_len(encode_utf8(k@).len())
                &&& forall|i: int|
                    0 <= i < encoded@.len() ==> is_url_char(#[trigger] encoded@[i])
            },
            Err(e) => key_of(encoded@) == Err::<Seq<char>, _>(e@),
        },
{
    let bytes = match decode_url(encoded) {
        Ok(bytes) => bytes,
        Err(_) => {
            return Err(key_error("S3 object key has an invalid key encoding"));
        },
    };
    let again = encode_url(bytes.as_slice());
    if !str_eq(again.as_str(), encoded) {
        return Err(key_error("S3 object key has a non-canonical key encoding"));
    }
    match utf8_string(bytes) {
        Ok(key) => {
            proof {
                encode_utf8_decode_utf8(key@);
            }
            Ok(key)
        },
        Err(_) => Err(key_error("S3 object key is not valid UTF-8")),
    }
}

/// The collection and the key that an object key carries. Only the object key of these reads
/// as these.
pub fn decompose_s3_key(object_key: &str) -> (pair: Result<(String, String)>)
    ensures
        match pair {
            Ok((c, k)) => {
                &&& decomposed(object_key@) == Ok::<_, ErrorModel>((c@, k@))
                &&& key_outcome(c@, k@) == Ok::<_, ErrorModel>(object_key@)
            },
            Err(e) => decomposed(object_key@) == Err::<(Seq<char>, Seq<char>), _>(e@),
        },
{
    let total: usize = object_key.as_bytes().len();
    if total > MAX_KEY_BYTES {
        return Err(too_long_error(total as u128));
    }
    let segments = split_text(object_key, 47);
    let ghost models = segments@.map_values(|t: &str| t@);
    proof {
        lemma_join_split(object_key@, '/');
    }
    let len: usize = read_announced(&segments, total)?;
    let count: usize = (len + 199) / 200;
    let collection_text = read_collection(&segments, len, count)?;
    if segments.len() < 3 + count {
        return Err(key_error("S3 object key is missing its key marker"));
    }
    assert(models[2 + count] == segments@[2 + count]@);
    if !str_eq(segments[2 + count], "key") {
        return Err(key_error("S3 object key is missing its key marker"));
    }
    let key_text = read_key(&segments, 3 + count)?;
    proof {
        lemma_parts_bounded(object_key@);
    }
    let collection = read_encoded_collection(collection_text.as_str())?;
    let key = read_encoded_key(key_text.as_str())?;
    proof {
        lemma_url_free(collection_text@);
        lemma_url_free(key_text@);
        lemma_taken_apart_exact(object_key@);
        lemma_joined_ascii(collection_text@, key_text@);
        is_ascii_chars_encode_utf8(object_key@);
    }
    Ok((collection, key))
}

} // verus!
