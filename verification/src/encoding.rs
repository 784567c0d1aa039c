//! Base64 as the stores use it: the URL-safe alphabet without padding for identities, the
//! standard alphabet with padding for stored bytes.

use base64::engine::general_purpose::{STANDARD, URL_SAFE_NO_PAD};
use base64::Engine;
use vstd::prelude::*;
use vstd::utf8::{encode_utf8, is_ascii_chars};

verus! {

/// Whether a character belongs to the URL-safe alphabet.
pub open spec fn is_url_char(c: char) -> bool {
    'a' <= c <= 'z' || 'A' <= c <= 'Z' || '0' <= c <= '9' || c == '-' || c == '_'
}

/// How many characters encode `n` bytes without padding.
pub open spec fn unpadded_len(n: nat) -> nat {
    (4 * n + 2) / 3
}

/// How many characters encode `n` bytes with padding.
pub open spec fn padded_len(n: nat) -> nat {
    (n + 2) / 3 * 4
}

/// Whether the text for `n` bytes can be held in memory.
pub open spec fn encodable(n: nat) -> bool {
    padded_len(n) <= isize::MAX
}

/// The URL-safe text of bytes, without padding.
pub uninterp spec fn base64url(bytes: Seq<u8>) -> Seq<char>;

/// The bytes of a URL-safe text without padding, or why there are none.
pub uninterp spec fn base64url_decoded(text: Seq<char>) -> Result<Seq<u8>, Seq<char>>;

/// The standard text of bytes, with padding.
pub uninterp spec fn base64(bytes: Seq<u8>) -> Seq<char>;

/// The bytes of a standard text with padding, or why there are none.
pub uninterp spec fn base64_decoded(text: Seq<char>) -> Result<Seq<u8>, Seq<char>>;

/// Whether a URL-safe text decodes to bytes.
pub open spec fn url_decodes_to(text: Seq<char>, bytes: Seq<u8>) -> bool {
    base64url_decoded(text) matches Ok(back) && back == bytes
}

/// Whether a standard text decodes to bytes.
pub open spec fn decodes_to(text: Seq<char>, bytes: Seq<u8>) -> bool {
    base64_decoded(text) matches Ok(back) && back == bytes
}

/// `base64::Engine::encode` with `URL_SAFE_NO_PAD` writes four characters for three bytes,
/// two for one left over and three for two, all of the URL-safe alphabet; the same engine
/// decodes the text to the bytes again.
#[verifier::external_body]
pub(crate) fn encode_url(bytes: &[u8]) -> (text: String)
    requires
        encodable(bytes@.len()),
    ensures
        text@ == base64url(bytes@),
        text@.len() == unpadded_len(bytes@.len()),
        forall|i: int| 0 <= i < text@.len() ==> is_url_char(#[trigger] text@[i]),
        url_decodes_to(text@, bytes@),
{
    URL_SAFE_NO_PAD.encode(bytes)
}

/// `base64::Engine::decode` with `URL_SAFE_NO_PAD` gives bytes or an error that shows as a
/// text, by the input alone; bytes never need more characters than were read.
#[verifier::external_body]
pub(crate) fn decode_url(text: &str) -> (bytes: Result<Vec<u8>, String>)
    ensures
        match bytes {
            Ok(b) => base64url_decoded(text@) matches Ok(c) && c == b@ && unpadded_len(b@.len())
                <= encode_utf8(text@).len(),
            Err(e) => base64url_decoded(text@) matches Err(c) && c == e@,
        },
{
    URL_SAFE_NO_PAD.decode(text).map_err(|error| error.to_string())
}

/// `base64::Engine::encode` with `STANDARD` writes four characters, padding included, for
/// three bytes or what is left over; the same engine decodes the text to the bytes again.
#[verifier::external_body]
pub(crate) fn encode_standard(bytes: &[u8]) -> (text: String)
    requires
        encodable(bytes@.len()),
    ensures
        text@ == base64(bytes@),
        text@.len() == padded_len(bytes@.len()),
        is_ascii_chars(text@),
        decodes_to(text@, bytes@),
{
    STANDARD.encode(bytes)
}

/// `base64::Engine::decode` with `STANDARD` gives bytes or an error that shows as a text, by
/// the input alone; bytes never need more characters than were read.
#[verifier::external_body]
pub(crate) fn decode_standard(text: &str) -> (bytes: Result<Vec<u8>, String>)
    ensures
        match bytes {
            Ok(b) => base64_decoded(text@) matches Ok(c) && c == b@ && padded_len(b@.len())
                <= encode_utf8(text@).len(),
            Err(e) => base64_decoded(text@) matches Err(c) && c == e@,
        },
{
    STANDARD.decode(text).map_err(|error| error.to_string())
}

} // verus!
