//! The digest that shortens names.

use crate::hex::is_lower_hex;
use vstd::prelude::*;

verus! {

/// The BLAKE3 digest of `bytes` in hexadecimal.
pub uninterp spec fn blake3_hex(bytes: Seq<u8>) -> Seq<char>;

/// `blake3::hash` computes a 32-byte digest, and `Hash::to_hex` writes it as 64 lowercase
/// hexadecimal characters.
#[verifier::external_body]
pub(crate) fn digest_hex(bytes: &[u8]) -> (text: String)
    ensures
        text@ == blake3_hex(bytes@),
        text@.len() == 64,
        forall|i: int| 0 <= i < text@.len() ==> is_lower_hex(#[trigger] text@[i]),
{
    blake3::hash(bytes).to_hex().to_string()
}

} // verus!
