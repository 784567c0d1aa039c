//! Bytes as lowercase hexadecimal text.

use vstd::prelude::*;
#[allow(unused_imports)]
use vstd::string::*;
use vstd::utf8::{encode_utf8, is_ascii_chars, is_ascii_chars_encode_utf8};

verus! {

/// The character of a hexadecimal digit.
pub open spec fn hex_digit(n: int) -> char {
    if n < 10 {
        (48 + n) as char
    } else {
        (87 + n) as char
    }
}

/// Whether a character is a lowercase hexadecimal digit.
pub open spec fn is_lower_hex(c: char) -> bool {
    '0' <= c <= '9' || 'a' <= c <= 'f'
}

/// The value of a hexadecimal digit.
pub open spec fn digit_value(c: char) -> int {
    if c <= '9' {
        c as int - 48
    } else {
        c as int - 87
    }
}

/// Each byte as two digits.
pub open spec fn hex_of(bytes: Seq<u8>) -> Seq<char>
    decreases bytes.len(),
{
    if bytes.len() == 0 {
        Seq::empty()
    } else {
        hex_of(bytes.drop_last()) + seq![
            hex_digit(bytes.last() as int / 16),
            hex_digit(bytes.last() as int % 16),
        ]
    }
}

/// Whether a text is the hexadecimal form of some bytes.
pub open spec fn is_hex(s: Seq<char>) -> bool {
    s.len() % 2 == 0 && forall|i: int| 0 <= i < s.len() ==> is_lower_hex(#[trigger] s[i])
}

/// The hexadecimal form has two characters for a byte, all of them digits.
pub proof fn lemma_hex_of(bytes: Seq<u8>)
    ensures
        hex_of(bytes).len() == 2 * bytes.len(),
        is_hex(hex_of(bytes)),
        is_ascii_chars(hex_of(bytes)),
    decreases bytes.len(),
{
    if bytes.len() > 0 {
        lemma_hex_of(bytes.drop_last());
        let s = hex_of(bytes);
        let front = hex_of(bytes.drop_last());
        assert forall|i: int| 0 <= i < s.len() implies is_lower_hex(#[trigger] s[i]) by {
            if i < front.len() {
                assert(s[i] == front[i]);
            }
        }
    }
    let s = hex_of(bytes);
    assert forall|i: int| 0 <= i < s.len() implies '\0' <= #[trigger] s[i] <= '\u{7f}' by {
        assert(is_lower_hex(s[i]));
    }
}

/// Different bytes have different hexadecimal forms.
pub proof fn lemma_hex_injective(a: Seq<u8>, b: Seq<u8>)
    requires
        hex_of(a) == hex_of(b),
    ensures
        a == b,
    decreases a.len(),
{
    lemma_hex_of(a);
    lemma_hex_of(b);
    if a.len() == 0 {
        assert(a =~= b);
    } else {
        let s = hex_of(a);
        let n = s.len() as int;
        assert(s[n - 2] == hex_digit(a.last() as int / 16));
        assert(s[n - 1] == hex_digit(a.last() as int % 16));
        assert(hex_of(b)[n - 2] == hex_digit(b.last() as int / 16));
        assert(hex_of(b)[n - 1] == hex_digit(b.last() as int % 16));
        assert(s.take(n - 2) =~= hex_of(a.drop_last()));
        assert(hex_of(b).take(n - 2) =~= hex_of(b.drop_last()));
        lemma_hex_injective(a.drop_last(), b.drop_last());
        assert(a.drop_last().push(a.last()) =~= a);
        assert(b.drop_last().push(b.last()) =~= b);
    }
}

fn digit_char(n: u8) -> (c: char)
    requires
        n < 16,
    ensures
        c == hex_digit(n as int),
{
    if n < 10 {
        (48 + n) as char
    } else {
        (87 + n) as char
    }
}

/// Appends bytes in hexadecimal.
pub fn append_hex(text: &mut String, bytes: &[u8])
    ensures
        final(text)@ == old(text)@ + hex_of(bytes@),
{
    let ghost start = text@;
    let mut i: usize = 0;
    proof {
        assert(bytes@.take(0) =~= Seq::empty());
        assert(text@ =~= start + hex_of(bytes@.take(0)));
    }
    while i < bytes.len()
        invariant
            i <= bytes@.len(),
            text@ == start + hex_of(bytes@.take(i as int)),
        decreases bytes@.len() - i,
    {
        proof {
            assert(bytes@.take(i + 1).drop_last() =~= bytes@.take(i as int));
        }
        text.push(digit_char(bytes[i] / 16));
        text.push(digit_char(bytes[i] % 16));
        proof {
            assert(text@ =~= start + hex_of(bytes@.take(i + 1)));
        }
        i += 1;
    }
    assert(bytes@.take(i as int) =~= bytes@);
}

fn digit_of(byte: u8) -> (value: Option<u8>)
    ensures
        match value {
            Some(v) => v < 16 && is_lower_hex(byte as char) && hex_digit(v as int) == byte as char
                && byte < 128,
            None => byte < 128 ==> !is_lower_hex(byte as char),
        },
{
    if byte >= 48 && byte <= 57 {
        Some((byte - 48) as u8)
    } else if byte >= 97 && byte <= 102 {
        Some((byte - 87) as u8)
    } else {
        None
    }
}

/// The bytes whose hexadecimal form a text is, if it is one.
pub fn decode_hex(s: &str) -> (bytes: Option<Vec<u8>>)
    ensures
        match bytes {
            Some(b) => hex_of(b@) == s@,
            None => !is_hex(s@),
        },
{
    if !s.is_ascii() {
        proof {
            if is_hex(s@) {
                assert forall|i: int| 0 <= i < s@.len() implies '\0' <= #[trigger] s@[i]
                    <= '\u{7f}' by {
                    assert(is_lower_hex(s@[i]));
                }
            }
        }
        return None;
    }
    proof {
        is_ascii_chars_encode_utf8(s@);
    }
    let raw = s.as_bytes();
    if raw.len() % 2 != 0 {
        return None;
    }
    let mut out: Vec<u8> = Vec::new();
    let mut i: usize = 0;
    proof {
        assert(s@.take(0) =~= hex_of(out@));
    }
    while i < raw.len()
        invariant
            i <= raw@.len(),
            i % 2 == 0,
            raw@.len() % 2 == 0,
            raw@ == encode_utf8(s@),
            s@.len() == raw@.len(),
            is_ascii_chars(s@),
            forall|j: int| 0 <= j < s@.len() ==> #[trigger] s@[j] as u8 == raw@[j],
            hex_of(out@) == s@.take(i as int),
        decreases raw@.len() - i,
    {
        proof {
            assert(s@[i as int] as u8 == raw@[i as int]);
            assert(s@[i + 1] as u8 == raw@[i + 1]);
        }
        let (high, low) = match (digit_of(raw[i]), digit_of(raw[i + 1])) {
            (Some(high), Some(low)) => (high, low),
            _ => {
                proof {
                    assert(!is_lower_hex(s@[i as int]) || !is_lower_hex(s@[i + 1]));
                }
                return None;
            },
        };
        let ghost before = out@;
        out.push(high * 16 + low);
        proof {
            assert(out@.drop_last() =~= before);
            assert(hex_of(out@) =~= s@.take(i + 2));
        }
        i += 2;
    }
    assert(s@.take(i as int) =~= s@);
    Some(out)
}

/// The bytes whose hexadecimal form a text is.
pub open spec fn hex_bytes(hex: Seq<char>) -> Seq<u8> {
    choose|bytes: Seq<u8>| hex_of(bytes) == hex
}

/// The bytes of a hexadecimal form are the bytes it was made of.
pub proof fn lemma_hex_bytes(bytes: Seq<u8>)
    ensures
        hex_bytes(hex_of(bytes)) == bytes,
{
    lemma_hex_injective(hex_bytes(hex_of(bytes)), bytes);
}

/// A hexadecimal text is the form of its bytes.
pub proof fn lemma_is_hex(hex: Seq<char>)
    requires
        is_hex(hex),
    ensures
        hex_of(hex_bytes(hex)) == hex,
{
    let bytes = lemma_unhex(hex);
    assert(hex_of(bytes) == hex);
}

proof fn lemma_unhex(hex: Seq<char>) -> (bytes: Seq<u8>)
    requires
        is_hex(hex),
    ensures
        hex_of(bytes) == hex,
    decreases hex.len(),
{
    if hex.len() == 0 {
        assert(hex_of(Seq::empty()) =~= hex);
        Seq::empty()
    } else {
        let n = hex.len() as int;
        let front = hex.take(n - 2);
        let rest = lemma_unhex(front);
        assert(is_lower_hex(hex[n - 2]) && is_lower_hex(hex[n - 1]));
        let high = digit_value(hex[n - 2]);
        let low = digit_value(hex[n - 1]);
        let byte = (high * 16 + low) as u8;
        let bytes = rest.push(byte);
        assert(bytes.drop_last() =~= rest);
        assert(byte as int / 16 == high && byte as int % 16 == low);
        assert(hex_of(bytes) =~= hex);
        bytes
    }
}

/// Each byte is two of the sixteen digits, the higher one first, in the order of the bytes.
pub proof fn law_hex(bytes: Seq<u8>, i: int)
    requires
        0 <= i < bytes.len(),
    ensures
        hex_of(bytes).len() == 2 * bytes.len(),
        hex_of(bytes)[2 * i] == "0123456789abcdef"@[bytes[i] as int / 16],
        hex_of(bytes)[2 * i + 1] == "0123456789abcdef"@[bytes[i] as int % 16],
    decreases bytes.len(),
{
    reveal_strlit("0123456789abcdef");
    lemma_hex_of(bytes);
    let front = bytes.drop_last();
    lemma_hex_of(front);
    if i < front.len() {
        law_hex(front, i);
        assert(hex_of(bytes)[2 * i] == hex_of(front)[2 * i]);
        assert(hex_of(bytes)[2 * i + 1] == hex_of(front)[2 * i + 1]);
    } else {
        let high = bytes[i] as int / 16;
        let low = bytes[i] as int % 16;
        assert(hex_of(bytes)[2 * i] == hex_digit(high));
        assert(hex_of(bytes)[2 * i + 1] == hex_digit(low));
        assert(0 <= high < 16 && 0 <= low < 16);
        lemma_hex_digit(high);
        lemma_hex_digit(low);
    }
}

proof fn lemma_hex_digit(n: int)
    requires
        0 <= n < 16,
    ensures
        hex_digit(n) == "0123456789abcdef"@[n],
{
    reveal_strlit("0123456789abcdef");
}

} // verus!
