//! Text and bytes: decimal numbers, UTF-8 and comparisons, with their models.

use vstd::prelude::*;
#[allow(unused_imports)]
use vstd::string::*;
use vstd::utf8::*;

verus! {

/// `String::push` appends one character.
pub assume_specification[ std::string::String::push ](s: &mut std::string::String, c: char)
    ensures
        final(s)@ == old(s)@.push(c),
;

/// The words in which `String::from_utf8` rejects bytes that are not UTF-8.
pub uninterp spec fn utf8_error_text(bytes: Seq<u8>) -> Seq<char>;

/// `String::from_utf8` accepts exactly the valid UTF-8 byte strings and keeps their bytes;
/// otherwise its error shows as [`utf8_error_text`].
#[verifier::external_body]
pub(crate) fn utf8_string(bytes: Vec<u8>) -> (text: core::result::Result<String, String>)
    ensures
        text is Ok <==> valid_utf8(bytes@),
        text matches Ok(s) ==> encode_utf8(s@) == bytes@,
        text matches Err(message) ==> message@ == utf8_error_text(bytes@),
{
    String::from_utf8(bytes).map_err(|error| error.to_string())
}

/// A text between quotation marks, with the escapes of `Debug`.
pub uninterp spec fn quoted(text: Seq<char>) -> Seq<char>;

/// `Debug` of `str` writes the text between quotation marks, escaped, by the text alone.
#[verifier::external_body]
pub(crate) fn quote(text: &str) -> (shown: String)
    ensures
        shown@ == quoted(text@),
{
    format!("{text:?}")
}

/// The byte of `0`.
pub const ZERO: u8 = 48;

/// The byte of `:`.
pub const COLON: u8 = 58;

/// The character of a decimal digit.
pub open spec fn digit_char(d: int) -> char {
    (48 + d) as char
}

/// Whether a character is one of `0` to `9`.
pub open spec fn is_digit(c: char) -> bool {
    '0' <= c <= '9'
}

/// The canonical decimal notation of a number: no sign, no leading zero.
pub open spec fn decimal(n: nat) -> Seq<char>
    decreases n,
{
    if n < 10 {
        seq![digit_char(n as int)]
    } else {
        decimal(n / 10).push(digit_char((n % 10) as int))
    }
}

/// The number that a run of digits denotes.
pub open spec fn decimal_value(s: Seq<char>) -> nat
    decreases s.len(),
{
    if s.len() == 0 {
        0
    } else {
        decimal_value(s.drop_last()) * 10 + (s.last() as nat - 48) as nat
    }
}

/// Whether every character is a digit.
pub open spec fn all_digits(s: Seq<char>) -> bool {
    forall|i: int| 0 <= i < s.len() ==> is_digit(#[trigger] s[i])
}

/// Whether `s` is the decimal notation of some number.
pub open spec fn is_canonical_decimal(s: Seq<char>) -> bool {
    s.len() > 0 && all_digits(s) && (s.len() > 1 ==> s[0] != '0')
}

/// A number's notation is canonical and denotes the number.
pub proof fn lemma_decimal_canonical(n: nat)
    ensures
        is_canonical_decimal(decimal(n)),
        decimal_value(decimal(n)) == n,
        n > 0 ==> decimal(n)[0] != '0',
    decreases n,
{
    reveal_with_fuel(decimal_value, 2);
    if n >= 10 {
        lemma_decimal_canonical(n / 10);
        assert(decimal(n).drop_last() =~= decimal(n / 10));
    } else {
        assert(decimal(n).drop_last() =~= Seq::<char>::empty());
    }
}

/// A canonical notation is the notation of the number it denotes.
pub proof fn lemma_canonical_decimal(s: Seq<char>)
    requires
        is_canonical_decimal(s),
    ensures
        decimal(decimal_value(s)) == s,
        s.len() > 1 ==> decimal_value(s) >= 10,
        s[0] != '0' ==> decimal_value(s) > 0,
    decreases s.len(),
{
    reveal_with_fuel(decimal_value, 2);
    if s.len() == 1 {
        assert(s.drop_last() =~= Seq::<char>::empty());
        assert(seq![s[0]] =~= s);
    } else {
        let front = s.drop_last();
        assert(front[0] == s[0]);
        lemma_canonical_decimal(front);
        assert(is_digit(s.last()));
        let d = (s.last() as nat - 48) as nat;
        let v = decimal_value(front);
        assert(decimal_value(s) == v * 10 + d);
        assert((v * 10 + d) / 10 == v && (v * 10 + d) % 10 == d) by (nonlinear_arith)
            requires
                d < 10,
        ;
        assert(front.push(s.last()) =~= s);
    }
}

/// The decimal notation of a number.
pub fn decimal_string(n: u64) -> (text: String)
    ensures
        text@ == decimal(n as nat),
{
    wide_decimal_string(n as u128)
}

/// The decimal notation of a number of up to 128 bits.
pub fn wide_decimal_string(n: u128) -> (text: String)
    ensures
        text@ == decimal(n as nat),
    decreases n,
{
    let digit: u8 = 48 + (n % 10) as u8;
    let mut text = if n < 10 {
        String::new()
    } else {
        wide_decimal_string(n / 10)
    };
    text.push(digit as char);
    assert(text@ =~= decimal(n as nat));
    text
}

/// The UTF-8 form of a concatenation is the concatenation of the UTF-8 forms.
pub proof fn lemma_encode_concat(a: Seq<char>, b: Seq<char>)
    ensures
        encode_utf8(a + b) == encode_utf8(a) + encode_utf8(b),
    decreases a.len(),
{
    if a.len() == 0 {
        assert(a + b =~= b);
        assert(encode_utf8(a) + encode_utf8(b) =~= encode_utf8(b));
    } else {
        lemma_encode_concat(a.drop_first(), b);
        assert((a + b).drop_first() =~= a.drop_first() + b);
        assert(encode_utf8(a + b) =~= encode_utf8(a) + encode_utf8(b));
    }
}

/// Different texts have different UTF-8 forms.
pub proof fn lemma_encode_injective(a: Seq<char>, b: Seq<char>)
    requires
        encode_utf8(a) == encode_utf8(b),
    ensures
        a == b,
{
    encode_utf8_decode_utf8(a);
    encode_utf8_decode_utf8(b);
}

/// A text is a prefix of another when its UTF-8 form is.
pub proof fn lemma_encode_prefix(p: Seq<char>, s: Seq<char>)
    requires
        encode_utf8(p).is_prefix_of(encode_utf8(s)),
    ensures
        p.is_prefix_of(s),
    decreases p.len(),
{
    if p.len() > 0 {
        let bp = encode_utf8(p);
        let bs = encode_utf8(s);
        encode_utf8_first_scalar(p);
        assert(bs.len() > 0);
        encode_utf8_first_scalar(s);
        assert(bp[0] == bs[0]);
        let n = length_of_first_scalar(bp);
        assert(n == length_of_first_scalar(bs));
        assert(forall|i: int| 0 <= i < n ==> bp[i] == bs[i]);
        assert(decode_first_scalar(bp) == decode_first_scalar(bs));
        char_u32_cast(p[0], decode_first_scalar(bp));
        char_u32_cast(s[0], decode_first_scalar(bs));
        let dp = encode_utf8(p.drop_first());
        let ds = encode_utf8(s.drop_first());
        assert(dp =~= bp.subrange(n, bp.len() as int));
        assert(ds =~= bs.subrange(n, bs.len() as int));
        assert(dp.is_prefix_of(ds)) by {
            assert forall|i: int| 0 <= i < dp.len() implies dp[i] == ds[i] by {
                assert(bp[i + n] == bs[i + n]);
            }
        }
        lemma_encode_prefix(p.drop_first(), s.drop_first());
        assert forall|i: int| 0 <= i < p.len() implies p[i] == s[i] by {
            if i > 0 {
                assert(p.drop_first()[i - 1] == s.drop_first()[i - 1]);
            }
        }
    }
}

/// The position right behind the first `i` characters is a character boundary.
pub proof fn lemma_take_boundary(s: Seq<char>, i: int)
    requires
        0 <= i <= s.len(),
    ensures
        is_char_boundary(encode_utf8(s), encode_utf8(s.take(i)).len() as int),
        encode_utf8(s).take(encode_utf8(s.take(i)).len() as int) == encode_utf8(s.take(i)),
        encode_utf8(s).skip(encode_utf8(s.take(i)).len() as int) == encode_utf8(s.skip(i)),
        encode_utf8(s).len() == encode_utf8(s.take(i)).len() + encode_utf8(s.skip(i)).len(),
    decreases i,
{
    let b = encode_utf8(s);
    let n = encode_utf8(s.take(i)).len() as int;
    assert(s =~= s.take(i) + s.skip(i));
    lemma_encode_concat(s.take(i), s.skip(i));
    encode_utf8_valid_utf8(s);
    assert(b.take(n) =~= encode_utf8(s.take(i)));
    assert(b.skip(n) =~= encode_utf8(s.skip(i)));
    if i > 0 {
        encode_utf8_first_scalar(s);
        assert(pop_first_scalar(b) =~= encode_utf8(s.drop_first()));
        assert(s.take(i).drop_first() =~= s.drop_first().take(i - 1));
        lemma_take_boundary(s.drop_first(), i - 1);
    }
}

/// Every character boundary lies right behind some number of characters.
pub proof fn lemma_boundary_take(s: Seq<char>, n: int) -> (i: int)
    requires
        is_char_boundary(encode_utf8(s), n),
        0 <= n <= encode_utf8(s).len(),
    ensures
        0 <= i <= s.len(),
        encode_utf8(s.take(i)).len() == n,
        encode_utf8(s.take(i)) == encode_utf8(s).subrange(0, n),
        encode_utf8(s.skip(i)) == encode_utf8(s).subrange(n, encode_utf8(s).len() as int),
{
    let b = encode_utf8(s);
    encode_utf8_valid_utf8(s);
    valid_utf8_split(b, n);
    decode_utf8_split(b, n);
    let left = decode_utf8(b.subrange(0, n));
    let right = decode_utf8(b.subrange(n, b.len() as int));
    encode_utf8_decode_utf8(s);
    decode_utf8_encode_utf8(b.subrange(0, n));
    decode_utf8_encode_utf8(b.subrange(n, b.len() as int));
    assert(s.take(left.len() as int) =~= left);
    assert(s.skip(left.len() as int) =~= right);
    left.len() as int
}

/// The number of characters is at most the number of bytes.
pub proof fn lemma_encode_len(s: Seq<char>)
    ensures
        s.len() <= encode_utf8(s).len(),
    decreases s.len(),
{
    if s.len() > 0 {
        lemma_encode_len(s.drop_first());
    }
}

/// Two texts, one behind the other.
pub fn concat(a: &str, b: &str) -> (text: String)
    ensures
        text@ == a@ + b@,
{
    let mut text = a.to_owned();
    text.append(b);
    text
}

/// Appends bytes to bytes.
pub fn append_bytes(out: &mut Vec<u8>, bytes: &[u8])
    ensures
        final(out)@ == old(out)@ + bytes@,
{
    let ghost start = out@;
    out.extend_from_slice(bytes);
    assert(out@ =~= start + bytes@);
}

/// Whether two byte slices are equal.
pub fn bytes_eq(a: &[u8], b: &[u8]) -> (eq: bool)
    ensures
        eq == (a@ == b@),
{
    if a.len() != b.len() {
        return false;
    }
    let mut i: usize = 0;
    while i < a.len()
        invariant
            i <= a.len(),
            a.len() == b.len(),
            a@.take(i as int) =~= b@.take(i as int),
        decreases a.len() - i,
    {
        if a[i] != b[i] {
            return false;
        }
        i += 1;
    }
    assert(a@.take(i as int) =~= a@);
    assert(b@.take(i as int) =~= b@);
    true
}

/// Whether two texts are equal.
pub fn str_eq(a: &str, b: &str) -> (eq: bool)
    ensures
        eq == (a@ == b@),
{
    let eq = bytes_eq(a.as_bytes(), b.as_bytes());
    proof {
        if eq {
            lemma_encode_injective(a@, b@);
        }
    }
    eq
}

/// The texts of a list.
pub open spec fn texts(list: Seq<String>) -> Seq<Seq<char>> {
    list.map_values(|s: String| s@)
}

/// Whether a list holds a text.
pub fn list_contains(list: &Vec<String>, text: &str) -> (found: bool)
    ensures
        found == texts(list@).contains(text@),
{
    let mut i: usize = 0;
    while i < list.len()
        invariant
            i <= list@.len(),
            forall|j: int| 0 <= j < i ==> #[trigger] list@[j]@ != text@,
        decreases list@.len() - i,
    {
        if str_eq(list[i].as_str(), text) {
            assert(texts(list@)[i as int] == text@);
            return true;
        }
        i += 1;
    }
    assert(forall|j: int| 0 <= j < list@.len() ==> #[trigger] texts(list@)[j] == list@[j]@);
    false
}

/// The text behind `prefix`, where `s` starts with it.
pub fn strip_prefix<'a>(s: &'a str, prefix: &str) -> (rest: Option<&'a str>)
    ensures
        rest is Some <==> prefix@.is_prefix_of(s@),
        rest matches Some(r) ==> s@ == prefix@ + r@,
{
    let bytes = s.as_bytes();
    let head = prefix.as_bytes();
    let n: usize = head.len();
    if bytes.len() < n || !bytes_eq(vstd::slice::slice_subrange(bytes, 0, n), head) {
        proof {
            if prefix@.is_prefix_of(s@) {
                lemma_take_boundary(s@, prefix@.len() as int);
                assert(s@.take(prefix@.len() as int) =~= prefix@);
                assert(bytes@.subrange(0, n as int) =~= bytes@.take(n as int));
            }
        }
        return None;
    }
    proof {
        assert forall|i: int| 0 <= i < n implies head@[i] == bytes@[i] by {
            assert(bytes@.subrange(0, n as int)[i] == head@[i]);
        }
        lemma_encode_prefix(prefix@, s@);
        lemma_take_boundary(s@, prefix@.len() as int);
        assert(s@.take(prefix@.len() as int) =~= prefix@);
    }
    let (_, rest) = s.split_at(n);
    proof {
        let k = prefix@.len() as int;
        assert(encode_utf8(s@).skip(n as int) =~= encode_utf8(s@).subrange(
            n as int,
            encode_utf8(s@).len() as int,
        ));
        lemma_encode_injective(rest@, s@.skip(k));
        assert(s@ =~= prefix@ + rest@);
    }
    Some(rest)
}

/// Where `c` first occurs in `s`; the length of `s` where it does not.
pub open spec fn first_index(s: Seq<char>, c: char) -> nat
    decreases s.len(),
{
    if s.len() == 0 || s[0] == c {
        0
    } else {
        1 + first_index(s.drop_first(), c)
    }
}

/// Whether the first `n` bytes of `s` are whole characters.
pub open spec fn splits_at_byte(s: Seq<char>, n: nat) -> bool {
    exists|i: int| 0 <= i <= s.len() && encode_utf8(#[trigger] s.take(i)).len() == n
}

/// How many characters the first `n` bytes of `s` hold.
pub open spec fn chars_in_bytes(s: Seq<char>, n: nat) -> int {
    choose|i: int| 0 <= i <= s.len() && encode_utf8(#[trigger] s.take(i)).len() == n
}

/// The first occurrence is one, and nothing before it is.
pub proof fn lemma_first_index(s: Seq<char>, c: char)
    ensures
        first_index(s, c) <= s.len(),
        forall|i: int| 0 <= i < first_index(s, c) ==> s[i] != c,
        first_index(s, c) < s.len() ==> s[first_index(s, c) as int] == c,
    decreases s.len(),
{
    if s.len() > 0 && s[0] != c {
        lemma_first_index(s.drop_first(), c);
        assert forall|i: int| 0 <= i < first_index(s, c) implies s[i] != c by {
            if i > 0 {
                assert(s.drop_first()[i - 1] == s[i]);
            }
        }
    }
}

/// A position that holds `c` with none before it is the first occurrence.
pub proof fn lemma_first_index_is(s: Seq<char>, c: char, n: int)
    requires
        0 <= n <= s.len(),
        forall|i: int| 0 <= i < n ==> s[i] != c,
        n < s.len() ==> s[n] == c,
    ensures
        first_index(s, c) == n,
{
    lemma_first_index(s, c);
    let m = first_index(s, c) as int;
    if m < n {
        assert(s[m] == c);
    } else if n < m {
        assert(s[n] != c);
    }
}

/// The split at a byte position is unique.
pub proof fn lemma_chars_in_bytes(s: Seq<char>, n: nat, i: int)
    requires
        0 <= i <= s.len(),
        encode_utf8(s.take(i)).len() == n,
    ensures
        splits_at_byte(s, n),
        chars_in_bytes(s, n) == i,
{
    let j = chars_in_bytes(s, n);
    lemma_take_boundary(s, i);
    lemma_take_boundary(s, j);
    lemma_encode_injective(s.take(i), s.take(j));
}

/// An ASCII character shows as its own byte in the UTF-8 form.
pub proof fn lemma_ascii_byte_at(s: Seq<char>, i: int)
    requires
        0 <= i < s.len(),
        s[i] <= '\u{7f}',
    ensures
        encode_utf8(s.take(i)).len() < encode_utf8(s).len(),
        encode_utf8(s)[encode_utf8(s.take(i)).len() as int] == s[i] as u8,
{
    lemma_take_boundary(s, i);
    let tail = s.skip(i);
    let one = seq![s[i]];
    assert(tail =~= one + tail.skip(1));
    lemma_encode_concat(one, tail.skip(1));
    assert forall|j: int| 0 <= j < one.len() implies '\0' <= #[trigger] one[j] <= '\u{7f}' by {
        assert(one[j] == s[i]);
        char_is_scalar(s[i]);
        let code: u32 = s[i] as u32;
        char_u32_cast(s[i], code);
    }
    is_ascii_chars_encode_utf8(one);
    assert(one[0] as u8 == encode_utf8(one)[0]);
    assert(encode_utf8(tail)[0] == s[i] as u8);
    let n = encode_utf8(s.take(i)).len() as int;
    assert(encode_utf8(s).skip(n)[0] == encode_utf8(s)[n]);
}

/// A longer run of digits denotes no smaller number.
pub proof fn lemma_decimal_value_take(s: Seq<char>, i: int)
    requires
        all_digits(s),
        0 <= i <= s.len(),
    ensures
        decimal_value(s.take(i)) <= decimal_value(s),
    decreases s.len() - i,
{
    if i < s.len() {
        lemma_decimal_value_take(s, i + 1);
        assert(s.take(i + 1).drop_last() =~= s.take(i));
        assert(is_digit(s[i]));
    } else {
        assert(s.take(i) =~= s);
    }
}

/// Whether every character is a digit.
pub fn is_all_digits(s: &str) -> (digits: bool)
    ensures
        digits == all_digits(s@),
{
    if !s.is_ascii() {
        return false;
    }
    proof {
        is_ascii_chars_encode_utf8(s@);
    }
    let bytes = s.as_bytes();
    let mut i: usize = 0;
    while i < bytes.len()
        invariant
            i <= bytes.len(),
            bytes@ == encode_utf8(s@),
            s@.len() == bytes.len(),
            is_ascii_chars(s@),
            forall|j: int| 0 <= j < s@.len() ==> #[trigger] s@[j] as u8 == bytes@[j],
            forall|j: int| 0 <= j < i ==> is_digit(#[trigger] s@[j]),
        decreases bytes.len() - i,
    {
        assert(s@[i as int] as u8 == bytes@[i as int]);
        if bytes[i] < 48 || bytes[i] > 57 {
            assert(!is_digit(s@[i as int]));
            return false;
        }
        i += 1;
    }
    true
}

/// The number that a run of digits denotes, where it fits 64 bits.
pub fn parse_digits(s: &str) -> (number: Option<u64>)
    requires
        all_digits(s@),
    ensures
        number is Some <==> decimal_value(s@) <= u64::MAX,
        number matches Some(n) ==> n == decimal_value(s@),
{
    let bytes = s.as_bytes();
    proof {
        assert forall|j: int| 0 <= j < s@.len() implies '\0' <= #[trigger] s@[j] <= '\u{7f}' by {
            assert(is_digit(s@[j]));
        }
        is_ascii_chars_encode_utf8(s@);
    }
    let mut value: u64 = 0;
    let mut i: usize = 0;
    while i < bytes.len()
        invariant
            i <= bytes.len(),
            s@.len() == bytes.len(),
            all_digits(s@),
            forall|j: int| 0 <= j < s@.len() ==> #[trigger] s@[j] as u8 == bytes@[j],
            value == decimal_value(s@.take(i as int)),
        decreases bytes.len() - i,
    {
        proof {
            assert(s@.take(i + 1).drop_last() =~= s@.take(i as int));
            assert(is_digit(s@[i as int]));
            assert(s@[i as int] as u8 == bytes@[i as int]);
            lemma_decimal_value_take(s@, i + 1);
        }
        let digit: u64 = (bytes[i] - 48) as u64;
        value = match value.checked_mul(10) {
            Some(tens) => match tens.checked_add(digit) {
                Some(sum) => sum,
                None => {
                    return None;
                },
            },
            None => {
                return None;
            },
        };
        i += 1;
    }
    assert(s@.take(i as int) =~= s@);
    Some(value)
}

/// The texts before and behind the first `delimiter`.
pub fn split_once<'a>(s: &'a str, delimiter: u8) -> (parts: Option<(&'a str, &'a str)>)
    requires
        delimiter < 128,
    ensures
        parts is Some <==> first_index(s@, delimiter as char) < s@.len(),
        parts matches Some((before, behind)) ==> {
            &&& before@ == s@.take(first_index(s@, delimiter as char) as int)
            &&& behind@ == s@.skip(first_index(s@, delimiter as char) as int + 1)
        },
{
    let ghost c = delimiter as char;
    let bytes = s.as_bytes();
    let mut i: usize = 0;
    while i < bytes.len()
        invariant
            i <= bytes.len(),
            bytes@ == encode_utf8(s@),
            delimiter < 128,
            c == delimiter as char,
            forall|j: int| 0 <= j < i ==> bytes@[j] != delimiter,
        decreases bytes.len() - i,
    {
        if bytes[i] == delimiter {
            let ghost k: int;
            proof {
                encode_utf8_valid_utf8(s@);
                is_char_boundary_iff_not_is_continuation_byte(bytes@, i as int);
                k = lemma_boundary_take(s@, i as int);
                let tail = s@.skip(k);
                assert(encode_utf8(tail).len() > 0);
                assert(tail.len() > 0) by {
                    if tail.len() == 0 {
                        assert(encode_utf8(tail) =~= Seq::<u8>::empty());
                    }
                }
                encode_utf8_first_scalar(tail);
                assert(encode_utf8(tail)[0] == delimiter);
                char_u32_cast(tail[0], decode_first_scalar(encode_utf8(tail)));
                assert(delimiter & 0x7f == delimiter) by (bit_vector)
                    requires
                        delimiter < 128,
                ;
                assert(tail[0] == c);
                assert(s@[k] == c);
                assert forall|j: int| 0 <= j < k implies s@[j] != c by {
                    if s@[j] == c {
                        lemma_ascii_byte_at(s@, j);
                        lemma_take_boundary(s@.take(k), j);
                        lemma_ascii_byte_at(s@.take(k), j);
                        assert(s@.take(k).take(j) =~= s@.take(j));
                    }
                }
                lemma_first_index_is(s@, c, k);
                let one = s@.take(k + 1);
                lemma_take_boundary(s@, k + 1);
                assert(one =~= s@.take(k) + seq![c]);
                lemma_encode_concat(s@.take(k), seq![c]);
                assert(is_ascii_chars(seq![c]));
                is_ascii_chars_encode_utf8(seq![c]);
                assert(encode_utf8(one).len() == i + 1);
                lemma_take_boundary(s@, k);
            }
            let (before, _) = s.split_at(i);
            let (_, behind) = s.split_at(i + 1);
            proof {
                assert(encode_utf8(s@).skip(i + 1) =~= encode_utf8(s@).subrange(
                    i + 1,
                    encode_utf8(s@).len() as int,
                ));
                lemma_encode_injective(before@, s@.take(k));
                lemma_encode_injective(behind@, s@.skip(k + 1));
            }
            return Some((before, behind));
        }
        i += 1;
    }
    proof {
        lemma_first_index(s@, c);
        let k = first_index(s@, c) as int;
        if k < s@.len() {
            lemma_ascii_byte_at(s@, k);
        }
    }
    None
}

/// The first `n` bytes and the rest, where that splits no character.
pub fn split_at_byte<'a>(s: &'a str, n: usize) -> (parts: Option<(&'a str, &'a str)>)
    ensures
        parts is Some <==> splits_at_byte(s@, n as nat),
        parts matches Some((a, b)) ==> {
            &&& a@ == s@.take(chars_in_bytes(s@, n as nat))
            &&& b@ == s@.skip(chars_in_bytes(s@, n as nat))
        },
{
    if n > s.as_bytes().len() || !s.is_char_boundary(n) {
        proof {
            if splits_at_byte(s@, n as nat) {
                lemma_take_boundary(s@, chars_in_bytes(s@, n as nat));
            }
        }
        return None;
    }
    let ghost i = lemma_boundary_take(s@, n as int);
    let (a, b) = s.split_at(n);
    proof {
        lemma_chars_in_bytes(s@, n as nat, i);
        lemma_encode_injective(a@, s@.take(i));
        lemma_encode_injective(b@, s@.skip(i));
    }
    Some((a, b))
}

/// What the standard notation of an unsigned number is: digits, with an optional plus sign.
pub open spec fn number_digits(s: Seq<char>) -> Seq<char> {
    if s.len() > 0 && s[0] == '+' {
        s.drop_first()
    } else {
        s
    }
}

/// The 64-bit number that a text denotes, if it denotes one.
pub open spec fn u64_of(s: Seq<char>) -> Option<u64> {
    let digits = number_digits(s);
    if digits.len() > 0 && all_digits(digits) && decimal_value(digits) <= u64::MAX {
        Some(decimal_value(digits) as u64)
    } else {
        None
    }
}

/// The 64-bit number that a text denotes, if it denotes one.
pub fn parse_u64(s: &str) -> (number: Option<u64>)
    ensures
        number == u64_of(s@),
{
    let digits = match strip_prefix(s, "+") {
        Some(rest) => {
            proof {
                reveal_strlit("+");
                assert(s@.drop_first() =~= rest@);
                assert(s@[0] == "+"@[0]);
            }
            rest
        },
        None => {
            proof {
                reveal_strlit("+");
                if s@.len() > 0 && s@[0] == '+' {
                    assert("+"@.is_prefix_of(s@));
                }
            }
            s
        },
    };
    if digits.is_empty() || !is_all_digits(digits) {
        return None;
    }
    parse_digits(digits)
}

/// The notation of a number denotes it.
pub proof fn lemma_u64_of_decimal(n: u64)
    ensures
        u64_of(decimal(n as nat)) == Some(n),
{
    lemma_decimal_canonical(n as nat);
    let s = decimal(n as nat);
    assert(is_digit(s[0]));
}

/// Whether a character may stand in a plain identifier: an ASCII letter, a digit or `_`.
pub open spec fn is_word_char(c: char) -> bool {
    'a' <= c <= 'z' || 'A' <= c <= 'Z' || '0' <= c <= '9' || c == '_'
}

/// Whether every character may stand in a plain identifier.
pub open spec fn is_word(s: Seq<char>) -> bool {
    forall|i: int| 0 <= i < s.len() ==> is_word_char(#[trigger] s[i])
}

/// Whether every character may stand in a plain identifier.
pub fn is_word_text(s: &str) -> (word: bool)
    ensures
        word == is_word(s@),
{
    if !s.is_ascii() {
        proof {
            if is_word(s@) {
                assert forall|i: int| 0 <= i < s@.len() implies '\0' <= #[trigger] s@[i]
                    <= '\u{7f}' by {
                    assert(is_word_char(s@[i]));
                }
            }
        }
        return false;
    }
    proof {
        is_ascii_chars_encode_utf8(s@);
    }
    let bytes = s.as_bytes();
    let mut i: usize = 0;
    while i < bytes.len()
        invariant
            i <= bytes.len(),
            s@.len() == bytes.len(),
            is_ascii_chars(s@),
            forall|j: int| 0 <= j < s@.len() ==> #[trigger] s@[j] as u8 == bytes@[j],
            forall|j: int| 0 <= j < i ==> is_word_char(#[trigger] s@[j]),
        decreases bytes.len() - i,
    {
        let b: u8 = bytes[i];
        assert(s@[i as int] as u8 == b);
        if !((b >= 97 && b <= 122) || (b >= 65 && b <= 90) || (b >= 48 && b <= 57) || b == 95) {
            assert(!is_word_char(s@[i as int]));
            return false;
        }
        i += 1;
    }
    true
}

/// Whether a text holds an ASCII character.
pub fn holds_ascii(s: &str, byte: u8) -> (held: bool)
    requires
        byte < 128,
    ensures
        held == s@.contains(byte as char),
{
    let held = split_once(s, byte).is_some();
    proof {
        let c = byte as char;
        lemma_first_index(s@, c);
        let n = first_index(s@, c) as int;
        if n < s@.len() {
            assert(s@[n] == c);
        } else if s@.contains(c) {
            let j = choose|j: int| 0 <= j < s@.len() && s@[j] == c;
            assert(s@[j] != c);
        }
    }
    held
}

/// The model of an optional text.
pub open spec fn option_text(value: Option<String>) -> Option<Seq<char>> {
    match value {
        Some(v) => Some(v@),
        None => None,
    }
}

/// The text of a truth value.
pub open spec fn bool_text(b: bool) -> Seq<char> {
    if b {
        "true"@
    } else {
        "false"@
    }
}

/// The text of a truth value.
pub fn bool_str(b: bool) -> (text: &'static str)
    ensures
        text@ == bool_text(b),
{
    if b {
        "true"
    } else {
        "false"
    }
}

/// The segments of a text between the occurrences of a character.
pub open spec fn split(s: Seq<char>, c: char) -> Seq<Seq<char>>
    decreases s.len(),
{
    let i = first_index(s, c) as int;
    if i >= s.len() {
        seq![s]
    } else {
        seq![s.take(i)] + split(s.skip(i + 1), c)
    }
}

/// Segments with a character between them.
pub open spec fn join(segments: Seq<Seq<char>>, c: char) -> Seq<char>
    decreases segments.len(),
{
    if segments.len() == 0 {
        Seq::empty()
    } else if segments.len() == 1 {
        segments[0]
    } else {
        segments[0] + seq![c] + join(segments.drop_first(), c)
    }
}

/// Whether no segment holds the character.
pub open spec fn free_of(segments: Seq<Seq<char>>, c: char) -> bool {
    forall|i: int| 0 <= i < segments.len() ==> !(#[trigger] segments[i]).contains(c)
}

/// Joining the segments of a text gives the text, and no segment holds the character.
pub proof fn lemma_join_split(s: Seq<char>, c: char)
    ensures
        split(s, c).len() > 0,
        join(split(s, c), c) == s,
        free_of(split(s, c), c),
    decreases s.len(),
{
    lemma_first_index(s, c);
    let i = first_index(s, c) as int;
    if i < s.len() {
        let rest = s.skip(i + 1);
        lemma_join_split(rest, c);
        let all = split(s, c);
        assert(all.drop_first() =~= split(rest, c));
        assert(s =~= s.take(i) + seq![c] + rest);
        assert forall|j: int| 0 <= j < all.len() implies !(#[trigger] all[j]).contains(c) by {
            if j > 0 {
                assert(all[j] == split(rest, c)[j - 1]);
            }
        }
    } else {
        assert forall|j: int| 0 <= j < split(s, c).len() implies !(#[trigger] split(
            s,
            c,
        )[j]).contains(c) by {
            assert(split(s, c)[j] == s);
        }
    }
}

/// Splitting joined segments gives the segments.
pub proof fn lemma_split_join(segments: Seq<Seq<char>>, c: char)
    requires
        segments.len() > 0,
        free_of(segments, c),
    ensures
        split(join(segments, c), c) == segments,
    decreases segments.len(),
{
    let s = join(segments, c);
    let head = segments[0];
    assert forall|j: int| 0 <= j < head.len() implies head[j] != c by {
        assert(!segments[0].contains(c));
        assert(head.contains(head[j]));
    }
    if segments.len() == 1 {
        lemma_first_index_is(s, c, s.len() as int);
        assert(split(s, c) =~= segments);
    } else {
        let rest = segments.drop_first();
        assert forall|j: int| 0 <= j < rest.len() implies !(#[trigger] rest[j]).contains(c) by {
            assert(rest[j] == segments[j + 1]);
        }
        lemma_split_join(rest, c);
        assert forall|j: int| 0 <= j < head.len() implies s[j] != c by {
            assert(s[j] == head[j]);
        }
        assert(s[head.len() as int] == c);
        lemma_first_index_is(s, c, head.len() as int);
        assert(s.take(head.len() as int) =~= head);
        assert(s.skip(head.len() as int + 1) =~= join(rest, c));
        assert(split(s, c) =~= segments);
    }
}

/// The segments of a text between the occurrences of an ASCII character.
pub fn split_text<'a>(s: &'a str, delimiter: u8) -> (segments: Vec<&'a str>)
    requires
        delimiter < 128,
    ensures
        segments@.map_values(|t: &'a str| t@) == split(s@, delimiter as char),
{
    let ghost c = delimiter as char;
    let mut segments: Vec<&'a str> = Vec::new();
    let mut rest: &'a str = s;
    let mut more = true;
    proof {
        assert(segments@.map_values(|t: &'a str| t@) + split(rest@, c) =~= split(s@, c));
    }
    while more
        invariant
            delimiter < 128,
            c == delimiter as char,
            more ==> segments@.map_values(|t: &'a str| t@) + split(rest@, c) == split(s@, c),
            !more ==> segments@.map_values(|t: &'a str| t@) == split(s@, c),
        decreases
                rest@.len(),
                (if more {
                    1nat
                } else {
                    0nat
                }),
    {
        let ghost before = segments@;
        let ghost at = rest@;
        proof {
            lemma_first_index(at, c);
        }
        match split_once(rest, delimiter) {
            Some((head, tail)) => {
                segments.push(head);
                rest = tail;
                proof {
                    assert(segments@.map_values(|t: &'a str| t@) =~= before.map_values(
                        |t: &'a str| t@,
                    ).push(head@));
                    assert(segments@.map_values(|t: &'a str| t@) + split(rest@, c)
                        =~= before.map_values(|t: &'a str| t@) + split(at, c));
                }
            },
            None => {
                segments.push(rest);
                more = false;
                proof {
                    assert(segments@.map_values(|t: &'a str| t@) =~= before.map_values(
                        |t: &'a str| t@,
                    ) + seq![at]);
                }
            },
        }
    }
    segments
}

/// Whether a text occurs in another.
pub open spec fn occurs_in(part: Seq<char>, s: Seq<char>) -> bool {
    exists|i: int| 0 <= i <= s.len() && part.is_prefix_of(#[trigger] s.skip(i))
}

/// Whether a text occurs in another.
pub fn contains_text(s: &str, part: &str) -> (found: bool)
    ensures
        found == occurs_in(part@, s@),
{
    let total: usize = s.unicode_len();
    let mut i: usize = 0;
    while i < total
        invariant
            i <= total == s@.len(),
            forall|j: int| 0 <= j < i ==> !part@.is_prefix_of(#[trigger] s@.skip(j)),
        decreases total - i,
    {
        let rest = s.substring_char(i, total);
        assert(rest@ =~= s@.skip(i as int));
        if strip_prefix(rest, part).is_some() {
            return true;
        }
        i += 1;
    }
    let found = part.is_empty();
    proof {
        assert(s@.skip(total as int) =~= Seq::<char>::empty());
        if found {
            assert(part@.is_prefix_of(s@.skip(total as int)));
        }
        if occurs_in(part@, s@) {
            let j = choose|j: int| 0 <= j <= s@.len() && part@.is_prefix_of(#[trigger] s@.skip(j));
            assert(j == total);
        }
    }
    found
}

/// The 64-bit signed number that a text denotes, if it denotes one.
pub open spec fn i64_of(s: Seq<char>) -> Option<i64> {
    let negative = s.len() > 0 && s[0] == '-';
    let digits = if negative {
        s.drop_first()
    } else {
        number_digits(s)
    };
    if digits.len() > 0 && all_digits(digits) {
        let value = if negative {
            -(decimal_value(digits) as int)
        } else {
            decimal_value(digits) as int
        };
        if i64::MIN <= value <= i64::MAX {
            Some(value as i64)
        } else {
            None
        }
    } else {
        None
    }
}

/// The 64-bit signed number that a text denotes, if it denotes one.
pub fn parse_i64(s: &str) -> (number: Option<i64>)
    ensures
        number == i64_of(s@),
{
    proof {
        reveal_strlit("-");
        if s@.len() > 0 && s@[0] == '-' {
            assert("-"@.is_prefix_of(s@));
        }
    }
    match strip_prefix(s, "-") {
        Some(digits) => {
            proof {
                assert(s@.drop_first() =~= digits@);
                assert(s@[0] == "-"@[0]);
            }
            if digits.is_empty() || !is_all_digits(digits) {
                return None;
            }
            match parse_digits(digits) {
                Some(n) => if n <= 0x8000_0000_0000_0000 {
                    Some((-(n as i128)) as i64)
                } else {
                    None
                },
                None => None,
            }
        },
        None => {
            let digits = match strip_prefix(s, "+") {
                Some(rest) => {
                    proof {
                        reveal_strlit("+");
                        assert(s@.drop_first() =~= rest@);
                        assert(s@[0] == "+"@[0]);
                    }
                    rest
                },
                None => {
                    proof {
                        reveal_strlit("+");
                        if s@.len() > 0 && s@[0] == '+' {
                            assert("+"@.is_prefix_of(s@));
                        }
                    }
                    s
                },
            };
            if digits.is_empty() || !is_all_digits(digits) {
                return None;
            }
            match parse_digits(digits) {
                Some(n) => if n <= i64::MAX as u64 {
                    Some(n as i64)
                } else {
                    None
                },
                None => None,
            }
        },
    }
}

/// The texts of a list: one for each item, in order.
pub proof fn law_texts(list: Seq<String>, i: int)
    requires
        0 <= i < list.len(),
    ensures
        texts(list).len() == list.len(),
        texts(list)[i] == list[i]@,
{
}

/// A text occurs in whatever is put around it, and in whatever holds a text that it occurs in.
pub proof fn lemma_occurs_around(
    part: Seq<char>,
    inner: Seq<char>,
    before: Seq<char>,
    behind: Seq<char>,
)
    requires
        occurs_in(part, inner),
    ensures
        occurs_in(part, before + inner + behind),
{
    let i = choose|i: int| 0 <= i <= inner.len() && part.is_prefix_of(#[trigger] inner.skip(i));
    let whole = before + inner + behind;
    assert(whole.skip(before.len() + i) =~= inner.skip(i) + behind);
    assert(part.is_prefix_of(whole.skip(before.len() + i))) by {
        assert(whole.skip(before.len() + i).take(part.len() as int) =~= inner.skip(i).take(
            part.len() as int,
        ));
    }
}

pub proof fn lemma_occurs_in_itself(part: Seq<char>)
    ensures
        occurs_in(part, part),
{
    assert(part.skip(0) =~= part);
    assert(part.is_prefix_of(part.skip(0)));
}

} // verus!
