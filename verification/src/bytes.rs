//! Numbers as little-endian bytes.

use vstd::prelude::*;

verus! {

/// The `width` low bytes of `n`, the lowest first.
pub open spec fn le_bytes(n: nat, width: nat) -> Seq<u8>
    decreases width,
{
    if width == 0 {
        Seq::empty()
    } else {
        seq![(n % 256) as u8] + le_bytes(n / 256, (width - 1) as nat)
    }
}

/// The number whose bytes, the lowest first, are `s`.
pub open spec fn le_value(s: Seq<u8>) -> nat
    decreases s.len(),
{
    if s.len() == 0 {
        0
    } else {
        s[0] as nat + 256 * le_value(s.drop_first())
    }
}

/// How many numbers `width` bytes can hold.
pub open spec fn byte_range(width: nat) -> nat
    decreases width,
{
    if width == 0 {
        1
    } else {
        256 * byte_range((width - 1) as nat)
    }
}

/// The ranges of the widths in use.
pub proof fn lemma_byte_range()
    ensures
        byte_range(4) == 0x1_0000_0000,
        byte_range(8) == 0x1_0000_0000_0000_0000,
{
    reveal_with_fuel(byte_range, 9);
}

/// The bytes of a number that fits denote it.
pub proof fn lemma_le_bytes_value(n: nat, width: nat)
    requires
        n < byte_range(width),
    ensures
        le_bytes(n, width).len() == width,
        le_value(le_bytes(n, width)) == n,
    decreases width,
{
    if width > 0 {
        lemma_le_bytes_value(n / 256, (width - 1) as nat);
        assert(le_bytes(n, width).drop_first() =~= le_bytes(n / 256, (width - 1) as nat));
    }
}

/// Bytes are the bytes of the number they denote, which fits.
pub proof fn lemma_le_value_bytes(s: Seq<u8>)
    ensures
        le_value(s) < byte_range(s.len()),
        le_bytes(le_value(s), s.len()) == s,
    decreases s.len(),
{
    if s.len() > 0 {
        lemma_le_value_bytes(s.drop_first());
        let rest = le_value(s.drop_first());
        assert((s[0] as nat + 256 * rest) % 256 == s[0] as nat);
        assert((s[0] as nat + 256 * rest) / 256 == rest);
        assert(le_bytes(le_value(s), s.len()) =~= s);
    } else {
        assert(le_bytes(le_value(s), s.len()) =~= s);
    }
}

/// The length of a run of little-endian bytes.
pub proof fn lemma_le_bytes_len(n: nat, width: nat)
    ensures
        le_bytes(n, width).len() == width,
    decreases width,
{
    if width > 0 {
        lemma_le_bytes_len(n / 256, (width - 1) as nat);
    }
}

/// Appends the `width` low bytes of `n`.
pub fn write_le(out: &mut Vec<u8>, n: u64, width: usize)
    ensures
        final(out)@ == old(out)@ + le_bytes(n as nat, width as nat),
{
    let ghost start = out@;
    let mut rest: u64 = n;
    let mut left: usize = width;
    while left > 0
        invariant
            left <= width,
            out@ + le_bytes(rest as nat, left as nat) == start + le_bytes(n as nat, width as nat),
        decreases left,
    {
        let ghost before = out@;
        let ghost r = rest as nat;
        out.push((rest % 256) as u8);
        rest = rest / 256;
        left = left - 1;
        proof {
            assert(out@ + le_bytes(rest as nat, left as nat) =~= before + le_bytes(
                r,
                (left + 1) as nat,
            ));
        }
    }
    assert(out@ =~= start + le_bytes(n as nat, width as nat));
}

/// The number denoted by the `width` bytes of `s` from `at` on.
pub fn read_le(s: &[u8], at: usize, width: usize) -> (n: u64)
    requires
        width <= 8,
        at + width <= s@.len(),
    ensures
        n == le_value(s@.subrange(at as int, at + width)),
{
    let total: usize = s.len();
    let mut n: u64 = 0;
    let mut left: usize = width;
    while left > 0
        invariant
            left <= width <= 8,
            at + width <= total == s@.len(),
            n == le_value(s@.subrange(at + left, at + width)),
        decreases left,
    {
        proof {
            let tail = s@.subrange(at + left, at + width);
            let whole = s@.subrange(at + left - 1, at + width);
            assert(whole.drop_first() =~= tail);
            lemma_le_value_bytes(whole);
            lemma_range_monotone(whole.len(), 8);
            lemma_byte_range();
        }
        left = left - 1;
        n = s[at + left] as u64 + 256 * n;
    }
    n
}

proof fn lemma_range_monotone(a: nat, b: nat)
    requires
        a <= b,
    ensures
        byte_range(a) <= byte_range(b),
    decreases b - a,
{
    if a < b {
        lemma_range_monotone(a, (b - 1) as nat);
    }
}

/// The 64-bit pattern of a signed number (two's complement).
pub open spec fn signed_bits(n: i64) -> nat {
    if n >= 0 {
        n as nat
    } else {
        (n + 0x1_0000_0000_0000_0000) as nat
    }
}

/// The signed number with a given 64-bit pattern.
pub open spec fn bits_signed(bits: nat) -> int {
    if bits < 0x8000_0000_0000_0000 {
        bits as int
    } else {
        bits - 0x1_0000_0000_0000_0000
    }
}

/// The bit pattern of a signed number.
pub fn to_bits(n: i64) -> (bits: u64)
    ensures
        bits == signed_bits(n),
        bits_signed(bits as nat) == n,
{
    if n >= 0 {
        n as u64
    } else {
        (n as i128 + 0x1_0000_0000_0000_0000i128) as u64
    }
}

/// The signed number with a given bit pattern.
pub fn from_bits(bits: u64) -> (n: i64)
    ensures
        n == bits_signed(bits as nat),
        signed_bits(n) == bits,
{
    if bits < 0x8000_0000_0000_0000 {
        bits as i64
    } else {
        (bits as i128 - 0x1_0000_0000_0000_0000i128) as i64
    }
}

/// A number in little-endian order: as many bytes as asked for, the least significant first, each
/// worth 256 times the one before it.
pub proof fn law_le_bytes(n: nat, width: nat, i: int)
    requires
        0 <= i < width,
    ensures
        le_bytes(n, width).len() == width,
        le_bytes(n, width)[i] == (n / vstd::arithmetic::power::pow(256, i as nat) as nat) % 256,
    decreases width,
{
    lemma_le_bytes_len(n, width);
    if i == 0 {
        vstd::arithmetic::power::lemma_pow0(256);
        vstd::arithmetic::div_mod::lemma_div_basics(n as int);
        assert(le_bytes(n, width)[0] == n % 256);
    } else {
        law_le_bytes(n / 256, (width - 1) as nat, i - 1);
        let rest = le_bytes(n / 256, (width - 1) as nat);
        assert(le_bytes(n, width)[i] == rest[i - 1]);
        let p = vstd::arithmetic::power::pow(256, (i - 1) as nat);
        vstd::arithmetic::power::lemma_pow_positive(256, (i - 1) as nat);
        assert(vstd::arithmetic::power::pow(256, i as nat) == 256 * p) by {
            reveal(vstd::arithmetic::power::pow);
        }
        vstd::arithmetic::div_mod::lemma_div_denominator(n as int, 256, p);
        assert((n / 256) / p as nat == n / (256 * p) as nat);
    }
}

/// The pattern of a signed number is the number itself, or 2 to the 64th more where it is negative.
pub proof fn law_signed_bits(n: i64)
    ensures
        signed_bits(n) < 0x1_0000_0000_0000_0000,
        signed_bits(n) == n || signed_bits(n) == n + 0x1_0000_0000_0000_0000,
        bits_signed(signed_bits(n)) == n,
{
}

} // verus!
