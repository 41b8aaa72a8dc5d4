//! Integers as bytes: little-endian words of a lane, and the big-endian
//! length fields of the padding.

use vstd::arithmetic::power2::{lemma2_to64, pow2};
use vstd::bits::lemma_u128_shr_is_div;
use vstd::prelude::*;

verus! {

/// Byte `k` of `x`, counted from the least significant one: the digit of
/// `x` at place `k` in base 256.
pub open spec fn byte_of(x: u128, k: int) -> u8 {
    ((x as int / pow2((8 * k) as nat) as int) % 256) as u8
}

/// The `n` bytes of `x`, least significant first.
pub open spec fn le_bytes(x: u128, n: nat) -> Seq<u8> {
    Seq::new(n, |i: int| byte_of(x, i))
}

/// The `n` bytes of `x`, most significant first.
pub open spec fn be_bytes(x: u128, n: nat) -> Seq<u8> {
    Seq::new(n, |i: int| byte_of(x, n - 1 - i))
}

/// The 32-bit word whose little-endian bytes are the first four of `s`.
pub open spec fn u32_from_le_bytes(s: Seq<u8>) -> u32 {
    (s[0] + 0x100 * s[1] + 0x1_0000 * s[2] + 0x100_0000 * s[3]) as u32
}

/// Byte `k` of `x`, for `k` below 16.
pub fn nth_byte(x: u128, k: usize) -> (b: u8)
    requires
        k < 16,
    ensures
        b == byte_of(x, k as int),
{
    let shift: u128 = (8 * k) as u128;
    let high: u128 = x >> shift;
    let low: u128 = high & 0xff;
    proof {
        lemma_u128_shr_is_div(x, shift);
        assert(low == high % 256) by (bit_vector)
            requires
                low == high & 0xff,
        ;
    }
    low as u8
}

/// The 16 bytes of `x`, most significant first.
pub fn to_be_bytes(x: u128) -> (out: [u8; 16])
    ensures
        out@ == be_bytes(x, 16),
{
    let mut out = [0u8; 16];
    let mut i: usize = 0;
    while i < 16
        invariant
            i <= 16,
            forall|j: int| 0 <= j < i ==> out@[j] == byte_of(x, 15 - j),
        decreases 16 - i,
    {
        out[i] = nth_byte(x, 15 - i);
        i += 1;
    }
    assert(out@ =~= be_bytes(x, 16));
    out
}

/// The word made of four bytes, least significant first.
pub fn word_from_le(b0: u8, b1: u8, b2: u8, b3: u8) -> (w: u32)
    ensures
        w == u32_from_le_bytes(seq![b0, b1, b2, b3]),
{
    let w = (b0 as u32) | (b1 as u32) << 8 | (b2 as u32) << 16 | (b3 as u32) << 24;
    assert(w == b0 + 0x100 * b1 + 0x1_0000 * b2 + 0x100_0000 * b3) by (bit_vector)
        requires
            w == (b0 as u32) | (b1 as u32) << 8 | (b2 as u32) << 16 | (b3 as u32) << 24,
    ;
    w
}

/// Taking a word's bytes gives back the bytes it was made of.
pub proof fn lemma_le_bytes_of_word(s: Seq<u8>)
    requires
        s.len() == 4,
    ensures
        le_bytes(u32_from_le_bytes(s) as u128, 4) == s,
{
    let w = s[0] + 0x100 * s[1] + 0x1_0000 * s[2] + 0x100_0000 * s[3];
    lemma2_to64();
    assert(w / 0x1 % 256 == s[0]);
    assert(w / 0x100 % 256 == s[1]);
    assert(w / 0x1_0000 % 256 == s[2]);
    assert(w / 0x100_0000 % 256 == s[3]);
    assert(le_bytes(u32_from_le_bytes(s) as u128, 4) =~= s);
}

} // verus!
