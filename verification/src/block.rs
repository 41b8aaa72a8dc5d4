//! The 128-bit lane and the operations on it that the permutations are built
//! from, implemented portably, byte by byte.

use crate::aes::{
    aes_inv_last_round, aes_last_round, aes_round, inv_mix_column_byte, inv_mix_columns,
    inv_shift_rows, inv_shift_rows_source, inv_sub_byte, inv_sub_bytes, mix_columns, shift_rows,
    shift_rows_source, sub_byte, sub_bytes, xor_bytes, xtime, zero_bytes, INV_SBOX, SBOX,
};
use crate::encoding::{le_bytes, nth_byte, u32_from_le_bytes, word_from_le};
use vstd::prelude::*;

verus! {

/// A 128-bit lane. Its view is its 16 bytes, in the order in which `load`
/// takes them and `store` gives them back.
#[derive(Clone, Copy, Debug)]
pub struct AesBlock {
    bytes: [u8; 16],
}

impl View for AesBlock {
    type V = Seq<u8>;

    closed spec fn view(&self) -> Seq<u8> {
        self.bytes@
    }
}

impl AesBlock {
    /// A lane has 16 bytes.
    pub proof fn lemma_len(self)
        ensures
            self@.len() == 16,
    {
    }

    /// Lanes with the same bytes are the same lane.
    pub proof fn lemma_ext_equal(self, other: AesBlock)
        requires
            self@ == other@,
        ensures
            self == other,
    {
        assert(self.bytes =~= other.bytes);
    }
}

/// The all-zero lane.
pub fn zero() -> (block: AesBlock)
    ensures
        block@ == zero_bytes(),
{
    let block = AesBlock { bytes: [0u8; 16] };
    assert(block@ =~= zero_bytes());
    block
}

/// The lane made of the 16 bytes given.
pub fn load(bytes: &[u8]) -> (block: AesBlock)
    requires
        bytes@.len() == 16,
    ensures
        block@ == bytes@,
{
    let mut out = [0u8; 16];
    let mut i: usize = 0;
    while i < 16
        invariant
            i <= 16,
            bytes@.len() == 16,
            forall|j: int| 0 <= j < i ==> out@[j] == bytes@[j],
        decreases 16 - i,
    {
        out[i] = bytes[i];
        i += 1;
    }
    assert(out@ =~= bytes@);
    AesBlock { bytes: out }
}

/// Writes the 16 bytes of a lane.
pub fn store(bytes: &mut [u8], block: AesBlock)
    requires
        old(bytes)@.len() == 16,
    ensures
        final(bytes)@ == block@,
{
    let mut i: usize = 0;
    while i < 16
        invariant
            i <= 16,
            bytes@.len() == 16,
            forall|j: int| 0 <= j < i ==> bytes@[j] == block.bytes@[j],
        decreases 16 - i,
    {
        bytes[i] = block.bytes[i];
        i += 1;
    }
    assert(bytes@ =~= block@);
}

/// Writes the 16 bytes of a lane into a longer buffer, from `at` on.
pub(crate) fn store_at(bytes: &mut [u8], at: usize, block: AesBlock)
    requires
        at + 16 <= old(bytes)@.len(),
    ensures
        final(bytes)@ == old(bytes)@.subrange(0, at as int) + block@ + old(bytes)@.subrange(
            at + 16,
            old(bytes)@.len() as int,
        ),
{
    let ghost before = bytes@;
    assert(bytes@.len() == bytes.len());
    let mut i: usize = 0;
    while i < 16
        invariant
            i <= 16,
            at + 16 <= before.len() <= usize::MAX,
            bytes@.len() == before.len(),
            forall|j: int| 0 <= j < at ==> bytes@[j] == before[j],
            forall|j: int| at <= j < at + i ==> bytes@[j] == block.bytes@[j - at],
            forall|j: int| at + i <= j < before.len() ==> bytes@[j] == before[j],
        decreases 16 - i,
    {
        bytes[at + i] = block.bytes[i];
        i += 1;
    }
    assert(bytes@ =~= before.subrange(0, at as int) + block@ + before.subrange(
        at + 16,
        before.len() as int,
    ));
}

/// The bytewise exclusive or of two lanes.
pub fn xor(a: AesBlock, b: AesBlock) -> (block: AesBlock)
    ensures
        block@ == xor_bytes(a@, b@),
{
    let mut out = [0u8; 16];
    let mut i: usize = 0;
    while i < 16
        invariant
            i <= 16,
            forall|j: int| 0 <= j < i ==> out@[j] == a.bytes@[j] ^ b.bytes@[j],
        decreases 16 - i,
    {
        out[i] = a.bytes[i] ^ b.bytes[i];
        i += 1;
    }
    assert(out@ =~= xor_bytes(a@, b@));
    AesBlock { bytes: out }
}

/// The bytewise exclusive or of three lanes.
pub fn xor3(a: AesBlock, b: AesBlock, c: AesBlock) -> (block: AesBlock)
    ensures
        block@ == xor_bytes(a@, xor_bytes(b@, c@)),
{
    xor(a, xor(b, c))
}

/// Doubles a byte in GF(2^8).
fn double(x: u8) -> (r: u8)
    ensures
        r == xtime(x),
{
    if x & 0x80 == 0 {
        x << 1
    } else {
        (x << 1) ^ 0x1b
    }
}

/// SubBytes after ShiftRows.
fn sub_shift(s: &[u8; 16]) -> (out: [u8; 16])
    ensures
        out@ == sub_bytes(shift_rows(s@)),
{
    let mut out = [0u8; 16];
    let mut i: usize = 0;
    while i < 16
        invariant
            i <= 16,
            forall|j: int| 0 <= j < i ==> out@[j] == sub_byte(s@[shift_rows_source(j)]),
        decreases 16 - i,
    {
        let from: usize = i % 4 + 4 * ((i / 4 + i % 4) % 4);
        out[i] = SBOX[s[from] as usize];
        i += 1;
    }
    assert(out@ =~= sub_bytes(shift_rows(s@)));
    out
}

/// InvSubBytes after InvShiftRows.
fn inv_sub_shift(s: &[u8; 16]) -> (out: [u8; 16])
    ensures
        out@ == inv_sub_bytes(inv_shift_rows(s@)),
{
    let mut out = [0u8; 16];
    let mut i: usize = 0;
    while i < 16
        invariant
            i <= 16,
            forall|j: int| 0 <= j < i ==> out@[j] == inv_sub_byte(s@[inv_shift_rows_source(j)]),
        decreases 16 - i,
    {
        let from: usize = i % 4 + 4 * ((i / 4 + 4 - i % 4) % 4);
        out[i] = INV_SBOX[s[from] as usize];
        i += 1;
    }
    assert(out@ =~= inv_sub_bytes(inv_shift_rows(s@)));
    out
}

/// MixColumns.
fn mix(s: &[u8; 16]) -> (out: [u8; 16])
    ensures
        out@ == mix_columns(s@),
{
    let mut out = [0u8; 16];
    let mut i: usize = 0;
    while i < 16
        invariant
            i <= 16,
            forall|j: int| 0 <= j < i ==> out@[j] == mix_columns(s@)[j],
        decreases 16 - i,
    {
        let c: usize = 4 * (i / 4);
        let (a, b) = (s[c + i % 4], s[c + (i + 1) % 4]);
        out[i] = double(a) ^ (double(b) ^ b) ^ s[c + (i + 2) % 4] ^ s[c + (i + 3) % 4];
        i += 1;
    }
    assert(out@ =~= mix_columns(s@));
    out
}

/// One output byte of InvMixColumns.
fn inv_mix_byte(a: u8, b: u8, c: u8, d: u8) -> (r: u8)
    ensures
        r == inv_mix_column_byte(a, b, c, d),
{
    let a2 = double(a);
    let a4 = double(a2);
    let a8 = double(a4);
    let b2 = double(b);
    let b8 = double(double(b2));
    let c4 = double(double(c));
    let c8 = double(c4);
    let d8 = double(double(double(d)));
    (a8 ^ a4 ^ a2) ^ (b8 ^ b2 ^ b) ^ (c8 ^ c4 ^ c) ^ (d8 ^ d)
}

/// Adds a round key to a state.
fn add_key(s: &[u8; 16], round_key: &AesBlock) -> (block: AesBlock)
    ensures
        block@ == xor_bytes(s@, round_key@),
{
    xor(AesBlock { bytes: *s }, *round_key)
}

/// One AES encryption round: ShiftRows, SubBytes, MixColumns, then the round
/// key is added.
pub fn enc(state: AesBlock, round_key: AesBlock) -> (block: AesBlock)
    ensures
        block@ == aes_round(state@, round_key@),
{
    let t = sub_shift(&state.bytes);
    let m = mix(&t);
    add_key(&m, &round_key)
}

/// The last AES encryption round: ShiftRows, SubBytes, then the round key is
/// added.
pub fn enc_last(state: AesBlock, round_key: AesBlock) -> (block: AesBlock)
    ensures
        block@ == aes_last_round(state@, round_key@),
{
    let t = sub_shift(&state.bytes);
    add_key(&t, &round_key)
}

/// The last AES decryption round: InvShiftRows, InvSubBytes, then the round
/// key is added.
pub fn dec_last(state: AesBlock, round_key: AesBlock) -> (block: AesBlock)
    ensures
        block@ == aes_inv_last_round(state@, round_key@),
{
    let t = inv_sub_shift(&state.bytes);
    add_key(&t, &round_key)
}

/// InvMixColumns.
pub fn inv_mix(state: AesBlock) -> (block: AesBlock)
    ensures
        block@ == inv_mix_columns(state@),
{
    let s = &state.bytes;
    let mut out = [0u8; 16];
    let mut i: usize = 0;
    while i < 16
        invariant
            i <= 16,
            forall|j: int| 0 <= j < i ==> out@[j] == inv_mix_columns(s@)[j],
        decreases 16 - i,
    {
        let c: usize = 4 * (i / 4);
        out[i] = inv_mix_byte(s[c + i % 4], s[c + (i + 1) % 4], s[c + (i + 2) % 4], s[c + (i + 3) % 4]);
        i += 1;
    }
    assert(out@ =~= inv_mix_columns(s@));
    AesBlock { bytes: out }
}

/// The lane made of two 64-bit words, each least significant byte first.
pub fn load_64x2(a: u64, b: u64) -> (block: AesBlock)
    ensures
        block@ == le_bytes(a as u128, 8) + le_bytes(b as u128, 8),
{
    let mut out = [0u8; 16];
    let mut i: usize = 0;
    while i < 8
        invariant
            i <= 8,
            forall|j: int| 0 <= j < i ==> out@[j] == le_bytes(a as u128, 8)[j],
            forall|j: int| 8 <= j < 8 + i ==> out@[j] == le_bytes(b as u128, 8)[j - 8],
        decreases 8 - i,
    {
        out[i] = nth_byte(a as u128, i);
        out[8 + i] = nth_byte(b as u128, i);
        i += 1;
    }
    assert(out@ =~= le_bytes(a as u128, 8) + le_bytes(b as u128, 8));
    AesBlock { bytes: out }
}

/// The lane made of four 32-bit words, each least significant byte first.
pub fn load_32x4(a: u32, b: u32, c: u32, d: u32) -> (block: AesBlock)
    ensures
        block@ == le_bytes(a as u128, 4) + le_bytes(b as u128, 4) + le_bytes(c as u128, 4)
            + le_bytes(d as u128, 4),
{
    let mut out = [0u8; 16];
    let mut i: usize = 0;
    while i < 4
        invariant
            i <= 4,
            forall|j: int| 0 <= j < i ==> out@[j] == le_bytes(a as u128, 4)[j],
            forall|j: int| 4 <= j < 4 + i ==> out@[j] == le_bytes(b as u128, 4)[j - 4],
            forall|j: int| 8 <= j < 8 + i ==> out@[j] == le_bytes(c as u128, 4)[j - 8],
            forall|j: int| 12 <= j < 12 + i ==> out@[j] == le_bytes(d as u128, 4)[j - 12],
        decreases 4 - i,
    {
        out[i] = nth_byte(a as u128, i);
        out[4 + i] = nth_byte(b as u128, i);
        out[8 + i] = nth_byte(c as u128, i);
        out[12 + i] = nth_byte(d as u128, i);
        i += 1;
    }
    assert(out@ =~= le_bytes(a as u128, 4) + le_bytes(b as u128, 4) + le_bytes(c as u128, 4)
        + le_bytes(d as u128, 4));
    AesBlock { bytes: out }
}

/// Writes a lane as four 32-bit words, each read least significant byte
/// first.
pub fn store_u32(words: &mut [u32], block: AesBlock)
    requires
        old(words)@.len() == 4,
    ensures
        final(words)@.len() == 4,
        forall|j: int|
            0 <= j < 4 ==> final(words)@[j] == u32_from_le_bytes(
                #[trigger] block@.subrange(4 * j, 4 * j + 4),
            ),
{
    let b = &block.bytes;
    let mut i: usize = 0;
    while i < 4
        invariant
            i <= 4,
            words@.len() == 4,
            forall|j: int|
                0 <= j < i ==> words@[j] == u32_from_le_bytes(
                    #[trigger] b@.subrange(4 * j, 4 * j + 4),
                ),
        decreases 4 - i,
    {
        let w = word_from_le(b[4 * i], b[4 * i + 1], b[4 * i + 2], b[4 * i + 3]);
        assert(seq![b@[4 * i], b@[4 * i + 1], b@[4 * i + 2], b@[4 * i + 3]] =~= b@.subrange(
            4 * i,
            4 * i + 4,
        ));
        words[i] = w;
        i += 1;
    }
}

} // verus!
