//! The Areion permutations on 256 and 512 bits, their inverses, and the
//! Davies-Meyer compression functions made from them.

use crate::aes::{
    aes_inv_last_round, aes_last_round, aes_round, inv_mix_columns, inv_shift_rows,
    inv_sub_bytes, lemma_inv_last_round, lemma_inv_mix_columns, lemma_inv_sub_shift,
    lemma_last_round_inv, lemma_mix_inv_mix_columns, lemma_sub_shift_inv, lemma_xor_bytes_cancel,
    mix_columns, shift_rows, sub_bytes, xor_bytes, zero_bytes,
};
use crate::block::{
    dec_last, enc, enc_last, inv_mix, load_32x4, load_64x2, store_u32, xor, zero, AesBlock,
};
use crate::encoding::{le_bytes, lemma_le_bytes_of_word};
use vstd::prelude::*;

verus! {

/// The round constants, each as two 64-bit halves, low half first.
pub const RC0: [[u64; 2]; 24] = [
    [0x13198a2e03707344, 0x243f6a8885a308d3],
    [0x082efa98ec4e6c89, 0xa4093822299f31d0],
    [0xbe5466cf34e90c6c, 0x452821e638d01377],
    [0x3f84d5b5b5470917, 0xc0ac29b7c97c50dd],
    [0xd1310ba698dfb5ac, 0x9216d5d98979fb1b],
    [0xb8e1afed6a267e96, 0x2ffd72dbd01adfb7],
    [0x24a19947b3916cf7, 0xba7c9045f12c7f99],
    [0x36920d871574e690, 0x801f2e2858efc166],
    [0x0d95748f728eb658, 0xa458fea3f4933d7e],
    [0x7b54a41dc25a59b5, 0x718bcd5882154aee],
    [0xc5d1b023286085f0, 0x9c30d5392af26013],
    [0x8e79dcb0603a180e, 0xca417918b8db38ef],
    [0xd71577c1bd314b27, 0x6c9e0e8bb01e8a3e],
    [0xe65525f3aa55ab94, 0x78af2fda55605c60],
    [0x55ca396a2aab10b6, 0x5748986263e81440],
    [0xa15486af7c72e993, 0xb4cc5c341141e8ce],
    [0x2ba9c55d741831f6, 0xb3ee1411636fbc2a],
    [0xafd6ba336c24cf5c, 0xce5c3e169b87931e],
    [0x3b8f48986b4bb9af, 0x7a32538128958677],
    [0x61d809ccfb21a991, 0xc4bfe81b66282193],
    [0xef845d5de98575b1, 0x487cac605dec8032],
    [0x23893e81d396acc5, 0xdc262302eb651b88],
    [0xe0b4482a48420040, 0xf6d6ff383f442392],
    [0x21c66842f6e96c9a, 0x69c8f04a9e1f9b5e],
];

/// Round constant `r` as the 16 bytes of a lane.
pub open spec fn round_constant(r: int) -> Seq<u8> {
    le_bytes(RC0[r][0] as u128, 8) + le_bytes(RC0[r][1] as u128, 8)
}

/// Round `r` of the 256-bit permutation, before the halves are swapped: the
/// first half goes through a keyless last round, and the second half takes
/// up the first half after two full rounds.
pub open spec fn round_256_bytes(r: int, x0: Seq<u8>, x1: Seq<u8>) -> (Seq<u8>, Seq<u8>) {
    (aes_last_round(x0, zero_bytes()), aes_round(aes_round(x0, round_constant(r)), x1))
}

/// The inverse of [`round_256_bytes`].
pub open spec fn inv_round_256_bytes(r: int, x0: Seq<u8>, x1: Seq<u8>) -> (Seq<u8>, Seq<u8>) {
    let a = aes_inv_last_round(x0, zero_bytes());
    (a, aes_round(aes_round(a, round_constant(r)), x1))
}

fn round_256<const R: usize>(x0: AesBlock, x1: AesBlock) -> (out: (AesBlock, AesBlock))
    requires
        R < 24,
    ensures
        (out.0@, out.1@) == round_256_bytes(R as int, x0@, x1@),
{
    let rc0 = load_64x2(RC0[R][0], RC0[R][1]);
    let rc1 = zero();
    let (x1, x0) = (enc(enc(x0, rc0), x1), enc_last(x0, rc1));
    (x0, x1)
}

fn inv_round_256<const R: usize>(x0: AesBlock, x1: AesBlock) -> (out: (AesBlock, AesBlock))
    requires
        R < 24,
    ensures
        (out.0@, out.1@) == inv_round_256_bytes(R as int, x0@, x1@),
{
    let rc0 = load_64x2(RC0[R][0], RC0[R][1]);
    let rc1 = zero();
    let x0 = dec_last(x0, rc1);
    let x1 = enc(enc(x0, rc0), x1);
    (x0, x1)
}

/// The state of the 256-bit permutation after its first `n` rounds. Each
/// round is followed by a swap of the halves, so that the rounds take turns
/// at them.
pub open spec fn rounds_256(n: nat, x0: Seq<u8>, x1: Seq<u8>) -> (Seq<u8>, Seq<u8>)
    decreases n,
{
    if n == 0 {
        (x0, x1)
    } else {
        let (a, b) = rounds_256((n - 1) as nat, x0, x1);
        let (a, b) = round_256_bytes(n - 1, a, b);
        (b, a)
    }
}

/// The state from which the first `n` rounds of the 256-bit permutation
/// lead to `(x0, x1)`.
pub open spec fn inv_rounds_256(n: nat, x0: Seq<u8>, x1: Seq<u8>) -> (Seq<u8>, Seq<u8>)
    decreases n,
{
    if n == 0 {
        (x0, x1)
    } else {
        let (a, b) = inv_round_256_bytes(n - 1, x1, x0);
        inv_rounds_256((n - 1) as nat, a, b)
    }
}

/// The 256-bit permutation: ten rounds.
pub open spec fn permute_256(x0: Seq<u8>, x1: Seq<u8>) -> (Seq<u8>, Seq<u8>) {
    rounds_256(10, x0, x1)
}

/// The inverse of the 256-bit permutation.
pub open spec fn inv_permute_256(x0: Seq<u8>, x1: Seq<u8>) -> (Seq<u8>, Seq<u8>) {
    inv_rounds_256(10, x0, x1)
}

/// The 256-bit Areion permutation.
pub fn areion256(x0: AesBlock, x1: AesBlock) -> (out: (AesBlock, AesBlock))
    ensures
        (out.0@, out.1@) == permute_256(x0@, x1@),
{
    let ghost (a, b) = (x0@, x1@);
    assert(rounds_256(0, a, b) == (x0@, x1@));
    let (x0, x1) = round_256::<0>(x0, x1);
    assert(rounds_256(1, a, b) == (x1@, x0@));
    let (x1, x0) = round_256::<1>(x1, x0);
    assert(rounds_256(2, a, b) == (x0@, x1@));
    let (x0, x1) = round_256::<2>(x0, x1);
    assert(rounds_256(3, a, b) == (x1@, x0@));
    let (x1, x0) = round_256::<3>(x1, x0);
    assert(rounds_256(4, a, b) == (x0@, x1@));
    let (x0, x1) = round_256::<4>(x0, x1);
    assert(rounds_256(5, a, b) == (x1@, x0@));
    let (x1, x0) = round_256::<5>(x1, x0);
    assert(rounds_256(6, a, b) == (x0@, x1@));
    let (x0, x1) = round_256::<6>(x0, x1);
    assert(rounds_256(7, a, b) == (x1@, x0@));
    let (x1, x0) = round_256::<7>(x1, x0);
    assert(rounds_256(8, a, b) == (x0@, x1@));
    let (x0, x1) = round_256::<8>(x0, x1);
    assert(rounds_256(9, a, b) == (x1@, x0@));
    let (x1, x0) = round_256::<9>(x1, x0);
    assert(rounds_256(10, a, b) == (x0@, x1@));
    (x0, x1)
}

/// The inverse of the 256-bit Areion permutation.
pub fn inv_areion256(x0: AesBlock, x1: AesBlock) -> (out: (AesBlock, AesBlock))
    ensures
        (out.0@, out.1@) == inv_permute_256(x0@, x1@),
{
    let ghost want = inv_permute_256(x0@, x1@);
    assert(inv_rounds_256(10, x0@, x1@) == want);
    let (x1, x0) = inv_round_256::<9>(x1, x0);
    assert(inv_rounds_256(9, x1@, x0@) == want);
    let (x0, x1) = inv_round_256::<8>(x0, x1);
    assert(inv_rounds_256(8, x0@, x1@) == want);
    let (x1, x0) = inv_round_256::<7>(x1, x0);
    assert(inv_rounds_256(7, x1@, x0@) == want);
    let (x0, x1) = inv_round_256::<6>(x0, x1);
    assert(inv_rounds_256(6, x0@, x1@) == want);
    let (x1, x0) = inv_round_256::<5>(x1, x0);
    assert(inv_rounds_256(5, x1@, x0@) == want);
    let (x0, x1) = inv_round_256::<4>(x0, x1);
    assert(inv_rounds_256(4, x0@, x1@) == want);
    let (x1, x0) = inv_round_256::<3>(x1, x0);
    assert(inv_rounds_256(3, x1@, x0@) == want);
    let (x0, x1) = inv_round_256::<2>(x0, x1);
    assert(inv_rounds_256(2, x0@, x1@) == want);
    let (x1, x0) = inv_round_256::<1>(x1, x0);
    assert(inv_rounds_256(1, x1@, x0@) == want);
    let (x0, x1) = inv_round_256::<0>(x0, x1);
    assert(inv_rounds_256(0, x0@, x1@) == want);
    (x0, x1)
}

/// A full round takes its round key up by exclusive or, so running it again
/// on the same state with the result as round key gives the round key back.
proof fn lemma_aes_round_key(state: Seq<u8>, round_key: Seq<u8>)
    requires
        round_key.len() == 16,
    ensures
        aes_round(state, aes_round(state, round_key)) == round_key,
{
    let t = mix_columns(sub_bytes(shift_rows(state)));
    assert(xor_bytes(t, xor_bytes(t, round_key)) =~= round_key) by {
        assert forall|i: int| 0 <= i < 16 implies t[i] ^ (t[i] ^ round_key[i]) == round_key[i] by {
            let (p, q) = (t[i], round_key[i]);
            assert(p ^ (p ^ q) == q) by (bit_vector);
        }
    }
}

/// The inverse round undoes the round.
proof fn lemma_inv_round_256(r: int, x0: Seq<u8>, x1: Seq<u8>)
    requires
        x0.len() == 16,
        x1.len() == 16,
    ensures
        ({
            let (a, b) = round_256_bytes(r, x0, x1);
            inv_round_256_bytes(r, a, b) == (x0, x1)
        }),
{
    lemma_inv_last_round(x0, zero_bytes());
    lemma_aes_round_key(aes_round(x0, round_constant(r)), x1);
}

/// Undoing the first `n` rounds of the 256-bit permutation gives back the
/// state they started from.
proof fn lemma_inv_rounds_256(n: nat, x0: Seq<u8>, x1: Seq<u8>)
    requires
        x0.len() == 16,
        x1.len() == 16,
    ensures
        rounds_256(n, x0, x1).0.len() == 16,
        rounds_256(n, x0, x1).1.len() == 16,
        inv_rounds_256(n, rounds_256(n, x0, x1).0, rounds_256(n, x0, x1).1) == (x0, x1),
    decreases n,
{
    if n > 0 {
        lemma_inv_rounds_256((n - 1) as nat, x0, x1);
        let (a, b) = rounds_256((n - 1) as nat, x0, x1);
        lemma_inv_round_256(n - 1, a, b);
    }
}

/// The inverse of the 256-bit permutation undoes the permutation, on every
/// pair of lanes.
pub proof fn lemma_inv_permute_256(x0: Seq<u8>, x1: Seq<u8>)
    requires
        x0.len() == 16,
        x1.len() == 16,
    ensures
        ({
            let (y0, y1) = permute_256(x0, x1);
            inv_permute_256(y0, y1) == (x0, x1)
        }),
{
    lemma_inv_rounds_256(10, x0, x1);
}

/// The round undoes the inverse round.
proof fn lemma_round_inv_256(r: int, x0: Seq<u8>, x1: Seq<u8>)
    requires
        x0.len() == 16,
        x1.len() == 16,
    ensures
        ({
            let (a, b) = inv_round_256_bytes(r, x0, x1);
            round_256_bytes(r, a, b) == (x0, x1)
        }),
{
    lemma_last_round_inv(x0, zero_bytes());
    let a = aes_inv_last_round(x0, zero_bytes());
    lemma_aes_round_key(aes_round(a, round_constant(r)), x1);
}

/// Running the first `n` rounds of the 256-bit permutation on the state
/// that their inverse leads to gives back the state it started from.
proof fn lemma_rounds_inv_256(n: nat, x0: Seq<u8>, x1: Seq<u8>)
    requires
        x0.len() == 16,
        x1.len() == 16,
    ensures
        inv_rounds_256(n, x0, x1).0.len() == 16,
        inv_rounds_256(n, x0, x1).1.len() == 16,
        rounds_256(n, inv_rounds_256(n, x0, x1).0, inv_rounds_256(n, x0, x1).1) == (x0, x1),
    decreases n,
{
    if n > 0 {
        let (a, b) = inv_round_256_bytes(n - 1, x1, x0);
        lemma_round_inv_256(n - 1, x1, x0);
        lemma_rounds_inv_256((n - 1) as nat, a, b);
    }
}

/// The 256-bit permutation undoes its inverse, on every pair of lanes:
/// together with [`lemma_inv_permute_256`], the permutation is a bijection.
pub proof fn lemma_permute_inv_256(x0: Seq<u8>, x1: Seq<u8>)
    requires
        x0.len() == 16,
        x1.len() == 16,
    ensures
        ({
            let (y0, y1) = inv_permute_256(x0, x1);
            permute_256(y0, y1) == (x0, x1)
        }),
{
    lemma_rounds_inv_256(10, x0, x1);
}

/// Round `r` of the 512-bit permutation, before the lanes are rotated: the
/// first and third lanes are taken up by their right-hand neighbours after
/// one full round, and then go through a keyless last round themselves, the
/// third one with the round constant and one more full round.
pub open spec fn round_512_bytes(r: int, x0: Seq<u8>, x1: Seq<u8>, x2: Seq<u8>, x3: Seq<u8>) -> (
    Seq<u8>,
    Seq<u8>,
    Seq<u8>,
    Seq<u8>,
) {
    (
        aes_last_round(x0, zero_bytes()),
        aes_round(x0, x1),
        aes_round(aes_last_round(x2, round_constant(r)), zero_bytes()),
        aes_round(x2, x3),
    )
}

/// The inverse of [`round_512_bytes`].
pub open spec fn inv_round_512_bytes(
    r: int,
    x0: Seq<u8>,
    x1: Seq<u8>,
    x2: Seq<u8>,
    x3: Seq<u8>,
) -> (Seq<u8>, Seq<u8>, Seq<u8>, Seq<u8>) {
    let a = aes_inv_last_round(x0, zero_bytes());
    let c = aes_inv_last_round(
        aes_inv_last_round(inv_mix_columns(x2), round_constant(r)),
        zero_bytes(),
    );
    (a, aes_round(a, x1), c, aes_round(c, x3))
}

fn round_512<const R: usize>(x0: AesBlock, x1: AesBlock, x2: AesBlock, x3: AesBlock) -> (out: (
    AesBlock,
    AesBlock,
    AesBlock,
    AesBlock,
))
    requires
        R < 24,
    ensures
        (out.0@, out.1@, out.2@, out.3@) == round_512_bytes(R as int, x0@, x1@, x2@, x3@),
{
    let rc0 = load_64x2(RC0[R][0], RC0[R][1]);
    let rc1 = zero();
    let x1 = enc(x0, x1);
    let x3 = enc(x2, x3);
    let x0 = enc_last(x0, rc1);
    let x2 = enc(enc_last(x2, rc0), rc1);
    (x0, x1, x2, x3)
}

fn inv_round_512<const R: usize>(x0: AesBlock, x1: AesBlock, x2: AesBlock, x3: AesBlock) -> (out: (
    AesBlock,
    AesBlock,
    AesBlock,
    AesBlock,
))
    requires
        R < 24,
    ensures
        (out.0@, out.1@, out.2@, out.3@) == inv_round_512_bytes(R as int, x0@, x1@, x2@, x3@),
{
    let rc0 = load_64x2(RC0[R][0], RC0[R][1]);
    let rc1 = zero();
    let x0 = dec_last(x0, rc1);
    let x2 = dec_last(dec_last(inv_mix(x2), rc0), rc1);
    let x1 = enc(x0, x1);
    let x3 = enc(x2, x3);
    (x0, x1, x2, x3)
}

/// The state of the 512-bit permutation after its first `n` rounds. Each
/// round is followed by a rotation of the lanes by one place to the left.
pub open spec fn rounds_512(n: nat, x0: Seq<u8>, x1: Seq<u8>, x2: Seq<u8>, x3: Seq<u8>) -> (
    Seq<u8>,
    Seq<u8>,
    Seq<u8>,
    Seq<u8>,
)
    decreases n,
{
    if n == 0 {
        (x0, x1, x2, x3)
    } else {
        let (a, b, c, d) = rounds_512((n - 1) as nat, x0, x1, x2, x3);
        let (a, b, c, d) = round_512_bytes(n - 1, a, b, c, d);
        (b, c, d, a)
    }
}

/// The state from which the first `n` rounds of the 512-bit permutation
/// lead to `(x0, x1, x2, x3)`.
pub open spec fn inv_rounds_512(n: nat, x0: Seq<u8>, x1: Seq<u8>, x2: Seq<u8>, x3: Seq<u8>) -> (
    Seq<u8>,
    Seq<u8>,
    Seq<u8>,
    Seq<u8>,
)
    decreases n,
{
    if n == 0 {
        (x0, x1, x2, x3)
    } else {
        let (a, b, c, d) = inv_round_512_bytes(n - 1, x3, x0, x1, x2);
        inv_rounds_512((n - 1) as nat, a, b, c, d)
    }
}

/// The 512-bit permutation: fifteen rounds.
pub open spec fn permute_512(x0: Seq<u8>, x1: Seq<u8>, x2: Seq<u8>, x3: Seq<u8>) -> (
    Seq<u8>,
    Seq<u8>,
    Seq<u8>,
    Seq<u8>,
) {
    rounds_512(15, x0, x1, x2, x3)
}

/// The inverse of the 512-bit permutation.
pub open spec fn inv_permute_512(x0: Seq<u8>, x1: Seq<u8>, x2: Seq<u8>, x3: Seq<u8>) -> (
    Seq<u8>,
    Seq<u8>,
    Seq<u8>,
    Seq<u8>,
) {
    inv_rounds_512(15, x0, x1, x2, x3)
}

/// The 512-bit Areion permutation.
pub fn areion512(x0: AesBlock, x1: AesBlock, x2: AesBlock, x3: AesBlock) -> (out: (
    AesBlock,
    AesBlock,
    AesBlock,
    AesBlock,
))
    ensures
        (out.0@, out.1@, out.2@, out.3@) == permute_512(x0@, x1@, x2@, x3@),
{
    let ghost (a, b, c, d) = (x0@, x1@, x2@, x3@);
    assert(rounds_512(0, a, b, c, d) == (x0@, x1@, x2@, x3@));
    let (x0, x1, x2, x3) = round_512::<0>(x0, x1, x2, x3);
    assert(rounds_512(1, a, b, c, d) == (x1@, x2@, x3@, x0@));
    let (x1, x2, x3, x0) = round_512::<1>(x1, x2, x3, x0);
    assert(rounds_512(2, a, b, c, d) == (x2@, x3@, x0@, x1@));
    let (x2, x3, x0, x1) = round_512::<2>(x2, x3, x0, x1);
    assert(rounds_512(3, a, b, c, d) == (x3@, x0@, x1@, x2@));
    let (x3, x0, x1, x2) = round_512::<3>(x3, x0, x1, x2);
    assert(rounds_512(4, a, b, c, d) == (x0@, x1@, x2@, x3@));
    let (x0, x1, x2, x3) = round_512::<4>(x0, x1, x2, x3);
    assert(rounds_512(5, a, b, c, d) == (x1@, x2@, x3@, x0@));
    let (x1, x2, x3, x0) = round_512::<5>(x1, x2, x3, x0);
    assert(rounds_512(6, a, b, c, d) == (x2@, x3@, x0@, x1@));
    let (x2, x3, x0, x1) = round_512::<6>(x2, x3, x0, x1);
    assert(rounds_512(7, a, b, c, d) == (x3@, x0@, x1@, x2@));
    let (x3, x0, x1, x2) = round_512::<7>(x3, x0, x1, x2);
    assert(rounds_512(8, a, b, c, d) == (x0@, x1@, x2@, x3@));
    let (x0, x1, x2, x3) = round_512::<8>(x0, x1, x2, x3);
    assert(rounds_512(9, a, b, c, d) == (x1@, x2@, x3@, x0@));
    let (x1, x2, x3, x0) = round_512::<9>(x1, x2, x3, x0);
    assert(rounds_512(10, a, b, c, d) == (x2@, x3@, x0@, x1@));
    let (x2, x3, x0, x1) = round_512::<10>(x2, x3, x0, x1);
    assert(rounds_512(11, a, b, c, d) == (x3@, x0@, x1@, x2@));
    let (x3, x0, x1, x2) = round_512::<11>(x3, x0, x1, x2);
    assert(rounds_512(12, a, b, c, d) == (x0@, x1@, x2@, x3@));
    let (x0, x1, x2, x3) = round_512::<12>(x0, x1, x2, x3);
    assert(rounds_512(13, a, b, c, d) == (x1@, x2@, x3@, x0@));
    let (x1, x2, x3, x0) = round_512::<13>(x1, x2, x3, x0);
    assert(rounds_512(14, a, b, c, d) == (x2@, x3@, x0@, x1@));
    let (x2, x3, x0, x1) = round_512::<14>(x2, x3, x0, x1);
    assert(rounds_512(15, a, b, c, d) == (x3@, x0@, x1@, x2@));
    (x3, x0, x1, x2)
}

/// The inverse of the 512-bit Areion permutation.
pub fn inv_areion512(x0: AesBlock, x1: AesBlock, x2: AesBlock, x3: AesBlock) -> (out: (
    AesBlock,
    AesBlock,
    AesBlock,
    AesBlock,
))
    ensures
        (out.0@, out.1@, out.2@, out.3@) == inv_permute_512(x0@, x1@, x2@, x3@),
{
    let ghost want = inv_permute_512(x0@, x1@, x2@, x3@);
    let (x2, x3, x0, x1) = (x3, x0, x1, x2);
    assert(inv_rounds_512(15, x3@, x0@, x1@, x2@) == want);
    let (x2, x3, x0, x1) = inv_round_512::<14>(x2, x3, x0, x1);
    assert(inv_rounds_512(14, x2@, x3@, x0@, x1@) == want);
    let (x1, x2, x3, x0) = inv_round_512::<13>(x1, x2, x3, x0);
    assert(inv_rounds_512(13, x1@, x2@, x3@, x0@) == want);
    let (x0, x1, x2, x3) = inv_round_512::<12>(x0, x1, x2, x3);
    assert(inv_rounds_512(12, x0@, x1@, x2@, x3@) == want);
    let (x3, x0, x1, x2) = inv_round_512::<11>(x3, x0, x1, x2);
    assert(inv_rounds_512(11, x3@, x0@, x1@, x2@) == want);
    let (x2, x3, x0, x1) = inv_round_512::<10>(x2, x3, x0, x1);
    assert(inv_rounds_512(10, x2@, x3@, x0@, x1@) == want);
    let (x1, x2, x3, x0) = inv_round_512::<9>(x1, x2, x3, x0);
    assert(inv_rounds_512(9, x1@, x2@, x3@, x0@) == want);
    let (x0, x1, x2, x3) = inv_round_512::<8>(x0, x1, x2, x3);
    assert(inv_rounds_512(8, x0@, x1@, x2@, x3@) == want);
    let (x3, x0, x1, x2) = inv_round_512::<7>(x3, x0, x1, x2);
    assert(inv_rounds_512(7, x3@, x0@, x1@, x2@) == want);
    let (x2, x3, x0, x1) = inv_round_512::<6>(x2, x3, x0, x1);
    assert(inv_rounds_512(6, x2@, x3@, x0@, x1@) == want);
    let (x1, x2, x3, x0) = inv_round_512::<5>(x1, x2, x3, x0);
    assert(inv_rounds_512(5, x1@, x2@, x3@, x0@) == want);
    let (x0, x1, x2, x3) = inv_round_512::<4>(x0, x1, x2, x3);
    assert(inv_rounds_512(4, x0@, x1@, x2@, x3@) == want);
    let (x3, x0, x1, x2) = inv_round_512::<3>(x3, x0, x1, x2);
    assert(inv_rounds_512(3, x3@, x0@, x1@, x2@) == want);
    let (x2, x3, x0, x1) = inv_round_512::<2>(x2, x3, x0, x1);
    assert(inv_rounds_512(2, x2@, x3@, x0@, x1@) == want);
    let (x1, x2, x3, x0) = inv_round_512::<1>(x1, x2, x3, x0);
    assert(inv_rounds_512(1, x1@, x2@, x3@, x0@) == want);
    let (x0, x1, x2, x3) = inv_round_512::<0>(x0, x1, x2, x3);
    assert(inv_rounds_512(0, x0@, x1@, x2@, x3@) == want);
    (x0, x1, x2, x3)
}

/// The inverse round undoes the round.
proof fn lemma_inv_round_512(r: int, x0: Seq<u8>, x1: Seq<u8>, x2: Seq<u8>, x3: Seq<u8>)
    requires
        x0.len() == 16,
        x1.len() == 16,
        x2.len() == 16,
        x3.len() == 16,
    ensures
        ({
            let (a, b, c, d) = round_512_bytes(r, x0, x1, x2, x3);
            inv_round_512_bytes(r, a, b, c, d) == (x0, x1, x2, x3)
        }),
{
    let rc = round_constant(r);
    lemma_inv_last_round(x0, zero_bytes());
    lemma_aes_round_key(x0, x1);
    lemma_aes_round_key(x2, x3);
    // The third lane: peel off the full round, then the two last rounds.
    let y = aes_last_round(x2, rc);
    let t = sub_bytes(shift_rows(y));
    lemma_xor_bytes_cancel(mix_columns(t), zero_bytes());
    lemma_inv_mix_columns(t);
    assert(inv_mix_columns(aes_round(y, zero_bytes())) == t);
    lemma_inv_sub_shift(y);
    assert(aes_inv_last_round(t, rc) == xor_bytes(y, rc));
    lemma_inv_last_round(x2, rc);
}

/// Undoing the first `n` rounds of the 512-bit permutation gives back the
/// state they started from.
proof fn lemma_inv_rounds_512(n: nat, x0: Seq<u8>, x1: Seq<u8>, x2: Seq<u8>, x3: Seq<u8>)
    requires
        x0.len() == 16,
        x1.len() == 16,
        x2.len() == 16,
        x3.len() == 16,
    ensures
        ({
            let (y0, y1, y2, y3) = rounds_512(n, x0, x1, x2, x3);
            &&& y0.len() == 16
            &&& y1.len() == 16
            &&& y2.len() == 16
            &&& y3.len() == 16
            &&& inv_rounds_512(n, y0, y1, y2, y3) == (x0, x1, x2, x3)
        }),
    decreases n,
{
    if n > 0 {
        lemma_inv_rounds_512((n - 1) as nat, x0, x1, x2, x3);
        let (a, b, c, d) = rounds_512((n - 1) as nat, x0, x1, x2, x3);
        lemma_inv_round_512(n - 1, a, b, c, d);
    }
}

/// The inverse of the 512-bit permutation undoes the permutation, on every
/// four lanes.
pub proof fn lemma_inv_permute_512(x0: Seq<u8>, x1: Seq<u8>, x2: Seq<u8>, x3: Seq<u8>)
    requires
        x0.len() == 16,
        x1.len() == 16,
        x2.len() == 16,
        x3.len() == 16,
    ensures
        ({
            let (y0, y1, y2, y3) = permute_512(x0, x1, x2, x3);
            inv_permute_512(y0, y1, y2, y3) == (x0, x1, x2, x3)
        }),
{
    lemma_inv_rounds_512(15, x0, x1, x2, x3);
}

/// The round undoes the inverse round.
proof fn lemma_round_inv_512(r: int, x0: Seq<u8>, x1: Seq<u8>, x2: Seq<u8>, x3: Seq<u8>)
    requires
        x0.len() == 16,
        x1.len() == 16,
        x2.len() == 16,
        x3.len() == 16,
    ensures
        ({
            let (a, b, c, d) = inv_round_512_bytes(r, x0, x1, x2, x3);
            round_512_bytes(r, a, b, c, d) == (x0, x1, x2, x3)
        }),
{
    let rc = round_constant(r);
    let (a, b, c, d) = inv_round_512_bytes(r, x0, x1, x2, x3);
    lemma_last_round_inv(x0, zero_bytes());
    lemma_aes_round_key(a, x1);
    lemma_aes_round_key(c, x3);
    // The third lane: put the two last rounds back, then the full round.
    let v = inv_sub_bytes(inv_shift_rows(inv_mix_columns(x2)));
    let u = aes_inv_last_round(inv_mix_columns(x2), rc);
    lemma_last_round_inv(u, zero_bytes());
    assert(aes_last_round(c, rc) == xor_bytes(u, rc)) by {
        lemma_xor_bytes_cancel(u, zero_bytes());
        lemma_xor_bytes_cancel(sub_bytes(shift_rows(c)), zero_bytes());
    }
    lemma_xor_bytes_cancel(v, rc);
    assert(aes_last_round(c, rc) == v);
    lemma_sub_shift_inv(inv_mix_columns(x2));
    lemma_mix_inv_mix_columns(x2);
    lemma_xor_bytes_cancel(x2, zero_bytes());
}

/// Running the first `n` rounds of the 512-bit permutation on the state
/// that their inverse leads to gives back the state it started from.
proof fn lemma_rounds_inv_512(n: nat, x0: Seq<u8>, x1: Seq<u8>, x2: Seq<u8>, x3: Seq<u8>)
    requires
        x0.len() == 16,
        x1.len() == 16,
        x2.len() == 16,
        x3.len() == 16,
    ensures
        ({
            let (y0, y1, y2, y3) = inv_rounds_512(n, x0, x1, x2, x3);
            &&& y0.len() == 16
            &&& y1.len() == 16
            &&& y2.len() == 16
            &&& y3.len() == 16
            &&& rounds_512(n, y0, y1, y2, y3) == (x0, x1, x2, x3)
        }),
    decreases n,
{
    if n > 0 {
        let (a, b, c, d) = inv_round_512_bytes(n - 1, x3, x0, x1, x2);
        lemma_round_inv_512(n - 1, x3, x0, x1, x2);
        lemma_rounds_inv_512((n - 1) as nat, a, b, c, d);
    }
}

/// The 512-bit permutation undoes its inverse, on every four lanes:
/// together with [`lemma_inv_permute_512`], the permutation is a bijection.
pub proof fn lemma_permute_inv_512(x0: Seq<u8>, x1: Seq<u8>, x2: Seq<u8>, x3: Seq<u8>)
    requires
        x0.len() == 16,
        x1.len() == 16,
        x2.len() == 16,
        x3.len() == 16,
    ensures
        ({
            let (y0, y1, y2, y3) = inv_permute_512(x0, x1, x2, x3);
            permute_512(y0, y1, y2, y3) == (x0, x1, x2, x3)
        }),
{
    lemma_rounds_inv_512(15, x0, x1, x2, x3);
}

/// The Davies-Meyer compression function on the 256-bit permutation: the
/// permutation's output with its input added lane by lane.
pub open spec fn davies_meyer_256(x0: Seq<u8>, x1: Seq<u8>) -> (Seq<u8>, Seq<u8>) {
    let (y0, y1) = permute_256(x0, x1);
    (xor_bytes(y0, x0), xor_bytes(y1, x1))
}

/// The Davies-Meyer compression function on the 512-bit permutation, cut
/// down to 256 bits: of the permutation's output with its input added, the
/// upper halves of the first two lanes make the first lane of the result,
/// and the lower halves of the last two lanes make the second.
pub open spec fn davies_meyer_512(x0: Seq<u8>, x1: Seq<u8>, x2: Seq<u8>, x3: Seq<u8>) -> (
    Seq<u8>,
    Seq<u8>,
) {
    let (y0, y1, y2, y3) = permute_512(x0, x1, x2, x3);
    let (f0, f1) = (xor_bytes(y0, x0), xor_bytes(y1, x1));
    let (f2, f3) = (xor_bytes(y2, x2), xor_bytes(y3, x3));
    (f0.subrange(8, 16) + f1.subrange(8, 16), f2.subrange(0, 8) + f3.subrange(0, 8))
}

/// The single-key Even-Mansour cipher on the 512-bit permutation: the key is
/// added, lane by lane, to the input and to what the permutation makes of
/// the sum.
pub open spec fn even_mansour_512(
    key: (Seq<u8>, Seq<u8>, Seq<u8>, Seq<u8>),
    x: (Seq<u8>, Seq<u8>, Seq<u8>, Seq<u8>),
) -> (Seq<u8>, Seq<u8>, Seq<u8>, Seq<u8>) {
    let (y0, y1, y2, y3) = permute_512(
        xor_bytes(x.0, key.0),
        xor_bytes(x.1, key.1),
        xor_bytes(x.2, key.2),
        xor_bytes(x.3, key.3),
    );
    (xor_bytes(y0, key.0), xor_bytes(y1, key.1), xor_bytes(y2, key.2), xor_bytes(y3, key.3))
}

/// The 256-bit permutation in Davies-Meyer mode.
pub fn areion256_dm(x0: AesBlock, x1: AesBlock) -> (out: (AesBlock, AesBlock))
    ensures
        (out.0@, out.1@) == davies_meyer_256(x0@, x1@),
{
    let (x0_p, x1_p) = areion256(x0, x1);
    (xor(x0_p, x0), xor(x1_p, x1))
}

/// The 512-bit permutation in Davies-Meyer mode, with its output cut down to
/// two lanes.
pub fn areion512_dm(x0: AesBlock, x1: AesBlock, x2: AesBlock, x3: AesBlock) -> (out: (
    AesBlock,
    AesBlock,
))
    ensures
        (out.0@, out.1@) == davies_meyer_512(x0@, x1@, x2@, x3@),
{
    let (x0_p, x1_p, x2_p, x3_p) = areion512(x0, x1, x2, x3);
    let (x0_p, x1_p, x2_p, x3_p) = (xor(x0_p, x0), xor(x1_p, x1), xor(x2_p, x2), xor(x3_p, x3));

    let mut w0 = [0u32; 4];
    let mut w1 = [0u32; 4];
    let mut w2 = [0u32; 4];
    let mut w3 = [0u32; 4];
    store_u32(&mut w0, x0_p);
    store_u32(&mut w1, x1_p);
    store_u32(&mut w2, x2_p);
    store_u32(&mut w3, x3_p);

    let out0 = load_32x4(w0[2], w0[3], w1[2], w1[3]);
    let out1 = load_32x4(w2[0], w2[1], w3[0], w3[1]);
    proof {
        let (f0, f1, f2, f3) = (x0_p@, x1_p@, x2_p@, x3_p@);
        lemma_le_bytes_of_word(f0.subrange(8, 12));
        lemma_le_bytes_of_word(f0.subrange(12, 16));
        lemma_le_bytes_of_word(f1.subrange(8, 12));
        lemma_le_bytes_of_word(f1.subrange(12, 16));
        lemma_le_bytes_of_word(f2.subrange(0, 4));
        lemma_le_bytes_of_word(f2.subrange(4, 8));
        lemma_le_bytes_of_word(f3.subrange(0, 4));
        lemma_le_bytes_of_word(f3.subrange(4, 8));
        assert(out0@ =~= f0.subrange(8, 16) + f1.subrange(8, 16));
        assert(out1@ =~= f2.subrange(0, 8) + f3.subrange(0, 8));
    }
    (out0, out1)
}

} // verus!
