//! The byte-level steps of the AES round function (FIPS 197) on a 16-byte
//! state, stated as specification functions, together with the lemmas that
//! the inverse steps undo the forward ones.
//!
//! A state is a sequence of 16 bytes in column-major order: byte `r + 4 * c`
//! sits in row `r` of column `c`.

use vstd::prelude::*;

verus! {

/// The AES substitution box.
pub const SBOX: [u8; 256] = [
    0x63, 0x7c, 0x77, 0x7b, 0xf2, 0x6b, 0x6f, 0xc5, 0x30, 0x01, 0x67, 0x2b, 0xfe, 0xd7, 0xab, 0x76,
    0xca, 0x82, 0xc9, 0x7d, 0xfa, 0x59, 0x47, 0xf0, 0xad, 0xd4, 0xa2, 0xaf, 0x9c, 0xa4, 0x72, 0xc0,
    0xb7, 0xfd, 0x93, 0x26, 0x36, 0x3f, 0xf7, 0xcc, 0x34, 0xa5, 0xe5, 0xf1, 0x71, 0xd8, 0x31, 0x15,
    0x04, 0xc7, 0x23, 0xc3, 0x18, 0x96, 0x05, 0x9a, 0x07, 0x12, 0x80, 0xe2, 0xeb, 0x27, 0xb2, 0x75,
    0x09, 0x83, 0x2c, 0x1a, 0x1b, 0x6e, 0x5a, 0xa0, 0x52, 0x3b, 0xd6, 0xb3, 0x29, 0xe3, 0x2f, 0x84,
    0x53, 0xd1, 0x00, 0xed, 0x20, 0xfc, 0xb1, 0x5b, 0x6a, 0xcb, 0xbe, 0x39, 0x4a, 0x4c, 0x58, 0xcf,
    0xd0, 0xef, 0xaa, 0xfb, 0x43, 0x4d, 0x33, 0x85, 0x45, 0xf9, 0x02, 0x7f, 0x50, 0x3c, 0x9f, 0xa8,
    0x51, 0xa3, 0x40, 0x8f, 0x92, 0x9d, 0x38, 0xf5, 0xbc, 0xb6, 0xda, 0x21, 0x10, 0xff, 0xf3, 0xd2,
    0xcd, 0x0c, 0x13, 0xec, 0x5f, 0x97, 0x44, 0x17, 0xc4, 0xa7, 0x7e, 0x3d, 0x64, 0x5d, 0x19, 0x73,
    0x60, 0x81, 0x4f, 0xdc, 0x22, 0x2a, 0x90, 0x88, 0x46, 0xee, 0xb8, 0x14, 0xde, 0x5e, 0x0b, 0xdb,
    0xe0, 0x32, 0x3a, 0x0a, 0x49, 0x06, 0x24, 0x5c, 0xc2, 0xd3, 0xac, 0x62, 0x91, 0x95, 0xe4, 0x79,
    0xe7, 0xc8, 0x37, 0x6d, 0x8d, 0xd5, 0x4e, 0xa9, 0x6c, 0x56, 0xf4, 0xea, 0x65, 0x7a, 0xae, 0x08,
    0xba, 0x78, 0x25, 0x2e, 0x1c, 0xa6, 0xb4, 0xc6, 0xe8, 0xdd, 0x74, 0x1f, 0x4b, 0xbd, 0x8b, 0x8a,
    0x70, 0x3e, 0xb5, 0x66, 0x48, 0x03, 0xf6, 0x0e, 0x61, 0x35, 0x57, 0xb9, 0x86, 0xc1, 0x1d, 0x9e,
    0xe1, 0xf8, 0x98, 0x11, 0x69, 0xd9, 0x8e, 0x94, 0x9b, 0x1e, 0x87, 0xe9, 0xce, 0x55, 0x28, 0xdf,
    0x8c, 0xa1, 0x89, 0x0d, 0xbf, 0xe6, 0x42, 0x68, 0x41, 0x99, 0x2d, 0x0f, 0xb0, 0x54, 0xbb, 0x16,
];

/// The inverse of the AES substitution box.
pub const INV_SBOX: [u8; 256] = [
    0x52, 0x09, 0x6a, 0xd5, 0x30, 0x36, 0xa5, 0x38, 0xbf, 0x40, 0xa3, 0x9e, 0x81, 0xf3, 0xd7, 0xfb,
    0x7c, 0xe3, 0x39, 0x82, 0x9b, 0x2f, 0xff, 0x87, 0x34, 0x8e, 0x43, 0x44, 0xc4, 0xde, 0xe9, 0xcb,
    0x54, 0x7b, 0x94, 0x32, 0xa6, 0xc2, 0x23, 0x3d, 0xee, 0x4c, 0x95, 0x0b, 0x42, 0xfa, 0xc3, 0x4e,
    0x08, 0x2e, 0xa1, 0x66, 0x28, 0xd9, 0x24, 0xb2, 0x76, 0x5b, 0xa2, 0x49, 0x6d, 0x8b, 0xd1, 0x25,
    0x72, 0xf8, 0xf6, 0x64, 0x86, 0x68, 0x98, 0x16, 0xd4, 0xa4, 0x5c, 0xcc, 0x5d, 0x65, 0xb6, 0x92,
    0x6c, 0x70, 0x48, 0x50, 0xfd, 0xed, 0xb9, 0xda, 0x5e, 0x15, 0x46, 0x57, 0xa7, 0x8d, 0x9d, 0x84,
    0x90, 0xd8, 0xab, 0x00, 0x8c, 0xbc, 0xd3, 0x0a, 0xf7, 0xe4, 0x58, 0x05, 0xb8, 0xb3, 0x45, 0x06,
    0xd0, 0x2c, 0x1e, 0x8f, 0xca, 0x3f, 0x0f, 0x02, 0xc1, 0xaf, 0xbd, 0x03, 0x01, 0x13, 0x8a, 0x6b,
    0x3a, 0x91, 0x11, 0x41, 0x4f, 0x67, 0xdc, 0xea, 0x97, 0xf2, 0xcf, 0xce, 0xf0, 0xb4, 0xe6, 0x73,
    0x96, 0xac, 0x74, 0x22, 0xe7, 0xad, 0x35, 0x85, 0xe2, 0xf9, 0x37, 0xe8, 0x1c, 0x75, 0xdf, 0x6e,
    0x47, 0xf1, 0x1a, 0x71, 0x1d, 0x29, 0xc5, 0x89, 0x6f, 0xb7, 0x62, 0x0e, 0xaa, 0x18, 0xbe, 0x1b,
    0xfc, 0x56, 0x3e, 0x4b, 0xc6, 0xd2, 0x79, 0x20, 0x9a, 0xdb, 0xc0, 0xfe, 0x78, 0xcd, 0x5a, 0xf4,
    0x1f, 0xdd, 0xa8, 0x33, 0x88, 0x07, 0xc7, 0x31, 0xb1, 0x12, 0x10, 0x59, 0x27, 0x80, 0xec, 0x5f,
    0x60, 0x51, 0x7f, 0xa9, 0x19, 0xb5, 0x4a, 0x0d, 0x2d, 0xe5, 0x7a, 0x9f, 0x93, 0xc9, 0x9c, 0xef,
    0xa0, 0xe0, 0x3b, 0x4d, 0xae, 0x2a, 0xf5, 0xb0, 0xc8, 0xeb, 0xbb, 0x3c, 0x83, 0x53, 0x99, 0x61,
    0x17, 0x2b, 0x04, 0x7e, 0xba, 0x77, 0xd6, 0x26, 0xe1, 0x69, 0x14, 0x63, 0x55, 0x21, 0x0c, 0x7d,
];

/// The substitution of one byte.
pub open spec fn sub_byte(x: u8) -> u8 {
    SBOX[x as int]
}

/// The inverse substitution of one byte.
pub open spec fn inv_sub_byte(x: u8) -> u8 {
    INV_SBOX[x as int]
}

/// Multiplication by `x` (that is, by 2) in GF(2^8) modulo
/// `x^8 + x^4 + x^3 + x + 1`.
pub open spec fn xtime(x: u8) -> u8 {
    if x & 0x80 == 0 {
        x << 1
    } else {
        (x << 1) ^ 0x1b
    }
}

/// One output byte of MixColumns: `2a + 3b + c + d` in GF(2^8), where `a` is
/// the byte in the output's own row and `b`, `c`, `d` follow it down the
/// column, wrapping round.
pub open spec fn mix_column_byte(a: u8, b: u8, c: u8, d: u8) -> u8 {
    xtime(a) ^ (xtime(b) ^ b) ^ c ^ d
}

/// One output byte of InvMixColumns: `14a + 11b + 13c + 9d` in GF(2^8), with
/// the bytes ordered as for [`mix_column_byte`].
pub open spec fn inv_mix_column_byte(a: u8, b: u8, c: u8, d: u8) -> u8 {
    let a2 = xtime(a);
    let a4 = xtime(a2);
    let a8 = xtime(a4);
    let b2 = xtime(b);
    let b8 = xtime(xtime(b2));
    let c4 = xtime(xtime(c));
    let c8 = xtime(c4);
    let d8 = xtime(xtime(xtime(d)));
    (a8 ^ a4 ^ a2) ^ (b8 ^ b2 ^ b) ^ (c8 ^ c4 ^ c) ^ (d8 ^ d)
}

/// The inverse substitution box undoes the substitution box.
pub proof fn lemma_inv_sub_byte(x: u8)
    ensures
        inv_sub_byte(sub_byte(x)) == x,
        sub_byte(inv_sub_byte(x)) == x,
{
}

/// Doubling distributes over the five-term sum that makes up a MixColumns
/// output byte.
proof fn lemma_xtime_sum(p: u8, q: u8, r: u8, s: u8, t: u8)
    by (bit_vector)
    ensures
        xtime(p ^ (q ^ r) ^ s ^ t) == xtime(p) ^ (xtime(q) ^ xtime(r)) ^ xtime(s) ^ xtime(t),
{
}

/// The doublings of a MixColumns output byte, up to the eightfold one, in
/// terms of the doublings of the column's bytes.
proof fn lemma_mix_column_byte_multiples(a: u8, b: u8, c: u8, d: u8)
    ensures
        ({
            let m = mix_column_byte(a, b, c, d);
            let (a2, b2, c2, d2) = (xtime(a), xtime(b), xtime(c), xtime(d));
            let (a4, b4, c4, d4) = (xtime(a2), xtime(b2), xtime(c2), xtime(d2));
            let (a8, b8, c8, d8) = (xtime(a4), xtime(b4), xtime(c4), xtime(d4));
            let (a16, b16) = (xtime(a8), xtime(b8));
            &&& m == a2 ^ (b2 ^ b) ^ c ^ d
            &&& xtime(m) == a4 ^ (b4 ^ b2) ^ c2 ^ d2
            &&& xtime(xtime(m)) == a8 ^ (b8 ^ b4) ^ c4 ^ d4
            &&& xtime(xtime(xtime(m))) == a16 ^ (b16 ^ b8) ^ c8 ^ d8
        }),
{
    let (a2, b2, c2, d2) = (xtime(a), xtime(b), xtime(c), xtime(d));
    let (a4, b4, c4, d4) = (xtime(a2), xtime(b2), xtime(c2), xtime(d2));
    let (a8, b8, c8, d8) = (xtime(a4), xtime(b4), xtime(c4), xtime(d4));
    lemma_xtime_sum(a2, b2, b, c, d);
    lemma_xtime_sum(a4, b4, b2, c2, d2);
    lemma_xtime_sum(a8, b8, b4, c4, d4);
}

/// InvMixColumns undoes MixColumns on one column, seen from any of its rows.
pub proof fn lemma_inv_mix_column(a: u8, b: u8, c: u8, d: u8)
    ensures
        inv_mix_column_byte(
            mix_column_byte(a, b, c, d),
            mix_column_byte(b, c, d, a),
            mix_column_byte(c, d, a, b),
            mix_column_byte(d, a, b, c),
        ) == a,
{
    let (a2, b2, c2, d2) = (xtime(a), xtime(b), xtime(c), xtime(d));
    let (a4, b4, c4, d4) = (xtime(a2), xtime(b2), xtime(c2), xtime(d2));
    let (a8, b8, c8, d8) = (xtime(a4), xtime(b4), xtime(c4), xtime(d4));
    let (a16, b16, c16, d16) = (xtime(a8), xtime(b8), xtime(c8), xtime(d8));
    let w = mix_column_byte(a, b, c, d);
    let x = mix_column_byte(b, c, d, a);
    let y = mix_column_byte(c, d, a, b);
    let z = mix_column_byte(d, a, b, c);
    let (w2, x2) = (xtime(w), xtime(x));
    let (w4, y4) = (xtime(w2), xtime(xtime(y)));
    let (w8, x8, y8, z8) = (xtime(w4), xtime(xtime(x2)), xtime(y4), xtime(xtime(xtime(z))));
    let r = inv_mix_column_byte(w, x, y, z);
    lemma_mix_column_byte_multiples(a, b, c, d);
    lemma_mix_column_byte_multiples(b, c, d, a);
    lemma_mix_column_byte_multiples(c, d, a, b);
    lemma_mix_column_byte_multiples(d, a, b, c);
    assert(r == a) by (bit_vector)
        requires
            r == (w8 ^ w4 ^ w2) ^ (x8 ^ x2 ^ x) ^ (y8 ^ y4 ^ y) ^ (z8 ^ z),
            w2 == a4 ^ (b4 ^ b2) ^ c2 ^ d2,
            w4 == a8 ^ (b8 ^ b4) ^ c4 ^ d4,
            w8 == a16 ^ (b16 ^ b8) ^ c8 ^ d8,
            x == b2 ^ (c2 ^ c) ^ d ^ a,
            x2 == b4 ^ (c4 ^ c2) ^ d2 ^ a2,
            x8 == b16 ^ (c16 ^ c8) ^ d8 ^ a8,
            y == c2 ^ (d2 ^ d) ^ a ^ b,
            y4 == c8 ^ (d8 ^ d4) ^ a4 ^ b4,
            y8 == c16 ^ (d16 ^ d8) ^ a8 ^ b8,
            z == d2 ^ (a2 ^ a) ^ b ^ c,
            z8 == d16 ^ (a16 ^ a8) ^ b8 ^ c8,
    ;
}

/// Doubling distributes over the eleven-term sum that makes up an
/// InvMixColumns output byte.
proof fn lemma_xtime_long_sum(
    a1: u8,
    a2: u8,
    a3: u8,
    b1: u8,
    b2: u8,
    b3: u8,
    c1: u8,
    c2: u8,
    c3: u8,
    d1: u8,
    d2: u8,
)
    by (bit_vector)
    ensures
        xtime((a1 ^ a2 ^ a3) ^ (b1 ^ b2 ^ b3) ^ (c1 ^ c2 ^ c3) ^ (d1 ^ d2)) == (xtime(a1) ^ xtime(a2)
            ^ xtime(a3)) ^ (xtime(b1) ^ xtime(b2) ^ xtime(b3)) ^ (xtime(c1) ^ xtime(c2) ^ xtime(
            c3,
        )) ^ (xtime(d1) ^ xtime(d2)),
{
}

/// The double of an InvMixColumns output byte, in terms of the doublings of
/// the column's bytes.
proof fn lemma_inv_mix_column_byte_double(a: u8, b: u8, c: u8, d: u8)
    ensures
        ({
            let (a2, b2, c2, d2) = (xtime(a), xtime(b), xtime(c), xtime(d));
            let (a4, b4, c4, d4) = (xtime(a2), xtime(b2), xtime(c2), xtime(d2));
            let (a8, b8, c8, d8) = (xtime(a4), xtime(b4), xtime(c4), xtime(d4));
            let (a16, b16, c16, d16) = (xtime(a8), xtime(b8), xtime(c8), xtime(d8));
            &&& inv_mix_column_byte(a, b, c, d) == (a8 ^ a4 ^ a2) ^ (b8 ^ b2 ^ b) ^ (c8 ^ c4 ^ c)
                ^ (d8 ^ d)
            &&& xtime(inv_mix_column_byte(a, b, c, d)) == (a16 ^ a8 ^ a4) ^ (b16 ^ b4 ^ b2) ^ (c16
                ^ c8 ^ c2) ^ (d16 ^ d2)
        }),
{
    let (a2, b2, c2, d2) = (xtime(a), xtime(b), xtime(c), xtime(d));
    let (a4, b4, c4) = (xtime(a2), xtime(b2), xtime(c2));
    let (a8, b8, c8, d8) = (xtime(a4), xtime(b4), xtime(c4), xtime(xtime(d2)));
    lemma_xtime_long_sum(a8, a4, a2, b8, b2, b, c8, c4, c, d8, d);
}

/// MixColumns undoes InvMixColumns on one column, seen from any of its rows.
pub proof fn lemma_mix_inv_mix_column(a: u8, b: u8, c: u8, d: u8)
    ensures
        mix_column_byte(
            inv_mix_column_byte(a, b, c, d),
            inv_mix_column_byte(b, c, d, a),
            inv_mix_column_byte(c, d, a, b),
            inv_mix_column_byte(d, a, b, c),
        ) == a,
{
    let (a2, b2, c2, d2) = (xtime(a), xtime(b), xtime(c), xtime(d));
    let (a4, b4, c4, d4) = (xtime(a2), xtime(b2), xtime(c2), xtime(d2));
    let (a8, b8, c8, d8) = (xtime(a4), xtime(b4), xtime(c4), xtime(d4));
    let (a16, b16, c16, d16) = (xtime(a8), xtime(b8), xtime(c8), xtime(d8));
    let w = inv_mix_column_byte(a, b, c, d);
    let x = inv_mix_column_byte(b, c, d, a);
    let y = inv_mix_column_byte(c, d, a, b);
    let z = inv_mix_column_byte(d, a, b, c);
    let (w2, x2) = (xtime(w), xtime(x));
    let r = mix_column_byte(w, x, y, z);
    lemma_inv_mix_column_byte_double(a, b, c, d);
    lemma_inv_mix_column_byte_double(b, c, d, a);
    lemma_inv_mix_column_byte_double(c, d, a, b);
    lemma_inv_mix_column_byte_double(d, a, b, c);
    assert(r == a) by (bit_vector)
        requires
            r == w2 ^ (x2 ^ x) ^ y ^ z,
            w2 == (a16 ^ a8 ^ a4) ^ (b16 ^ b4 ^ b2) ^ (c16 ^ c8 ^ c2) ^ (d16 ^ d2),
            x2 == (b16 ^ b8 ^ b4) ^ (c16 ^ c4 ^ c2) ^ (d16 ^ d8 ^ d2) ^ (a16 ^ a2),
            x == (b8 ^ b4 ^ b2) ^ (c8 ^ c2 ^ c) ^ (d8 ^ d4 ^ d) ^ (a8 ^ a),
            y == (c8 ^ c4 ^ c2) ^ (d8 ^ d2 ^ d) ^ (a8 ^ a4 ^ a) ^ (b8 ^ b),
            z == (d8 ^ d4 ^ d2) ^ (a8 ^ a2 ^ a) ^ (b8 ^ b4 ^ b) ^ (c8 ^ c),
    ;
}

/// The index that ShiftRows reads for output byte `i`: row `i % 4` moves
/// left by as many columns as its number.
pub open spec fn shift_rows_source(i: int) -> int {
    i % 4 + 4 * ((i / 4 + i % 4) % 4)
}

/// The index that InvShiftRows reads for output byte `i`: row `i % 4` moves
/// right by as many columns as its number.
pub open spec fn inv_shift_rows_source(i: int) -> int {
    i % 4 + 4 * ((i / 4 + 4 - i % 4) % 4)
}

/// SubBytes: every byte goes through the substitution box.
pub open spec fn sub_bytes(s: Seq<u8>) -> Seq<u8> {
    Seq::new(16, |i: int| sub_byte(s[i]))
}

/// InvSubBytes: every byte goes through the inverse substitution box.
pub open spec fn inv_sub_bytes(s: Seq<u8>) -> Seq<u8> {
    Seq::new(16, |i: int| inv_sub_byte(s[i]))
}

/// ShiftRows.
pub open spec fn shift_rows(s: Seq<u8>) -> Seq<u8> {
    Seq::new(16, |i: int| s[shift_rows_source(i)])
}

/// InvShiftRows.
pub open spec fn inv_shift_rows(s: Seq<u8>) -> Seq<u8> {
    Seq::new(16, |i: int| s[inv_shift_rows_source(i)])
}

/// MixColumns: each column is multiplied by the fixed matrix of FIPS 197.
pub open spec fn mix_columns(s: Seq<u8>) -> Seq<u8> {
    Seq::new(
        16,
        |i: int|
            {
                let c = 4 * (i / 4);
                mix_column_byte(
                    s[c + i % 4],
                    s[c + (i + 1) % 4],
                    s[c + (i + 2) % 4],
                    s[c + (i + 3) % 4],
                )
            },
    )
}

/// InvMixColumns: each column is multiplied by the inverse of that matrix.
pub open spec fn inv_mix_columns(s: Seq<u8>) -> Seq<u8> {
    Seq::new(
        16,
        |i: int|
            {
                let c = 4 * (i / 4);
                inv_mix_column_byte(
                    s[c + i % 4],
                    s[c + (i + 1) % 4],
                    s[c + (i + 2) % 4],
                    s[c + (i + 3) % 4],
                )
            },
    )
}

/// The bytewise exclusive or of two states.
pub open spec fn xor_bytes(a: Seq<u8>, b: Seq<u8>) -> Seq<u8> {
    Seq::new(16, |i: int| a[i] ^ b[i])
}

/// The all-zero state.
pub open spec fn zero_bytes() -> Seq<u8> {
    Seq::new(16, |i: int| 0u8)
}

/// One full AES encryption round: ShiftRows, SubBytes, MixColumns, then the
/// round key is added.
pub open spec fn aes_round(state: Seq<u8>, round_key: Seq<u8>) -> Seq<u8> {
    xor_bytes(mix_columns(sub_bytes(shift_rows(state))), round_key)
}

/// The last AES encryption round, which has no MixColumns.
pub open spec fn aes_last_round(state: Seq<u8>, round_key: Seq<u8>) -> Seq<u8> {
    xor_bytes(sub_bytes(shift_rows(state)), round_key)
}

/// The last AES decryption round: InvShiftRows, InvSubBytes, then the round
/// key is added.
pub open spec fn aes_inv_last_round(state: Seq<u8>, round_key: Seq<u8>) -> Seq<u8> {
    xor_bytes(inv_sub_bytes(inv_shift_rows(state)), round_key)
}

/// Adding the same value twice changes nothing.
pub proof fn lemma_xor_byte_cancel(a: u8, b: u8)
    by (bit_vector)
    ensures
        (a ^ b) ^ b == a,
        a ^ 0 == a,
        a ^ a == 0,
        a ^ b == b ^ a,
{
}

/// Adding a state twice changes nothing, and adding zero changes nothing.
pub proof fn lemma_xor_bytes_cancel(a: Seq<u8>, b: Seq<u8>)
    requires
        a.len() == 16,
    ensures
        xor_bytes(xor_bytes(a, b), b) == a,
        xor_bytes(a, zero_bytes()) == a,
{
    assert forall|i: int| 0 <= i < 16 implies (a[i] ^ b[i]) ^ b[i] == a[i] && a[i] ^ 0u8 == a[i] by {
        lemma_xor_byte_cancel(a[i], b[i]);
    }
    assert(xor_bytes(xor_bytes(a, b), b) =~= a);
    assert(xor_bytes(a, zero_bytes()) =~= a);
}

/// The exclusive or of states may be grouped and ordered at will.
pub proof fn lemma_xor_bytes_assoc_comm(a: Seq<u8>, b: Seq<u8>, c: Seq<u8>)
    ensures
        xor_bytes(xor_bytes(a, b), c) == xor_bytes(a, xor_bytes(b, c)),
        xor_bytes(a, b) == xor_bytes(b, a),
{
    assert forall|i: int| 0 <= i < 16 implies (a[i] ^ b[i]) ^ c[i] == a[i] ^ (b[i] ^ c[i]) && a[i]
        ^ b[i] == b[i] ^ a[i] by {
        let (p, q, r) = (a[i], b[i], c[i]);
        assert((p ^ q) ^ r == p ^ (q ^ r) && p ^ q == q ^ p) by (bit_vector);
    }
    assert(xor_bytes(xor_bytes(a, b), c) =~= xor_bytes(a, xor_bytes(b, c)));
    assert(xor_bytes(a, b) =~= xor_bytes(b, a));
}

/// InvSubBytes undoes SubBytes.
pub proof fn lemma_inv_sub_bytes(s: Seq<u8>)
    requires
        s.len() == 16,
    ensures
        inv_sub_bytes(sub_bytes(s)) == s,
{
    assert forall|i: int| 0 <= i < 16 implies inv_sub_byte(sub_byte(s[i])) == s[i] by {
        lemma_inv_sub_byte(s[i]);
    }
    assert(inv_sub_bytes(sub_bytes(s)) =~= s);
}

/// InvShiftRows undoes ShiftRows.
pub proof fn lemma_inv_shift_rows(s: Seq<u8>)
    requires
        s.len() == 16,
    ensures
        inv_shift_rows(shift_rows(s)) == s,
{
    assert forall|i: int| 0 <= i < 16 implies {
        &&& 0 <= #[trigger] inv_shift_rows_source(i) < 16
        &&& shift_rows_source(inv_shift_rows_source(i)) == i
    } by {}
    assert(inv_shift_rows(shift_rows(s)) =~= s);
}

/// SubBytes and ShiftRows may be applied in either order.
pub proof fn lemma_sub_bytes_shift_rows_commute(s: Seq<u8>)
    requires
        s.len() == 16,
    ensures
        sub_bytes(shift_rows(s)) == shift_rows(sub_bytes(s)),
{
    assert forall|i: int| 0 <= i < 16 implies 0 <= #[trigger] shift_rows_source(i) < 16 by {}
    assert(sub_bytes(shift_rows(s)) =~= shift_rows(sub_bytes(s)));
}

/// InvMixColumns undoes MixColumns.
pub proof fn lemma_inv_mix_columns(s: Seq<u8>)
    requires
        s.len() == 16,
    ensures
        inv_mix_columns(mix_columns(s)) == s,
{
    let m = mix_columns(s);
    assert forall|i: int| 0 <= i < 16 implies inv_mix_columns(m)[i] == s[i] by {
        let c = 4 * (i / 4);
        let (r0, r1, r2, r3) = (i % 4, (i + 1) % 4, (i + 2) % 4, (i + 3) % 4);
        assert(4 * ((c + r0) / 4) == c && 4 * ((c + r1) / 4) == c && 4 * ((c + r2) / 4) == c
            && 4 * ((c + r3) / 4) == c);
        lemma_inv_mix_column(s[c + r0], s[c + r1], s[c + r2], s[c + r3]);
    }
    assert(inv_mix_columns(m) =~= s);
}

/// InvShiftRows and InvSubBytes undo ShiftRows and SubBytes.
pub proof fn lemma_inv_sub_shift(s: Seq<u8>)
    requires
        s.len() == 16,
    ensures
        inv_sub_bytes(inv_shift_rows(sub_bytes(shift_rows(s)))) == s,
{
    lemma_sub_bytes_shift_rows_commute(s);
    lemma_inv_shift_rows(sub_bytes(s));
    lemma_inv_sub_bytes(s);
}

/// The last decryption round undoes the last encryption round, once the
/// latter's round key is taken off again.
pub proof fn lemma_inv_last_round(state: Seq<u8>, round_key: Seq<u8>)
    requires
        state.len() == 16,
    ensures
        aes_inv_last_round(xor_bytes(aes_last_round(state, round_key), round_key), zero_bytes())
            == state,
        aes_inv_last_round(aes_last_round(state, zero_bytes()), zero_bytes()) == state,
{
    let t = sub_bytes(shift_rows(state));
    lemma_xor_bytes_cancel(t, round_key);
    lemma_xor_bytes_cancel(t, zero_bytes());
    lemma_inv_sub_shift(state);
    lemma_xor_bytes_cancel(state, zero_bytes());
}

/// SubBytes and ShiftRows undo InvSubBytes and InvShiftRows.
pub proof fn lemma_sub_shift_inv(s: Seq<u8>)
    requires
        s.len() == 16,
    ensures
        sub_bytes(shift_rows(inv_sub_bytes(inv_shift_rows(s)))) == s,
{
    assert forall|i: int| 0 <= i < 16 implies {
        &&& 0 <= #[trigger] shift_rows_source(i) < 16
        &&& inv_shift_rows_source(shift_rows_source(i)) == i
    } by {}
    assert forall|i: int| 0 <= i < 16 implies sub_byte(inv_sub_byte(s[i])) == s[i] by {
        lemma_inv_sub_byte(s[i]);
    }
    assert(sub_bytes(shift_rows(inv_sub_bytes(inv_shift_rows(s)))) =~= s);
}

/// MixColumns undoes InvMixColumns.
pub proof fn lemma_mix_inv_mix_columns(s: Seq<u8>)
    requires
        s.len() == 16,
    ensures
        mix_columns(inv_mix_columns(s)) == s,
{
    let m = inv_mix_columns(s);
    assert forall|i: int| 0 <= i < 16 implies mix_columns(m)[i] == s[i] by {
        let c = 4 * (i / 4);
        let (r0, r1, r2, r3) = (i % 4, (i + 1) % 4, (i + 2) % 4, (i + 3) % 4);
        assert(4 * ((c + r0) / 4) == c && 4 * ((c + r1) / 4) == c && 4 * ((c + r2) / 4) == c
            && 4 * ((c + r3) / 4) == c);
        lemma_mix_inv_mix_column(s[c + r0], s[c + r1], s[c + r2], s[c + r3]);
    }
    assert(mix_columns(m) =~= s);
}

/// The last encryption round undoes the last decryption round, once the
/// latter's round key is taken off again.
pub proof fn lemma_last_round_inv(state: Seq<u8>, round_key: Seq<u8>)
    requires
        state.len() == 16,
    ensures
        aes_last_round(xor_bytes(aes_inv_last_round(state, round_key), round_key), zero_bytes())
            == state,
        aes_last_round(aes_inv_last_round(state, zero_bytes()), zero_bytes()) == state,
{
    let t = inv_sub_bytes(inv_shift_rows(state));
    lemma_xor_bytes_cancel(t, round_key);
    lemma_xor_bytes_cancel(t, zero_bytes());
    lemma_sub_shift_inv(state);
    lemma_xor_bytes_cancel(state, zero_bytes());
}

} // verus!
