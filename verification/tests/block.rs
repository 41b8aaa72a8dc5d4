use areion::block::{
    dec_last, enc, enc_last, inv_mix, load, load_32x4, load_64x2, store, store_u32, xor, xor3,
    zero, AesBlock,
};
use areion::{areion256, areion512, inv_areion256, inv_areion512};

fn bytes(block: AesBlock) -> [u8; 16] {
    let mut out = [0u8; 16];
    store(&mut out, block);
    out
}

fn lane(first: u8, step: u8) -> AesBlock {
    let b: Vec<u8> = (0..16u8).map(|i| first.wrapping_add(i.wrapping_mul(step))).collect();
    load(&b)
}

const STATE: [u8; 16] = [
    0x5d, 0x47, 0x53, 0x5d, 0x72, 0x6f, 0x74, 0x63, 0x65, 0x56, 0x74, 0x73, 0x65, 0x54, 0x5b, 0x7b,
];

const KEY: [u8; 16] = [
    0x5d, 0x6e, 0x6f, 0x72, 0x65, 0x75, 0x47, 0x5b, 0x29, 0x79, 0x61, 0x68, 0x53, 0x28, 0x69, 0x48,
];

#[test]
fn zero_is_sixteen_zero_bytes() {
    assert_eq!(bytes(zero()), [0u8; 16]);
}

#[test]
fn load_then_store_gives_the_bytes_back() {
    assert_eq!(bytes(load(&STATE)), STATE);
}

#[test]
fn load_64x2_puts_low_bytes_first() {
    assert_eq!(
        bytes(load_64x2(0x13198a2e03707344, 0x243f6a8885a308d3)),
        [
            0x44, 0x73, 0x70, 0x03, 0x2e, 0x8a, 0x19, 0x13, 0xd3, 0x08, 0xa3, 0x85, 0x88, 0x6a,
            0x3f, 0x24
        ]
    );
}

#[test]
fn load_32x4_puts_low_bytes_first() {
    assert_eq!(
        bytes(load_32x4(0x03020100, 0x07060504, 0x0b0a0908, 0x0f0e0d0c)),
        [0, 1, 2, 3, 4, 5, 6, 7, 8, 9, 10, 11, 12, 13, 14, 15]
    );
}

#[test]
fn store_u32_reads_low_bytes_first() {
    let mut words = [0u32; 4];
    store_u32(&mut words, lane(0, 1));
    assert_eq!(words, [0x03020100, 0x07060504, 0x0b0a0908, 0x0f0e0d0c]);
    let back = load_32x4(words[0], words[1], words[2], words[3]);
    assert_eq!(bytes(back), bytes(lane(0, 1)));
}

#[test]
fn xor_adds_bytewise() {
    let a = lane(0x00, 0x11);
    let b = load(&[0xffu8; 16]);
    let expected: Vec<u8> = (0..16u8).map(|i| (i * 0x11) ^ 0xff).collect();
    assert_eq!(bytes(xor(a, b)).to_vec(), expected);
    assert_eq!(bytes(xor(xor(a, b), b)), bytes(a));
    assert_eq!(bytes(xor(a, zero())), bytes(a));
}

#[test]
fn xor3_is_two_xors_in_any_grouping() {
    let (a, b, c) = (lane(1, 3), lane(7, 5), lane(200, 9));
    assert_eq!(bytes(xor3(a, b, c)), bytes(xor(xor(a, b), c)));
    assert_eq!(bytes(xor3(a, b, c)), bytes(xor(a, xor(b, c))));
    assert_eq!(bytes(xor3(a, b, c)), bytes(xor3(c, a, b)));
}

#[test]
fn enc_is_one_aes_round() {
    assert_eq!(
        bytes(enc(load(&STATE), load(&KEY))),
        [
            0x95, 0xe5, 0xd7, 0xde, 0x58, 0x4b, 0x10, 0x8b, 0xc5, 0xa3, 0xdb, 0x9f, 0x2f, 0x1c,
            0x31, 0xa8
        ]
    );
}

#[test]
fn enc_last_is_the_last_aes_round() {
    assert_eq!(
        bytes(enc_last(load(&STATE), load(&KEY))),
        [
            0x11, 0xc6, 0xfd, 0x53, 0x25, 0xc4, 0x7e, 0x17, 0x64, 0x59, 0x8c, 0x93, 0x1e, 0x88,
            0xfb, 0xc7
        ]
    );
}

#[test]
fn dec_last_is_the_last_aes_decryption_round() {
    assert_eq!(
        bytes(dec_last(load(&STATE), load(&KEY))),
        [
            0xd0, 0x93, 0xa5, 0x72, 0x7b, 0x63, 0x10, 0xd4, 0x95, 0x7f, 0x31, 0x6b, 0xef, 0x91,
            0xa3, 0xc5
        ]
    );
}

#[test]
fn inv_mix_is_the_inverse_mix_columns() {
    assert_eq!(
        bytes(inv_mix(load(&KEY))),
        [
            0xb6, 0x59, 0xd8, 0x19, 0xa1, 0xc5, 0x9b, 0xf3, 0x15, 0xaa, 0xef, 0x09, 0xf1, 0x8d,
            0x7f, 0x59
        ]
    );
}

#[test]
fn dec_last_undoes_enc_last() {
    for first in [0u8, 1, 0x35, 0x80, 0xff] {
        let x = lane(first, 7);
        assert_eq!(bytes(dec_last(enc_last(x, zero()), zero())), bytes(x));
        let k = lane(first, 13);
        assert_eq!(bytes(dec_last(xor(enc_last(x, k), k), zero())), bytes(x));
    }
}

#[test]
fn inv_mix_undoes_the_mixing_of_a_round() {
    // A full round with a zero key ends in MixColumns; a last round stops
    // short of it.
    for first in [0u8, 1, 0x35, 0x80, 0xff] {
        let x = lane(first, 11);
        assert_eq!(bytes(inv_mix(enc(x, zero()))), bytes(enc_last(x, zero())));
    }
}

#[test]
fn inverse_permutations_undo_the_permutations() {
    for first in [0u8, 1, 0x35, 0x80, 0xff] {
        let (a, b, c, d) = (lane(first, 1), lane(first, 3), lane(first, 5), lane(first, 7));
        let (y0, y1) = areion256(a, b);
        let (q0, q1) = inv_areion256(y0, y1);
        assert_eq!((bytes(q0), bytes(q1)), (bytes(a), bytes(b)));
        let (r0, r1) = areion256(q0, q1);
        assert_eq!((bytes(r0), bytes(r1)), (bytes(y0), bytes(y1)));

        let (y0, y1, y2, y3) = areion512(a, b, c, d);
        let (q0, q1, q2, q3) = inv_areion512(y0, y1, y2, y3);
        assert_eq!(
            (bytes(q0), bytes(q1), bytes(q2), bytes(q3)),
            (bytes(a), bytes(b), bytes(c), bytes(d))
        );
        let (i0, i1, i2, i3) = inv_areion512(a, b, c, d);
        let (f0, f1, f2, f3) = areion512(i0, i1, i2, i3);
        assert_eq!(
            (bytes(f0), bytes(f1), bytes(f2), bytes(f3)),
            (bytes(a), bytes(b), bytes(c), bytes(d))
        );
    }
}
