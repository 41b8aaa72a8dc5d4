use areion::encoding::{nth_byte, to_be_bytes, word_from_le};
use areion::padding::{length_padding, marker_padding};

#[test]
fn nth_byte_counts_from_the_low_end() {
    let x: u128 = 0x0f0e0d0c0b0a09080706050403020100;
    for k in 0..16 {
        assert_eq!(nth_byte(x, k), k as u8);
    }
}

#[test]
fn to_be_bytes_puts_the_high_byte_first() {
    assert_eq!(
        to_be_bytes(0x000102030405060708090a0b0c0d0e0f),
        [0, 1, 2, 3, 4, 5, 6, 7, 8, 9, 10, 11, 12, 13, 14, 15]
    );
    assert_eq!(to_be_bytes(64)[15], 64);
    assert_eq!(&to_be_bytes(64)[..15], &[0u8; 15]);
}

#[test]
fn word_from_le_reads_low_byte_first() {
    assert_eq!(word_from_le(0x78, 0x56, 0x34, 0x12), 0x12345678);
}

#[test]
fn length_padding_of_an_empty_tail() {
    let mut expected = vec![0u8; 32];
    expected[0] = 0x80;
    assert_eq!(length_padding(&[], 0, 32, 8), expected);
}

#[test]
fn length_padding_with_room_for_the_length() {
    let tail = [0xaau8; 23];
    let padded = length_padding(&tail, 23 * 8, 32, 8);
    let mut expected = tail.to_vec();
    expected.push(0x80);
    expected.extend_from_slice(&[0, 0, 0, 0, 0, 0, 0, 184]);
    assert_eq!(padded, expected);
}

#[test]
fn length_padding_without_room_for_the_length() {
    let tail = [0xaau8; 24];
    let padded = length_padding(&tail, 0x0102030405060708, 32, 8);
    let mut expected = tail.to_vec();
    expected.push(0x80);
    expected.extend_from_slice(&[0u8; 31]);
    expected.extend_from_slice(&[1, 2, 3, 4, 5, 6, 7, 8]);
    assert_eq!(padded.len(), 64);
    assert_eq!(padded, expected);
}

#[test]
fn length_padding_with_a_length_of_16_bytes() {
    let tail = [0x11u8; 47];
    let padded = length_padding(&tail, 0x0102030405060708090a0b0c0d0e0f10, 64, 16);
    let mut expected = tail.to_vec();
    expected.push(0x80);
    expected.extend_from_slice(&[1, 2, 3, 4, 5, 6, 7, 8, 9, 10, 11, 12, 13, 14, 15, 16]);
    assert_eq!(padded, expected);
    assert_eq!(length_padding(&[0x11u8; 48], 1, 64, 16).len(), 128);
}

#[test]
fn length_padding_keeps_only_the_low_bytes_of_the_length() {
    let padded = length_padding(&[], 0x0102030405060708090a0b0c0d0e0f10, 32, 8);
    assert_eq!(&padded[24..], &[9, 10, 11, 12, 13, 14, 15, 16]);
}

#[test]
fn marker_padding_fills_one_block() {
    assert_eq!(marker_padding(&[], 64)[0], 0x80);
    assert_eq!(&marker_padding(&[], 64)[1..], &[0u8; 63]);
    let tail = [7u8; 63];
    let mut expected = tail.to_vec();
    expected.push(0x80);
    assert_eq!(marker_padding(&tail, 64), expected);
}
