use areion::haifa::{hash, Core, InvalidOutputSize};

fn hex_fmt(b: &[u8]) -> String {
    b.iter()
        .map(|v| format!("{:02x}", v))
        .collect::<Vec<String>>()
        .chunks(16)
        .map(|v| v.join(" "))
        .collect::<Vec<String>>()
        .join("\n")
}

fn counting(n: usize) -> Vec<u8> {
    (0..n).map(|i| i as u8).collect()
}

fn blocks(data: &[u8]) -> Vec<[u8; 64]> {
    data.chunks_exact(64)
        .map(|c| {
            let mut b = [0u8; 64];
            b.copy_from_slice(c);
            b
        })
        .collect()
}

#[test]
fn round_trip() {
    let mut data = vec![8u8; 64];
    data.extend_from_slice(b"this is a potato");
    let mut core = Core::new(64).unwrap();
    core.update_blocks(&blocks(&data));
    let digest = core.finalize_variable_core(b"this is a potato");
    assert_eq!(digest, hash(64, &data).unwrap());
    assert_eq!(
        hex_fmt(&digest),
        "d0 56 15 df 49 75 94 6f 72 8e 3b fa 1c ab c3 98\n\
         9c 29 71 e0 95 bf 37 72 6c 9a c5 ff b1 a7 0b 3a\n\
         b7 ad 10 79 3c 08 62 62 70 e9 32 f5 99 ef ae 21\n\
         09 44 d2 b6 93 ab c5 34 6e ed c8 6f f6 b1 4a aa"
    );
}

#[test]
fn haifa_empty_message() {
    assert_eq!(
        hex_fmt(&hash(64, &counting(0)).unwrap()),
        "be bb 16 e7 53 84 e8 98 6b ad 85 d7 7f d7 b3 8d\n\
         1a 33 02 0a d4 9b c2 b6 ef 71 55 8a 83 aa c4 de\n\
         6b e4 70 1b a3 47 41 b9 5f 5b 0c 74 03 71 2a fa\n\
         00 7d 53 5c a7 e7 6a 33 4a bc 43 9b 7a c9 ba 5c"
    );
}

#[test]
fn haifa_one_byte() {
    assert_eq!(
        hex_fmt(&hash(64, &counting(1)).unwrap()),
        "72 b7 d5 1c a7 b8 2d 51 7f 1e ab 49 80 64 29 4c\n\
         f5 13 50 d2 e3 a4 d0 e4 62 18 29 21 d0 7d d3 9e\n\
         98 f8 0a 1e e5 95 91 94 92 3e f2 c4 2e 67 18 66\n\
         56 2e dc a4 dd 42 57 25 bc 3a 74 c6 90 38 78 26"
    );
}

#[test]
fn haifa_one_byte_less_than_a_block() {
    assert_eq!(
        hex_fmt(&hash(64, &counting(63)).unwrap()),
        "7b e4 a5 10 4f 52 84 f2 24 4d d8 2a e7 7e 23 d8\n\
         dd cd 3c 04 be 95 0e e8 6e 12 04 b8 d0 d4 3a 0e\n\
         f3 75 5a e6 fa aa 9a 80 61 cb 8d d8 c1 fb f4 89\n\
         a1 d7 8e 74 8e 03 8e cf cf 87 7e cc d6 07 28 5d"
    );
}

#[test]
fn haifa_exactly_one_block() {
    assert_eq!(
        hex_fmt(&hash(64, &counting(64)).unwrap()),
        "e9 f3 0d e8 25 c5 0a 3e 61 97 49 b9 0b 53 cc e5\n\
         51 75 bd 1c 0f a1 00 c6 f2 ba 03 66 06 6f 29 1a\n\
         b6 5b 1b 97 dd 3e 1b 5c bb 27 ab 41 8e 19 de 5b\n\
         f9 3a b5 c1 17 72 51 eb 5d f1 62 15 bb f1 3f 20"
    );
}

#[test]
fn haifa_one_byte_more_than_a_block() {
    assert_eq!(
        hex_fmt(&hash(64, &counting(65)).unwrap()),
        "fb 23 f5 00 c1 97 14 4a ff 3f ad ba cd 44 21 12\n\
         ef 00 b2 e4 32 b3 a2 b3 42 0f 74 04 ff fa 8a 2c\n\
         80 ae 90 b3 60 13 29 78 13 63 ee ca 01 ae 88 86\n\
         0f db dd 0d 32 ae 58 03 e6 b5 89 2b 48 3f e8 b6"
    );
}

#[test]
fn haifa_two_blocks() {
    assert_eq!(
        hex_fmt(&hash(64, &counting(128)).unwrap()),
        "96 c3 87 85 fc b2 bf e2 cb f4 0f c0 a5 c6 59 15\n\
         42 59 d8 0f 8d 1e 62 5f ea 86 7a cf eb c0 1a 3e\n\
         dd 3a c3 8d ca b3 c1 17 1d 43 c2 17 a0 57 0a 2f\n\
         1f e2 82 fc 43 fe 95 ef 3b 40 75 7a ad ca b7 d9"
    );
}

#[test]
fn haifa_digest_of_32_bytes() {
    assert_eq!(
        hex_fmt(&hash(32, &counting(65)).unwrap()),
        "38 07 ca 8b 6b 82 7f 8a 26 4a 05 51 1a e1 8b 6f\n\
         b6 be 34 42 6a 5f fa 6e 5a aa 29 3c 1f 8d 33 91"
    );
}

#[test]
fn haifa_digest_of_one_byte() {
    assert_eq!(
        hex_fmt(&hash(1, &counting(65)).unwrap()),
        "71"
    );
}

#[test]
fn haifa_rejects_digest_lengths_out_of_range() {
    assert!(matches!(Core::new(0), Err(InvalidOutputSize)));
    assert!(matches!(Core::new(65), Err(InvalidOutputSize)));
    assert!(matches!(Core::new(usize::MAX), Err(InvalidOutputSize)));
    assert_eq!(hash(0, b"abc"), Err(InvalidOutputSize));
    assert_eq!(hash(65, b"abc"), Err(InvalidOutputSize));
}

#[test]
fn haifa_gives_digests_of_every_length_asked_for() {
    let data = counting(100);
    for size in 1..=64 {
        let mut core = Core::new(size).unwrap();
        core.update_blocks(&blocks(&data));
        let digest = core.finalize_variable_core(&data[64..]);
        assert_eq!(digest.len(), size);
        assert_eq!(digest, hash(size, &data).unwrap());
    }
}

#[test]
fn haifa_digest_length_changes_the_whole_digest() {
    let data = counting(100);
    let long = hash(64, &data).unwrap();
    let short = hash(32, &data).unwrap();
    assert_ne!(&long[..32], &short[..]);
}

#[test]
fn haifa_empty_message_still_takes_in_a_block() {
    let mut core = Core::new(64).unwrap();
    let digest = core.finalize_variable_core(&[]);
    assert_eq!(digest, hash(64, &[]).unwrap());
    assert_ne!(
        hex_fmt(&digest),
        "08 c9 bc f3 67 e6 09 6a 3b a7 ca 84 85 ae 67 bb\n\
         2b f8 94 fe 72 f3 6e 3c f1 36 1d 5f 3a f5 4f a5\n\
         d1 82 e6 ad 7f 52 0e 51 1f 6c 3e 2b 8c 68 05 9b\n\
         6b bd 41 fb ab d9 83 1f 79 21 7e 13 19 cd e0 5b"
    );
}

#[test]
fn haifa_boundary_digests_are_distinct() {
    let digests: Vec<Vec<u8>> = [0, 1, 63, 64, 65, 128].iter().map(|&n| hash(64, &counting(n)).unwrap()).collect();
    for i in 0..digests.len() {
        for j in 0..i {
            assert_ne!(digests[i], digests[j]);
        }
    }
}

#[test]
fn haifa_distinct_messages_give_distinct_digests() {
    assert_ne!(hash(64, b"a"), hash(64, b"b"));
    assert_ne!(hash(64, &[0u8; 64]), hash(64, &[0u8; 65]));
    assert_ne!(hash(64, &[0u8; 63]), hash(64, &[0u8; 64]));
    assert_ne!(hash(64, b""), hash(64, &[0u8]));
    assert_ne!(hash(64, b""), hash(64, &[0x80]));
}

#[test]
fn haifa_blocks_in_one_call_or_several() {
    let data = counting(3 * 64 + 5);
    let all = blocks(&data);
    let mut once = Core::new(48).unwrap();
    once.update_blocks(&all);
    let mut twice = Core::new(48).unwrap();
    twice.update_blocks(&all[..2]);
    twice.update_blocks(&all[2..]);
    let tail = &data[3 * 64..];
    let digest = once.finalize_variable_core(tail);
    assert_eq!(digest, twice.finalize_variable_core(tail));
    assert_eq!(digest, hash(48, &data).unwrap());
}

#[test]
fn haifa_reset_core_gives_same_digest_as_fresh_one() {
    let data = counting(150);
    let mut core = Core::new(20).unwrap();
    core.update_blocks(&blocks(&[0xa5u8; 128]));
    core.finalize_variable_core(b"something else");
    core.reset();
    core.update_blocks(&blocks(&data));
    assert_eq!(core.finalize_variable_core(&data[128..]), hash(20, &data).unwrap());
}

fn sample_messages() -> Vec<Vec<u8>> {
    // A fixed pseudo-random sample: lengths from 0 to 199, bytes from a
    // linear congruential generator.
    let mut seed: u64 = 0x2545f4914f6cdd1d;
    let mut next = move || {
        seed = seed.wrapping_mul(6364136223846793005).wrapping_add(1442695040888963407);
        (seed >> 33) as usize
    };
    let mut messages: Vec<Vec<u8>> = Vec::new();
    while messages.len() < 60 {
        let len = next() % 200;
        let message: Vec<u8> = (0..len).map(|_| next() as u8).collect();
        if !messages.contains(&message) {
            messages.push(message);
        }
    }
    messages
}

#[test]
fn haifa_sampled_messages_do_not_collide() {
    let messages = sample_messages();
    let digests: Vec<_> = messages.iter().map(|m| hash(64, m).unwrap()).collect();
    for i in 0..digests.len() {
        assert_eq!(digests[i], hash(64, &messages[i]).unwrap());
        for j in 0..i {
            assert_ne!(digests[i], digests[j]);
        }
    }
}
