use areion::md::{hash, Core};

fn hex_fmt(b: &[u8]) -> String {
    b.iter()
        .map(|v| format!("{:02x}", v))
        .collect::<Vec<String>>()
        .chunks(16)
        .map(|v| v.join(" "))
        .collect::<Vec<String>>()
        .join("\n")
}

fn hex(s: &str) -> Vec<u8> {
    s.split_whitespace().map(|b| u8::from_str_radix(b, 16).unwrap()).collect()
}

fn counting(n: usize) -> Vec<u8> {
    (0..n).map(|i| i as u8).collect()
}

fn blocks(data: &[u8]) -> Vec<[u8; 32]> {
    data.chunks_exact(32)
        .map(|c| {
            let mut b = [0u8; 32];
            b.copy_from_slice(c);
            b
        })
        .collect()
}

#[test]
fn md_areion512_md_test_vector_1() {
    let data = hex(
        "
        00 00 00 00 00 00 00 00 00 00 00 00 00 00 00 00
        00 00 00 00 00 00 00 00 00 00 00 00 00 00 00 00
        00 00 00 00 00 00 00 00 00 00 00 00 00 00 00 00
        00 00 00 00 00 00 00 00 00 00 00 00 00 00 00 00
        00 00 00 00 00 00 00 00 00 00 00 00 00 00 00 00
        00 00 00 00 00 00 00 00 00 00 00 00 00 00 00 00
        00 00 00 00 00 00 00 00 00 00 00 00 00 00 00 00
        00 00 00 00 00 00 00 00 00 00 00 00 00 00 00 00",
    );

    assert_eq!(
        hex_fmt(&hash(&data)),
        "7f 22 34 44 5f 3a 72 00 65 93 79 42 01 53 6c 94\n\
         09 5d ab d3 fd b5 84 67 48 d3 59 55 5c 52 e6 51"
    );
}

#[test]
fn md_areion512_md_test_vector_2() {
    let data = hex(
        "
        00 01 02 03 04 05 06 07 08 09 0a 0b 0c 0d 0e 0f
        10 11 12 13 14 15 16 17 18 19 1a 1b 1c 1d 1e 1f
        20 21 22 23 24 25 26 27 28 29 2a 2b 2c 2d 2e 2f
        30 31 32 33 34 35 36 37 38 39 3a 3b 3c 3d 3e 3f
        40 41 42 43 44 45 46 47 48 49 4a 4b 4c 4d 4e 4f
        50 51 52 53 54 55 56 57 58 59 5a 5b 5c 5d 5e 5f
        60 61 62 63 64 65 66 67 68 69 6a 6b 6c 6d 6e 6f
        70 71 72 73 74 75 76 77 78 79 7a 7b 7c 7d 7e 7f",
    );

    assert_eq!(
        hex_fmt(&hash(&data)),
        "3e 4d 31 0f be 21 d0 7b b9 00 46 88 a1 50 36 b7\n\
         ab d9 ae 2f e9 e6 0c 9a ca 2a cc 36 98 5e 60 0b"
    );
}

#[test]
fn lib_areion512_md_test_vector_1() {
    let data = hex(
        "
        00 00 00 00 00 00 00 00 00 00 00 00 00 00 00 00
        00 00 00 00 00 00 00 00 00 00 00 00 00 00 00 00
        00 00 00 00 00 00 00 00 00 00 00 00 00 00 00 00
        00 00 00 00 00 00 00 00 00 00 00 00 00 00 00 00
        00 00 00 00 00 00 00 00 00 00 00 00 00 00 00 00
        00 00 00 00 00 00 00 00 00 00 00 00 00 00 00 00
        00 00 00 00 00 00 00 00 00 00 00 00 00 00 00 00
        00 00 00 00 00 00 00 00 00 00 00 00 00 00 00 00",
    );
    let mut core = Core::default();
    core.update_blocks(&blocks(&data));

    assert_eq!(
        hex_fmt(&core.finalize_fixed_core(&[])),
        "7f 22 34 44 5f 3a 72 00 65 93 79 42 01 53 6c 94\n\
         09 5d ab d3 fd b5 84 67 48 d3 59 55 5c 52 e6 51"
    );
}

#[test]
fn lib_areion512_md_test_vector_2() {
    let data = hex(
        "
        00 01 02 03 04 05 06 07 08 09 0a 0b 0c 0d 0e 0f
        10 11 12 13 14 15 16 17 18 19 1a 1b 1c 1d 1e 1f
        20 21 22 23 24 25 26 27 28 29 2a 2b 2c 2d 2e 2f
        30 31 32 33 34 35 36 37 38 39 3a 3b 3c 3d 3e 3f
        40 41 42 43 44 45 46 47 48 49 4a 4b 4c 4d 4e 4f
        50 51 52 53 54 55 56 57 58 59 5a 5b 5c 5d 5e 5f
        60 61 62 63 64 65 66 67 68 69 6a 6b 6c 6d 6e 6f
        70 71 72 73 74 75 76 77 78 79 7a 7b 7c 7d 7e 7f",
    );
    let mut core = Core::default();
    core.update_blocks(&blocks(&data));

    assert_eq!(
        hex_fmt(&core.finalize_fixed_core(&[])),
        "3e 4d 31 0f be 21 d0 7b b9 00 46 88 a1 50 36 b7\n\
         ab d9 ae 2f e9 e6 0c 9a ca 2a cc 36 98 5e 60 0b"
    );
}

#[test]
fn md_empty_message() {
    assert_eq!(
        hex_fmt(&hash(&counting(0))),
        "a9 5c 7b 92 4e f1 d6 48 7d 3f 44 05 9b 27 03 ec\n\
         2c 99 31 9f 31 ea e4 74 13 13 53 e9 f3 94 08 ff"
    );
}

#[test]
fn md_one_byte() {
    assert_eq!(
        hex_fmt(&hash(&counting(1))),
        "a7 b1 bb 88 b4 53 63 fb 36 3c 7e 24 f0 25 6d 9c\n\
         0e 09 51 43 1b 61 2c 30 69 84 52 e7 43 0f 1d 5c"
    );
}

#[test]
fn md_longest_tail_with_one_padding_block() {
    assert_eq!(
        hex_fmt(&hash(&counting(23))),
        "cf 72 b8 30 fe c1 d3 ad fd 48 27 ea 9c d1 07 a6\n\
         eb 16 4b c5 1b 15 09 f4 13 04 e1 82 66 00 d4 79"
    );
}

#[test]
fn md_shortest_tail_with_two_padding_blocks() {
    assert_eq!(
        hex_fmt(&hash(&counting(24))),
        "6d 24 5f 4d 67 98 76 1a bb 7e 59 33 af 91 ca c6\n\
         75 0b 73 20 d3 e2 ba e7 03 1a da 14 d3 da df f5"
    );
}

#[test]
fn md_one_byte_less_than_a_block() {
    assert_eq!(
        hex_fmt(&hash(&counting(31))),
        "04 21 a9 8f bb 48 dd c2 c1 d1 e4 c9 ec be 31 c9\n\
         8e cf e6 e3 26 5d 1f f6 d1 3e 17 17 94 60 98 3c"
    );
}

#[test]
fn md_exactly_one_block() {
    assert_eq!(
        hex_fmt(&hash(&counting(32))),
        "9a c6 4a 33 b0 36 12 62 68 83 33 50 ec 47 26 54\n\
         65 a2 e7 47 27 60 b8 57 2f 81 85 77 18 71 0a d2"
    );
}

#[test]
fn md_one_byte_more_than_a_block() {
    assert_eq!(
        hex_fmt(&hash(&counting(33))),
        "a6 c6 b5 99 86 e0 d5 93 2f 86 85 e1 da a8 0f 44\n\
         fd a5 1a a2 04 a3 5d 4f 0a db 4c b2 24 e5 47 04"
    );
}

#[test]
fn md_two_blocks() {
    assert_eq!(
        hex_fmt(&hash(&counting(64))),
        "24 10 2a aa 27 06 3f cd ea 30 f6 39 5f 36 21 2c\n\
         eb 5b 00 6e 46 39 20 12 67 c9 4e 2c 24 e0 ad 8f"
    );
}

#[test]
fn md_boundary_digests_are_distinct() {
    let digests: Vec<[u8; 32]> = [0, 1, 23, 24, 31, 32, 33, 64].iter().map(|&n| hash(&counting(n))).collect();
    for i in 0..digests.len() {
        for j in 0..i {
            assert_ne!(digests[i], digests[j]);
        }
    }
}

#[test]
fn md_distinct_messages_give_distinct_digests() {
    assert_ne!(hash(b"a"), hash(b"b"));
    assert_ne!(hash(&[0u8; 32]), hash(&[0u8; 33]));
    assert_ne!(hash(&[0u8; 31]), hash(&[0u8; 32]));
    assert_ne!(hash(b""), hash(&[0u8]));
    assert_ne!(hash(b""), hash(&[0x80]));
}

#[test]
fn md_blocks_in_one_call_or_several() {
    let data = counting(3 * 32 + 5);
    let all = blocks(&data);
    let mut once = Core::default();
    once.update_blocks(&all);
    let mut twice = Core::default();
    twice.update_blocks(&all[..1]);
    twice.update_blocks(&all[1..]);
    let tail = &data[3 * 32..];
    let digest = once.finalize_fixed_core(tail);
    assert_eq!(digest, twice.finalize_fixed_core(tail));
    assert_eq!(digest, hash(&data));
}

#[test]
fn md_reset_core_gives_same_digest_as_fresh_one() {
    let data = counting(77);
    let mut core = Core::default();
    core.update_blocks(&blocks(&[0xa5u8; 96]));
    core.finalize_fixed_core(b"something else");
    core.reset();
    core.update_blocks(&blocks(&data));
    assert_eq!(core.finalize_fixed_core(&data[64..]), hash(&data));
}

#[test]
fn md_clone_continues_independently() {
    let mut core = Core::default();
    core.update_blocks(&blocks(&counting(32)));
    let mut copy = core.clone();
    assert_eq!(core.finalize_fixed_core(&[32]), copy.finalize_fixed_core(&[32]));
    assert_eq!(hash(&counting(33)), {
        let mut fresh = Core::default();
        fresh.update_blocks(&blocks(&counting(32)));
        fresh.finalize_fixed_core(&[32])
    });
}

fn sample_messages() -> Vec<Vec<u8>> {
    // A fixed pseudo-random sample: lengths from 0 to 199, bytes from a
    // linear congruential generator.
    let mut seed: u64 = 0x2545f4914f6cdd1d;
    let mut next = move || {
        seed = seed.wrapping_mul(6364136223846793005).wrapping_add(1442695040888963407);
        (seed >> 33) as usize
    };
    let mut messages: Vec<Vec<u8>> = Vec::new();
    while messages.len() < 60 {
        let len = next() % 200;
        let message: Vec<u8> = (0..len).map(|_| next() as u8).collect();
        if !messages.contains(&message) {
            messages.push(message);
        }
    }
    messages
}

#[test]
fn md_sampled_messages_do_not_collide() {
    let messages = sample_messages();
    let digests: Vec<_> = messages.iter().map(|m| hash(m)).collect();
    for i in 0..digests.len() {
        assert_eq!(digests[i], hash(&messages[i]));
        for j in 0..i {
            assert_ne!(digests[i], digests[j]);
        }
    }
}
