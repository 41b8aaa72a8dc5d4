use areion::mmo::{hash, Core};

fn hex_fmt(b: &[u8]) -> String {
    b.iter()
        .map(|v| format!("{:02x}", v))
        .collect::<Vec<String>>()
        .chunks(16)
        .map(|v| v.join(" "))
        .collect::<Vec<String>>()
        .join("\n")
}

fn counting(n: usize) -> Vec<u8> {
    (0..n).map(|i| i as u8).collect()
}

fn blocks(data: &[u8]) -> Vec<[u8; 64]> {
    data.chunks_exact(64)
        .map(|c| {
            let mut b = [0u8; 64];
            b.copy_from_slice(c);
            b
        })
        .collect()
}

#[test]
fn mmo_empty_message() {
    assert_eq!(
        hex_fmt(&hash(&counting(0))),
        "54 4a 25 98 30 96 b7 cc 7a 09 84 ed 09 8b 19 82\n\
         8f ca 2c 40 32 ac 00 43 71 ff 72 ce b7 37 95 8c\n\
         c9 cb da 3c c4 ad 8b 62 a0 d4 1c 91 93 17 fb 37\n\
         d2 a3 4a dd f0 66 15 81 bf 8b a3 2f 23 d5 d4 b9"
    );
}

#[test]
fn mmo_one_byte() {
    assert_eq!(
        hex_fmt(&hash(&counting(1))),
        "ca 8a 55 82 92 f1 b9 bd 5d 91 54 25 69 dd 1e 8e\n\
         42 0c 70 4f 99 7c 18 8e c1 34 60 91 63 8c 44 48\n\
         5e a1 59 05 5e 47 75 f8 99 22 dd 3b 11 57 b3 ba\n\
         15 a9 7a 3f 20 35 40 4d 8c 79 68 aa c3 e8 91 9c"
    );
}

#[test]
fn mmo_longest_tail_with_one_padding_block() {
    assert_eq!(
        hex_fmt(&hash(&counting(47))),
        "b5 71 d7 f1 b8 30 0f be 97 da a4 c4 49 e4 e1 95\n\
         94 2e 14 c1 6e 30 ec 9f 70 f2 4f ee 5a ce 0a 51\n\
         9c 8c 33 99 a7 45 13 73 26 32 53 eb c4 e5 60 86\n\
         14 4b 46 b5 5b 8b bf 85 f7 98 e0 fe 1d 86 b7 77"
    );
}

#[test]
fn mmo_shortest_tail_with_two_padding_blocks() {
    assert_eq!(
        hex_fmt(&hash(&counting(48))),
        "d6 5d 17 c2 a6 1e 95 9d ab 66 03 6c cb 0f 53 f9\n\
         f2 c3 9d 43 a2 45 3b 97 c3 16 d8 53 aa 70 84 44\n\
         d2 86 44 a8 49 7d 3e d8 49 74 2c a6 cb b7 25 cd\n\
         f4 6c 6d 72 20 3e d6 7e 2e 66 ec 63 d9 59 85 00"
    );
}

#[test]
fn mmo_one_byte_less_than_a_block() {
    assert_eq!(
        hex_fmt(&hash(&counting(63))),
        "7d 3b c9 45 68 59 b2 15 b9 80 69 a2 bf 83 ff 50\n\
         73 c6 4a a9 19 7a 52 8c b7 3f 86 5b 1d 24 ea 5f\n\
         4b 3d ff 8d 3a ea ca 7c 6f c8 ba 1d 4c 61 3d 93\n\
         db c5 b4 9d d0 22 81 04 23 d5 94 86 45 ed fb f3"
    );
}

#[test]
fn mmo_exactly_one_block() {
    assert_eq!(
        hex_fmt(&hash(&counting(64))),
        "e0 d1 6d 2f 12 14 d8 4a eb 75 a5 aa 51 ef 8a dd\n\
         96 26 e0 3c 6c 00 18 0e 09 0f 19 e9 28 15 bf fa\n\
         fc 68 bf 87 fb 7c af 3f cc 8c c0 e2 25 c5 01 ee\n\
         d7 a4 4b 3c fd 3d d4 db d2 7f 6d a9 94 5c 83 a9"
    );
}

#[test]
fn mmo_one_byte_more_than_a_block() {
    assert_eq!(
        hex_fmt(&hash(&counting(65))),
        "a6 ae 32 36 c7 bf 96 26 89 85 d7 cd 7b 1c c2 fa\n\
         ae aa 8c f3 06 04 a8 4e b5 58 7f ec 07 24 f5 f8\n\
         39 e5 0c 38 c3 a0 e8 54 23 a6 0e f1 6d c3 c2 5b\n\
         2e 28 44 8e ae 9f 09 ad 59 d5 c5 9b d9 fd 1c fd"
    );
}

#[test]
fn mmo_two_blocks() {
    assert_eq!(
        hex_fmt(&hash(&counting(128))),
        "15 3e 8b 2e f5 0d 6e 37 24 3c 1e a9 f5 04 42 47\n\
         3d 3d 1f f9 fd 59 01 81 1b d9 9a 44 eb 81 2c 83\n\
         d0 10 33 1c d3 af 06 4c 85 d2 20 5f e3 ab 48 fe\n\
         ab d3 c9 04 7b 48 6e d5 26 dd aa 81 91 6c a5 97"
    );
}

#[test]
fn mmo_boundary_digests_are_distinct() {
    let digests: Vec<[u8; 64]> = [0, 1, 47, 48, 63, 64, 65, 128].iter().map(|&n| hash(&counting(n))).collect();
    for i in 0..digests.len() {
        for j in 0..i {
            assert_ne!(digests[i], digests[j]);
        }
    }
}

#[test]
fn mmo_distinct_messages_give_distinct_digests() {
    assert_ne!(hash(b"a"), hash(b"b"));
    assert_ne!(hash(&[0u8; 64]), hash(&[0u8; 65]));
    assert_ne!(hash(&[0u8; 63]), hash(&[0u8; 64]));
    assert_ne!(hash(b""), hash(&[0u8]));
    assert_ne!(hash(b""), hash(&[0x80]));
}

#[test]
fn mmo_blocks_in_one_call_or_several() {
    let data = counting(3 * 64 + 5);
    let all = blocks(&data);
    let mut once = Core::default();
    once.update_blocks(&all);
    let mut twice = Core::default();
    twice.update_blocks(&all[..2]);
    twice.update_blocks(&all[2..]);
    let tail = &data[3 * 64..];
    let digest = once.finalize_fixed_core(tail);
    assert_eq!(digest, twice.finalize_fixed_core(tail));
    assert_eq!(digest, hash(&data));
}

#[test]
fn mmo_reset_core_gives_same_digest_as_fresh_one() {
    let data = counting(150);
    let mut core = Core::default();
    core.update_blocks(&blocks(&[0xa5u8; 128]));
    core.finalize_fixed_core(b"something else");
    core.reset();
    core.update_blocks(&blocks(&data));
    assert_eq!(core.finalize_fixed_core(&data[128..]), hash(&data));
}

fn sample_messages() -> Vec<Vec<u8>> {
    // A fixed pseudo-random sample: lengths from 0 to 199, bytes from a
    // linear congruential generator.
    let mut seed: u64 = 0x2545f4914f6cdd1d;
    let mut next = move || {
        seed = seed.wrapping_mul(6364136223846793005).wrapping_add(1442695040888963407);
        (seed >> 33) as usize
    };
    let mut messages: Vec<Vec<u8>> = Vec::new();
    while messages.len() < 60 {
        let len = next() % 200;
        let message: Vec<u8> = (0..len).map(|_| next() as u8).collect();
        if !messages.contains(&message) {
            messages.push(message);
        }
    }
    messages
}

#[test]
fn mmo_sampled_messages_do_not_collide() {
    let messages = sample_messages();
    let digests: Vec<_> = messages.iter().map(|m| hash(m)).collect();
    for i in 0..digests.len() {
        assert_eq!(digests[i], hash(&messages[i]));
        for j in 0..i {
            assert_ne!(digests[i], digests[j]);
        }
    }
}
