use hybrid_array::typenum::U32;
use hybrid_array::Array;
use keccak_jolt::keccak::f1600;
use keccak_jolt::shake::{ShakeState, G, H, SHAKE128_RATE, SHAKE256_RATE};

fn message(len: usize) -> Vec<u8> {
    (0..len).map(|i| (7 * i + 3) as u8).collect()
}

fn shake128(message: &[u8], len: usize) -> Vec<u8> {
    let mut out = vec![0u8; len];
    G::default().absorb(message).squeeze(&mut out);
    out
}

fn shake256(message: &[u8], len: usize) -> Vec<u8> {
    let mut out = vec![0u8; len];
    H::default().absorb(message).squeeze(&mut out);
    out
}

#[test]
fn shake128_hello_world() {
    let mut g = G::default().absorb(b"hello world");
    let mut got = [0u8; 32];
    g.squeeze(&mut got);
    let expected: [u8; 32] = [
        0x3a, 0x91, 0x59, 0xf0, 0x71, 0xe4, 0xdd, 0x1c, 0x8c, 0x4f, 0x96, 0x86, 0x07, 0xc3, 0x09,
        0x42, 0xe1, 0x20, 0xd8, 0x15, 0x6b, 0x8b, 0x1e, 0x72, 0xe0, 0xd3, 0x76, 0xe8, 0x87, 0x1c,
        0xb8, 0xb8,
    ];
    assert_eq!(got, expected);

    let next: Array<u8, U32> = Array::from(g.squeeze_new());
    let expected2: [u8; 32] = [
        0x99, 0x07, 0x26, 0x65, 0x67, 0x4f, 0x26, 0xcc, 0x49, 0x4a, 0x4b, 0xcf, 0x02, 0x7c, 0x58,
        0x26, 0x7e, 0x8e, 0xe2, 0xda, 0x60, 0xe9, 0x42, 0x75, 0x9d, 0xe8, 0x6d, 0x26, 0x70, 0xbb,
        0xa1, 0xaa,
    ];
    assert_eq!(<[u8; 32]>::from(next), expected2);
}

#[test]
fn shake256_hello_world() {
    let mut h = H::default().absorb(b"hello world");
    let mut got = [0u8; 32];
    h.squeeze(&mut got);
    let expected: [u8; 32] = [
        0x36, 0x97, 0x71, 0xbb, 0x2c, 0xb9, 0xd2, 0xb0, 0x4c, 0x1d, 0x54, 0xcc, 0xa4, 0x87, 0xe3,
        0x72, 0xd9, 0xf1, 0x87, 0xf7, 0x3f, 0x7b, 0xa3, 0xf6, 0x5b, 0x95, 0xc8, 0xee, 0x77, 0x98,
        0xc5, 0x27,
    ];
    assert_eq!(got, expected);

    let next: Array<u8, U32> = Array::from(h.squeeze_new());
    let expected2: [u8; 32] = [
        0xf4, 0xf3, 0xc2, 0xd5, 0x5c, 0x2d, 0x46, 0xa2, 0x9f, 0x2e, 0x94, 0x5d, 0x46, 0x9c, 0x3d,
        0xf2, 0x78, 0x53, 0xa8, 0x73, 0x52, 0x71, 0xf5, 0xcc, 0x2d, 0x9e, 0x88, 0x95, 0x44, 0x35,
        0x71, 0x16,
    ];
    assert_eq!(<[u8; 32]>::from(next), expected2);
}

#[test]
fn rates_leave_the_capacity_of_each_function() {
    assert_eq!(200 - SHAKE128_RATE, 2 * 128 / 8);
    assert_eq!(200 - SHAKE256_RATE, 2 * 256 / 8);
}

#[test]
fn shake256_around_block_boundaries() {
    let cases: [(usize, [u8; 16]); 9] = [
        (
            0,
            [
                0x46, 0xb9, 0xdd, 0x2b, 0x0b, 0xa8, 0x8d, 0x13, 0x23, 0x3b, 0x3f, 0xeb, 0x74,
                0x3e, 0xeb, 0x24,
            ],
        ),
        (
            1,
            [
                0xdb, 0x42, 0x52, 0x33, 0x79, 0x00, 0xd8, 0xab, 0x7f, 0x60, 0x9d, 0x17, 0x01,
                0x35, 0xd4, 0x59,
            ],
        ),
        (
            135,
            [
                0x02, 0x13, 0xfc, 0x98, 0x35, 0x2f, 0x00, 0x9f, 0xaf, 0xdf, 0x8e, 0xe1, 0xea,
                0x36, 0x39, 0x14,
            ],
        ),
        (
            136,
            [
                0xc0, 0x0f, 0x43, 0x81, 0x1e, 0x5b, 0x4a, 0x38, 0xe1, 0x4e, 0x3c, 0x06, 0xd8,
                0xa5, 0xce, 0x34,
            ],
        ),
        (
            137,
            [
                0x3c, 0x98, 0x39, 0x83, 0x48, 0x7b, 0xcb, 0xe7, 0x4f, 0xeb, 0xa5, 0x3b, 0x35,
                0xbb, 0x1e, 0x05,
            ],
        ),
        (
            271,
            [
                0xbc, 0xb9, 0x79, 0x27, 0xf1, 0x8c, 0xf6, 0xa6, 0x55, 0xd6, 0x9f, 0x2e, 0xae,
                0x43, 0x45, 0xf8,
            ],
        ),
        (
            272,
            [
                0xfb, 0xb7, 0xdf, 0x10, 0x04, 0x61, 0xf5, 0xdb, 0x32, 0x24, 0xc3, 0xb7, 0x15,
                0x60, 0x3b, 0x5a,
            ],
        ),
        (
            273,
            [
                0xd0, 0x1f, 0x88, 0x49, 0xec, 0x84, 0x0a, 0x93, 0x4b, 0xac, 0xda, 0xe9, 0xe0,
                0x4b, 0xde, 0x8a,
            ],
        ),
        (
            400,
            [
                0x7e, 0xa6, 0x24, 0x05, 0x79, 0x2e, 0xa7, 0xe7, 0xf3, 0xc6, 0x1e, 0x42, 0x93,
                0xf5, 0xa7, 0xf2,
            ],
        ),
    ];
    for (len, expected) in cases {
        assert_eq!(shake256(&message(len), 16), expected, "{len} bytes");
    }
}

#[test]
fn shake128_around_block_boundaries() {
    let cases: [(usize, [u8; 16]); 8] = [
        (
            0,
            [
                0x7f, 0x9c, 0x2b, 0xa4, 0xe8, 0x8f, 0x82, 0x7d, 0x61, 0x60, 0x45, 0x50, 0x76,
                0x05, 0x85, 0x3e,
            ],
        ),
        (
            1,
            [
                0x77, 0x69, 0x15, 0x23, 0x3d, 0x1e, 0x79, 0x09, 0x77, 0x18, 0xe0, 0x9d, 0xb2,
                0x09, 0xef, 0xa4,
            ],
        ),
        (
            167,
            [
                0xbb, 0x96, 0x1b, 0xb0, 0x15, 0x52, 0x10, 0x37, 0x90, 0x5f, 0x9b, 0xaf, 0x69,
                0xce, 0x60, 0xdd,
            ],
        ),
        (
            168,
            [
                0xd4, 0xf7, 0x3f, 0x3b, 0x6c, 0x4b, 0x72, 0xd0, 0x5f, 0x45, 0xed, 0x1f, 0x80,
                0xb5, 0x77, 0x44,
            ],
        ),
        (
            169,
            [
                0x30, 0x45, 0x4d, 0xd0, 0xf6, 0x30, 0xab, 0x1b, 0xb8, 0xfa, 0xda, 0x55, 0x40,
                0x60, 0xd5, 0x40,
            ],
        ),
        (
            335,
            [
                0xd7, 0xb9, 0xf9, 0xdf, 0x93, 0xb9, 0x66, 0xda, 0xe4, 0xb8, 0x74, 0xb4, 0xba,
                0x7c, 0x81, 0x99,
            ],
        ),
        (
            336,
            [
                0xbc, 0xac, 0x93, 0xc8, 0xc1, 0xc8, 0x63, 0xcf, 0x4d, 0xde, 0x74, 0x27, 0xa5,
                0xff, 0x18, 0xba,
            ],
        ),
        (
            337,
            [
                0xa8, 0x95, 0x3c, 0xbd, 0x0a, 0x39, 0xb2, 0x55, 0xb0, 0xce, 0x23, 0x9f, 0xc3,
                0xff, 0x81, 0x9c,
            ],
        ),
    ];
    for (len, expected) in cases {
        assert_eq!(shake128(&message(len), 16), expected, "{len} bytes");
    }
}

#[test]
fn shake256_of_a_verifying_key_sized_input() {
    let pk: Vec<u8> = (0..1952).map(|i| (i % 251) as u8).collect();
    let tr: [u8; 64] = H::default().absorb(&pk).squeeze_new();
    let expected: [u8; 64] = [
        0xf3, 0x10, 0x77, 0x53, 0xbc, 0x3e, 0x93, 0x95, 0x37, 0x38, 0xb8, 0x2d, 0xa2, 0xc3,
        0xd0, 0x4d, 0xb0, 0xf1, 0xeb, 0x8f, 0xce, 0xbd, 0x9c, 0x7e, 0x75, 0x40, 0xc3, 0x59,
        0xb2, 0x1b, 0x8a, 0xc5, 0xde, 0xe6, 0x22, 0xa2, 0x5e, 0x1f, 0xf3, 0x7a, 0x60, 0x02,
        0xdf, 0xed, 0x2d, 0xf3, 0xe2, 0x1e, 0xc5, 0xf6, 0x8e, 0x0a, 0x69, 0xc8, 0x04, 0x26,
        0x35, 0xe9, 0x37, 0xfc, 0x96, 0x96, 0xbf, 0x7d,
    ];
    assert_eq!(tr, expected);
}

#[test]
fn output_goes_on_over_block_boundaries() {
    let out = shake256(b"abc", 300);
    assert_eq!(
        out[120..152],
        [
            0x62, 0x27, 0x20, 0xd7, 0xa7, 0x5c, 0x63, 0x34, 0xe8, 0xa2, 0xd7, 0xec, 0x71, 0xa7,
            0xcc, 0x29, 0xcf, 0x0e, 0xa6, 0x10, 0xee, 0xff, 0x1a, 0x58, 0x82, 0x90, 0xa5, 0x30,
            0x00, 0xfa, 0xa7, 0x99,
        ]
    );
    assert_eq!(
        out[284..],
        [
            0xdd, 0xcb, 0xec, 0x7d, 0xa5, 0x2b, 0x42, 0x21, 0x5c, 0x11, 0xd5, 0xf8, 0xee, 0x57,
            0xf3, 0x41,
        ]
    );
}

#[test]
fn other_rates() {
    fn read<const RATE: usize>() -> [u8; 20] {
        ShakeState::<RATE>::default().absorb(b"hello").squeeze_new()
    }
    assert_eq!(read::<200>(), [
        0xea, 0x4b, 0x7b, 0xdd, 0x6f, 0x44, 0x70, 0xb4, 0xd7, 0xeb, 0x44, 0xa6, 0x59, 0x88,
        0x1d, 0x39, 0xc6, 0x4b, 0xe3, 0x8b,
    ]);
    assert_eq!(read::<1>(), [
        0xfd, 0x05, 0xee, 0x50, 0x0c, 0x3d, 0x6b, 0x62, 0x72, 0x3f, 0x31, 0x2e, 0x7a, 0x62,
        0xb8, 0xb4, 0x28, 0x01, 0xb5, 0x9f,
    ]);
    assert_eq!(read::<8>(), [
        0x6d, 0x30, 0x1a, 0x5d, 0xca, 0x74, 0xd5, 0x65, 0x71, 0xc8, 0x8f, 0x6f, 0xaf, 0x69,
        0x27, 0x37, 0x85, 0x7b, 0xee, 0x6c,
    ]);
    assert_eq!(read::<13>(), [
        0x42, 0x58, 0xbc, 0xed, 0x1b, 0xa7, 0xca, 0xc5, 0x65, 0xb2, 0x43, 0xda, 0x2e, 0xa1,
        0x1d, 0xda, 0xdd, 0x22, 0x9b, 0x81,
    ]);
}

#[test]
fn split_input_is_absorbed_as_its_concatenation() {
    let m = message(400);
    let whole = shake256(&m, 64);
    for at in [0, 1, 7, 8, 135, 136, 137, 272, 399, 400] {
        let (x, y) = m.split_at(at);
        let parts: [u8; 64] = H::default().absorb(x).absorb(y).squeeze_new();
        assert_eq!(parts[..], whole[..], "split at {at}");
    }
    let mut h = H::default();
    for b in &m {
        h = h.absorb(&[*b]);
    }
    assert_eq!(h.squeeze_new::<64>()[..], whole[..]);
}

#[test]
fn absorbing_nothing_changes_nothing() {
    let plain: [u8; 32] = G::default().absorb(b"x").squeeze_new();
    let with_empty: [u8; 32] = G::default().absorb(b"").absorb(b"x").absorb(b"").squeeze_new();
    assert_eq!(plain, with_empty);
}

#[test]
fn split_reads_give_one_output() {
    let whole = shake128(b"stream", 500);
    for at in [0, 1, 167, 168, 169, 336, 499, 500] {
        let mut g = G::default().absorb(b"stream");
        let mut x = vec![0u8; at];
        let mut y = vec![0xAAu8; 500 - at];
        g.squeeze(&mut x).squeeze(&mut y);
        x.extend_from_slice(&y);
        assert_eq!(x, whole, "split at {at}");
    }
    let mut g = G::default().absorb(b"stream");
    for b in &whole {
        assert_eq!(g.squeeze_new::<1>(), [*b]);
    }
}

#[test]
fn a_sponge_handed_on_is_read_from_the_start_at_its_own_rate() {
    fn finish<const RATE: usize>(shake: ShakeState<RATE>, rest: &[u8]) -> [u8; 8] {
        shake.absorb(rest).squeeze_new()
    }
    let g = finish(G::default().absorb(b"hello "), b"world");
    assert_eq!(g, [0x3a, 0x91, 0x59, 0xf0, 0x71, 0xe4, 0xdd, 0x1c]);
    let h = finish(H::default().absorb(b"hello "), b"world");
    assert_eq!(h, [0x36, 0x97, 0x71, 0xbb, 0x2c, 0xb9, 0xd2, 0xb0]);
}

#[test]
fn reading_nothing_closes_the_message() {
    let mut h = H::default().absorb(b"abc");
    h.squeeze(&mut []);
    let next: [u8; 32] = h.squeeze_new();
    assert_eq!(next[..], shake256(b"abc", 32)[..]);
}

#[test]
fn a_shorter_output_starts_a_longer_one() {
    let long = shake256(b"prefix", 300);
    for len in [0, 1, 135, 136, 137, 299] {
        assert_eq!(shake256(b"prefix", len)[..], long[..len]);
    }
}

#[test]
fn messages_that_look_like_padding_are_told_apart() {
    let mut outputs: Vec<Vec<u8>> = vec![];
    let mut padded = vec![0u8; SHAKE256_RATE];
    padded[0] = 0x1F;
    padded[SHAKE256_RATE - 1] = 0x80;
    for m in [&[][..], &[0x1F], &[0x1F, 0], &[0x9F], &padded, &padded[..SHAKE256_RATE - 1]] {
        let out = shake256(m, 32);
        assert!(!outputs.contains(&out));
        outputs.push(out);
    }
}

#[test]
fn short_messages_are_closed_to_different_states() {
    // At this rate a block of output is the whole state.
    let messages: [&[u8]; 6] = [b"", b"\0", b"\0\0", b"hello", b"hello\0", b"hello\x1f"];
    let states = messages.map(|m| ShakeState::<200>::default().absorb(m).squeeze_new::<200>());
    for i in 0..messages.len() {
        for j in 0..i {
            assert_ne!(states[i], states[j]);
            assert_ne!(shake128(messages[i], 32), shake128(messages[j], 32));
            assert_ne!(shake256(messages[i], 32), shake256(messages[j], 32));
        }
    }
}

#[test]
fn a_padded_block_is_added_byte_by_byte() {
    // 134 and 135 bytes: the two marks of the padding in two bytes, and in one.
    for len in [0, 5, 134, 135] {
        let m = message(len);
        let mut block = [0u8; 200];
        block[..len].copy_from_slice(&m);
        block[len] ^= 0x1F;
        block[SHAKE256_RATE - 1] ^= 0x80;
        let mut state = [0u64; 25];
        for (i, b) in block.iter().enumerate() {
            state[i / 8] |= u64::from(*b) << (8 * (i % 8));
        }
        f1600(&mut state);
        let bytes: Vec<u8> = state.iter().flat_map(|lane| lane.to_le_bytes()).collect();
        assert_eq!(shake256(&m, SHAKE256_RATE), bytes[..SHAKE256_RATE]);
    }
}

#[test]
fn a_clone_goes_its_own_way() {
    let mut a = H::default().absorb(b"common");
    let b = a.clone();
    let first: [u8; 32] = a.squeeze_new();
    assert_eq!(first[..], shake256(b"common", 32)[..]);
    let mut b = b.absorb(b" and more");
    assert_eq!(b.squeeze_new::<32>()[..], shake256(b"common and more", 32)[..]);
    let mut c = a.clone();
    assert_eq!(a.squeeze_new::<200>(), c.squeeze_new::<200>());
}
