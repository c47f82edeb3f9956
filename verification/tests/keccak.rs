use keccak_jolt::keccak::{f1600, Keccak};
use keccak_jolt::permutation::{keccak_f1600, State1600, OFFSETS, PI, PLEN, RC, RHO};

const ZERO_IMAGE: State1600 = [
    0xf125_8f79_40e1_dde7,
    0x84d5_ccf9_33c0_478a,
    0xd598_261e_a65a_a9ee,
    0xbd15_4730_6f80_494d,
    0x8b28_4e05_6253_d057,
    0xff97_a42d_7f8e_6fd4,
    0x90fe_e5a0_a446_47c4,
    0x8c5b_da0c_d619_2e76,
    0xad30_a6f7_1b19_059c,
    0x3093_5ab7_d08f_fc64,
    0xeb5a_a93f_2317_d635,
    0xa9a6_e626_0d71_2103,
    0x81a5_7c16_dbcf_555f,
    0x43b8_31cd_0347_c826,
    0x01f2_2f1a_11a5_569f,
    0x05e5_635a_21d9_ae61,
    0x64be_fef2_8cc9_70f2,
    0x6136_7095_7bc4_6611,
    0xb87c_5a55_4fd0_0ecb,
    0x8c3e_e88a_1ccf_32c8,
    0x940c_7922_ae3a_2614,
    0x1841_f924_a2c5_09e4,
    0x16f5_3526_e704_65c2,
    0x75f6_44e9_7f30_a13b,
    0xeaf1_ff7b_5cec_a249,
];

fn sample() -> State1600 {
    let mut a = [0u64; PLEN];
    for (i, lane) in a.iter_mut().enumerate() {
        let i = i as u64;
        *lane = i.wrapping_mul(0x0123_4567_89ab_cdef).wrapping_add(i);
    }
    a
}

#[test]
fn permutes_the_zero_state() {
    let mut a = [0u64; PLEN];
    keccak_f1600(&mut a);
    assert_eq!(a, ZERO_IMAGE);
}

#[test]
fn permutes_a_mixed_state() {
    let mut a = sample();
    keccak_f1600(&mut a);
    assert_eq!(a[0], 0x31d4_1db4_34e3_6b0d);
    assert_eq!(a[1], 0xae7c_586c_6ce6_3244);
    assert_eq!(a[12], 0xef83_d216_3ffd_996a);
    assert_eq!(a[24], 0xee87_30bd_16d6_73f8);
}

#[test]
fn f1600_is_the_permutation() {
    let mut a = sample();
    let mut b = sample();
    f1600(&mut a);
    keccak_f1600(&mut b);
    assert_eq!(a, b);
}

#[test]
fn with_f1600_calls_once_with_the_permutation() {
    let mut a = [0u64; PLEN];
    let mut calls = 0;
    Keccak::new().with_f1600(|f| {
        calls += 1;
        f.apply(&mut a);
    });
    assert_eq!(calls, 1);
    assert_eq!(a, ZERO_IMAGE);
}

#[test]
fn with_f1600_permutes_as_often_as_the_caller_asks() {
    let mut a = [0u64; PLEN];
    Keccak::default().with_f1600(|f| {
        f.apply(&mut a);
        f.apply(&mut a);
    });
    let mut b = ZERO_IMAGE;
    keccak_f1600(&mut b);
    assert_eq!(a, b);
}

/// The five column parities before theta, from those after it: the 191st power of the mixing.
fn parities_inverse(mut c: [u64; 5]) -> [u64; 5] {
    for _ in 0..191 {
        let p = c;
        for x in 0..5 {
            c[x] = p[x] ^ p[(x + 4) % 5] ^ p[(x + 1) % 5].rotate_left(1);
        }
    }
    c
}

fn keccak_f1600_inverse(a: &mut State1600) {
    for rc in RC.iter().rev() {
        a[0] ^= rc;
        let b = *a;
        for i in 0..25 {
            let at = |x: usize| b[5 * (i / 5) + (i % 5 + x) % 5];
            a[i] = at(0) ^ (!at(1) & (at(2) ^ (!at(3) & at(4))));
        }
        let b = *a;
        for i in 0..25 {
            a[i] = b[i / 5 + 5 * ((2 * (i % 5) + 3 * (i / 5)) % 5)].rotate_right(OFFSETS[i]);
        }
        let mut c = [0u64; 5];
        for i in 0..25 {
            c[i % 5] ^= a[i];
        }
        let c = parities_inverse(c);
        for i in 0..25 {
            a[i] ^= c[(i + 4) % 5] ^ c[(i + 1) % 5].rotate_left(1);
        }
    }
}

#[test]
fn the_inverse_undoes_the_permutation() {
    for start in [[0u64; PLEN], [u64::MAX; PLEN], sample(), ZERO_IMAGE] {
        let mut a = start;
        keccak_f1600(&mut a);
        assert_ne!(a, start);
        keccak_f1600_inverse(&mut a);
        assert_eq!(a, start);
    }
}

#[test]
fn the_permutation_undoes_the_inverse() {
    for start in [[0u64; PLEN], sample()] {
        let mut a = start;
        keccak_f1600_inverse(&mut a);
        keccak_f1600(&mut a);
        assert_eq!(a, start);
    }
}

#[test]
fn states_that_differ_in_one_bit_have_distinct_images() {
    let mut images = vec![ZERO_IMAGE];
    for lane in 0..PLEN {
        let mut a = [0u64; PLEN];
        a[lane] = 1 << lane;
        keccak_f1600(&mut a);
        assert!(!images.contains(&a));
        images.push(a);
    }
}

#[test]
fn the_tables_of_rho_agree() {
    let mut lane = 1;
    for t in 0..24 {
        assert_eq!(RHO[t], OFFSETS[lane]);
        assert_eq!(RHO[t] as usize, (t + 1) * (t + 2) / 2 % 64);
        lane = PI[t];
    }
    assert_eq!(lane, 1);
    assert_eq!(OFFSETS[0], 0);
}
