//! Laws of the permutation: what each step of a round does to the bits of a state, where its
//! constants come from, and how the rounds follow each other.
use vstd::prelude::*;

use crate::permutation::{
    chi, iota, keccak_f, parities, parity, pi, rho, rotl, round, rounds, theta, theta_effect,
    OFFSETS, PI, RC, RHO,
};

verus! {

// ---- rotation ----

/// Rotating by `n` moves bit `z` to bit `z + n`, and round from the top to the bottom.
#[verifier::rlimit(60)]
pub proof fn law_rotl_moves_bits(v: u64, n: u32, z: u32)
    requires
        n < 64,
        z < 64,
    ensures
        (rotl(v, n) >> (((z + n) % 64) as u32)) & 1 == (v >> z) & 1,
{
    assert((rotl(v, n) >> (((z + n) % 64) as u32)) & 1 == (v >> z) & 1) by (bit_vector)
        requires
            n < 64,
            z < 64,
    ;
}

// ---- theta ----

/// Every lane of a column counts in its parity, and no other lane does: adding `d` to lane `i`
/// adds `d` to the parity of the column of `i` and leaves the other parities as they were.
pub proof fn law_parity_counts_each_lane(a: Seq<u64>, i: int, d: u64, x: int)
    requires
        a.len() == 25,
        0 <= i < 25,
        0 <= x < 5,
    ensures
        parity(a.update(i, a[i] ^ d), x) == if i % 5 == x {
            parity(a, x) ^ d
        } else {
            parity(a, x)
        },
{
    if i % 5 == x {
        let a0 = a[x];
        let a1 = a[x + 5];
        let a2 = a[x + 10];
        let a3 = a[x + 15];
        let a4 = a[x + 20];
        assert({
            &&& (a0 ^ d) ^ a1 ^ a2 ^ a3 ^ a4 == (a0 ^ a1 ^ a2 ^ a3 ^ a4) ^ d
            &&& a0 ^ (a1 ^ d) ^ a2 ^ a3 ^ a4 == (a0 ^ a1 ^ a2 ^ a3 ^ a4) ^ d
            &&& a0 ^ a1 ^ (a2 ^ d) ^ a3 ^ a4 == (a0 ^ a1 ^ a2 ^ a3 ^ a4) ^ d
            &&& a0 ^ a1 ^ a2 ^ (a3 ^ d) ^ a4 == (a0 ^ a1 ^ a2 ^ a3 ^ a4) ^ d
            &&& a0 ^ a1 ^ a2 ^ a3 ^ (a4 ^ d) == (a0 ^ a1 ^ a2 ^ a3 ^ a4) ^ d
        }) by (bit_vector);
        assert(i == x || i == x + 5 || i == x + 10 || i == x + 15 || i == x + 20);
    }
}

/// The parities of the state without a set bit are zero.
pub proof fn law_parity_of_zero(a: Seq<u64>, x: int)
    requires
        a.len() == 25,
        forall|i: int| 0 <= i < 25 ==> a[i] == 0,
        0 <= x < 5,
    ensures
        parity(a, x) == 0,
{
    assert(0u64 ^ 0 ^ 0 ^ 0 ^ 0 == 0) by (bit_vector);
}

/// Adding `d` to lane `i` before theta adds, after it, `d` to lane `i`, `d` to each lane of the
/// next column, and `d` rotated by one to each lane of the column before.
pub proof fn law_theta_spreads(a: Seq<u64>, i: int, d: u64, j: int)
    requires
        a.len() == 25,
        0 <= i < 25,
        0 <= j < 25,
    ensures
        theta(a).len() == 25,
        theta(a.update(i, a[i] ^ d))[j] == theta(a)[j] ^ (if j == i {
            d
        } else {
            0
        }) ^ (if j % 5 == (i + 1) % 5 {
            d
        } else {
            0
        }) ^ (if j % 5 == (i + 4) % 5 {
            (d << 1) | (d >> 63)
        } else {
            0
        }),
{
    let b = a.update(i, a[i] ^ d);
    let x = j % 5;
    let before = (x + 4) % 5;
    let after = (x + 1) % 5;
    law_parity_counts_each_lane(a, i, d, before);
    law_parity_counts_each_lane(a, i, d, after);
    let e0: u64 = if j == i {
        d
    } else {
        0
    };
    let e1: u64 = if before == i % 5 {
        d
    } else {
        0
    };
    let f: u64 = if after == i % 5 {
        d
    } else {
        0
    };
    let v = a[j];
    let p = parity(a, before);
    let q = parity(a, after);
    assert(v ^ 0 == v && p ^ 0 == p && q ^ 0 == q) by (bit_vector);
    assert(b[j] == v ^ e0);
    assert(parities(b)[before] == p ^ e1);
    assert(parities(b)[after] == q ^ f);
    assert(theta_effect(parities(b), x) == (p ^ e1) ^ rotl(q ^ f, 1));
    assert((v ^ e0) ^ ((p ^ e1) ^ rotl(q ^ f, 1)) == (v ^ (p ^ rotl(q, 1))) ^ e0 ^ e1 ^ ((f << 1)
        | (f >> 63))) by (bit_vector);
    assert((0u64 << 1) | (0u64 >> 63) == 0) by (bit_vector);
    assert((before == i % 5) == (j % 5 == (i + 1) % 5));
    assert((after == i % 5) == (j % 5 == (i + 4) % 5));
}

/// Theta leaves the state without a set bit as it is.
pub proof fn law_theta_of_zero(a: Seq<u64>)
    requires
        a.len() == 25,
        forall|i: int| 0 <= i < 25 ==> a[i] == 0,
    ensures
        theta(a) == a,
{
    assert(0u64 ^ (0u64 ^ rotl(0, 1)) == 0) by (bit_vector);
    assert forall|j: int| 0 <= j < 25 implies theta(a)[j] == 0 by {
        law_parity_of_zero(a, (j % 5 + 4) % 5);
        law_parity_of_zero(a, (j % 5 + 1) % 5);
    }
    assert(theta(a) =~= a);
}

// ---- rho and pi ----

/// Rho moves bit `z` of each lane on by the rotation amount of the lane.
pub proof fn law_rho_moves_bits(a: Seq<u64>, i: int, z: u32)
    requires
        a.len() == 25,
        0 <= i < 25,
        z < 64,
    ensures
        rho(a).len() == 25,
        (rho(a)[i] >> (((z + OFFSETS@[i]) % 64) as u32)) & 1 == (a[i] >> z) & 1,
{
    assert(OFFSETS@[i] < 64);
    law_rotl_moves_bits(a[i], OFFSETS@[i], z);
}

/// Pi moves lane `(x, y)` to `(y, 2 * x + 3 * y)`.
pub proof fn law_pi_moves_lanes(a: Seq<u64>, x: int, y: int)
    requires
        a.len() == 25,
        0 <= x < 5,
        0 <= y < 5,
    ensures
        pi(a).len() == 25,
        pi(a)[y + 5 * ((2 * x + 3 * y) % 5)] == a[x + 5 * y],
{
}

/// The lanes other than lane 0 are visited along one path, each where pi moves the one before,
/// from lane 1 on and back to it.
pub proof fn law_visiting_order(t: int)
    requires
        0 <= t < 24,
    ensures
        ({
            let last = if t == 0 {
                1
            } else {
                PI@[t - 1] as int
            };
            PI@[t] == last / 5 + 5 * ((2 * (last % 5) + 3 * (last / 5)) % 5)
        }),
        PI@[23] == 1,
{
}

/// Along that path the rotation amounts are the triangular numbers, up to whole turns: each is
/// more than the one before by its place. Lane 0 is not rotated.
pub proof fn law_rotation_amounts(t: int)
    requires
        0 <= t < 24,
    ensures
        RHO@[t] == (t + 1 + if t == 0 {
            0
        } else {
            RHO@[t - 1] as int
        }) % 64,
        OFFSETS@[if t == 0 {
            1
        } else {
            PI@[t - 1] as int
        }] == RHO@[t],
        OFFSETS@[0] == 0,
{
}

// ---- chi and iota ----

/// Chi flips a bit where the next bit of its row is clear and the one after that is set, and
/// nowhere else.
pub proof fn law_chi_flips_bits(a: Seq<u64>, x: int, y: int, z: u32)
    requires
        a.len() == 25,
        0 <= x < 5,
        0 <= y < 5,
        z < 64,
    ensures
        chi(a).len() == 25,
        ((chi(a)[x + 5 * y] >> z) & 1 != (a[x + 5 * y] >> z) & 1) <==> ((a[(x + 1) % 5 + 5 * y]
            >> z) & 1 == 0 && (a[(x + 2) % 5 + 5 * y] >> z) & 1 == 1),
{
    let u = a[x + 5 * y];
    let v = a[(x + 1) % 5 + 5 * y];
    let w = a[(x + 2) % 5 + 5 * y];
    assert((((u ^ (!v & w)) >> z) & 1 != (u >> z) & 1) <==> ((v >> z) & 1 == 0 && (w >> z) & 1
        == 1)) by (bit_vector);
    assert((x + 5 * y) % 5 == x && (x + 5 * y) / 5 == y);
    assert(chi(a)[x + 5 * y] == u ^ (!v & w));
}

/// Iota adds the round constant to lane 0 and leaves every other lane as it is.
pub proof fn law_iota_adds_constant(a: Seq<u64>, r: int, i: int)
    requires
        a.len() == 25,
        0 <= r < 24,
        0 <= i < 25,
    ensures
        iota(a, r).len() == 25,
        iota(a, r)[i] ^ a[i] == if i == 0 {
            RC@[r]
        } else {
            0
        },
{
    let v = a[i];
    let c = RC@[r];
    assert((v ^ c) ^ v == c && v ^ v == 0) by (bit_vector);
}

/// The seven bits of a round constant that may be set, brought together.
pub open spec fn constant_bits(w: u64) -> u64 {
    (w & 1) | (((w >> 1) & 1) << 1) | (((w >> 3) & 1) << 2) | (((w >> 7) & 1) << 3) | (((w >> 15)
        & 1) << 4) | (((w >> 31) & 1) << 5) | (((w >> 63) & 1) << 6)
}

/// Whether the bits of `u` go on in those of `v` and `w` as the sequence in which each bit is the
/// sum of the ones 8, 4, 3 and 2 places before it.
pub open spec fn constants_recur(u: u64, v: u64, w: u64) -> bool {
    let s = constant_bits(u) | (constant_bits(v) << 7) | (constant_bits(w) << 14);
    ((s >> 8) ^ s ^ (s >> 4) ^ (s >> 5) ^ (s >> 6)) & 0x7f == 0
}

/// The round constants hold, seven bits each, one sequence of bits that starts with `1` and seven
/// zeros and in which each later bit is the sum of the ones 8, 4, 3 and 2 places before it.
pub proof fn law_round_constants(r: int)
    requires
        0 <= r < 24,
    ensures
        RC@[r] & 0x7fff_ffff_7fff_7f74 == 0,
        constant_bits(RC@[0]) == 1,
        RC@[1] & 1 == 0,
        r < 22 ==> constants_recur(RC@[r], RC@[r + 1], RC@[r + 2]),
        r == 22 ==> ({
            let s = constant_bits(RC@[22]) | (constant_bits(RC@[23]) << 7);
            ((s >> 8) ^ s ^ (s >> 4) ^ (s >> 5) ^ (s >> 6)) & 0x3f == 0
        }),
{
    assert({
        &&& 0x0000_0000_0000_0001u64 & 0x7fff_ffff_7fff_7f74 == 0
        &&& 0x0000_0000_0000_8082u64 & 0x7fff_ffff_7fff_7f74 == 0
        &&& 0x8000_0000_0000_808au64 & 0x7fff_ffff_7fff_7f74 == 0
        &&& 0x8000_0000_8000_8000u64 & 0x7fff_ffff_7fff_7f74 == 0
        &&& 0x0000_0000_0000_808bu64 & 0x7fff_ffff_7fff_7f74 == 0
        &&& 0x0000_0000_8000_0001u64 & 0x7fff_ffff_7fff_7f74 == 0
        &&& 0x8000_0000_8000_8081u64 & 0x7fff_ffff_7fff_7f74 == 0
        &&& 0x8000_0000_0000_8009u64 & 0x7fff_ffff_7fff_7f74 == 0
        &&& 0x0000_0000_0000_008au64 & 0x7fff_ffff_7fff_7f74 == 0
        &&& 0x0000_0000_0000_0088u64 & 0x7fff_ffff_7fff_7f74 == 0
        &&& 0x0000_0000_8000_8009u64 & 0x7fff_ffff_7fff_7f74 == 0
        &&& 0x0000_0000_8000_000au64 & 0x7fff_ffff_7fff_7f74 == 0
        &&& 0x0000_0000_8000_808bu64 & 0x7fff_ffff_7fff_7f74 == 0
        &&& 0x8000_0000_0000_008bu64 & 0x7fff_ffff_7fff_7f74 == 0
        &&& 0x8000_0000_0000_8089u64 & 0x7fff_ffff_7fff_7f74 == 0
        &&& 0x8000_0000_0000_8003u64 & 0x7fff_ffff_7fff_7f74 == 0
        &&& 0x8000_0000_0000_8002u64 & 0x7fff_ffff_7fff_7f74 == 0
        &&& 0x8000_0000_0000_0080u64 & 0x7fff_ffff_7fff_7f74 == 0
        &&& 0x0000_0000_0000_800au64 & 0x7fff_ffff_7fff_7f74 == 0
        &&& 0x8000_0000_8000_000au64 & 0x7fff_ffff_7fff_7f74 == 0
        &&& 0x8000_0000_8000_8081u64 & 0x7fff_ffff_7fff_7f74 == 0
        &&& 0x8000_0000_0000_8080u64 & 0x7fff_ffff_7fff_7f74 == 0
        &&& 0x0000_0000_8000_0001u64 & 0x7fff_ffff_7fff_7f74 == 0
        &&& 0x8000_0000_8000_8008u64 & 0x7fff_ffff_7fff_7f74 == 0
    }) by (bit_vector);
    assert({
        let s = constant_bits(0x0000_0000_8000_0001u64) | (constant_bits(
            0x8000_0000_8000_8008u64,
        ) << 7);
        &&& constant_bits(1) == 1
        &&& 0x8082u64 & 1 == 0
        &&& ((s >> 8) ^ s ^ (s >> 4) ^ (s >> 5) ^ (s >> 6)) & 0x3f == 0
    }) by (bit_vector);
    assert({
        &&& constants_recur(
            0x0000_0000_0000_0001u64,
            0x0000_0000_0000_8082u64,
            0x8000_0000_0000_808au64,
        )
        &&& constants_recur(
            0x0000_0000_0000_8082u64,
            0x8000_0000_0000_808au64,
            0x8000_0000_8000_8000u64,
        )
        &&& constants_recur(
            0x8000_0000_0000_808au64,
            0x8000_0000_8000_8000u64,
            0x0000_0000_0000_808bu64,
        )
        &&& constants_recur(
            0x8000_0000_8000_8000u64,
            0x0000_0000_0000_808bu64,
            0x0000_0000_8000_0001u64,
        )
        &&& constants_recur(
            0x0000_0000_0000_808bu64,
            0x0000_0000_8000_0001u64,
            0x8000_0000_8000_8081u64,
        )
        &&& constants_recur(
            0x0000_0000_8000_0001u64,
            0x8000_0000_8000_8081u64,
            0x8000_0000_0000_8009u64,
        )
        &&& constants_recur(
            0x8000_0000_8000_8081u64,
            0x8000_0000_0000_8009u64,
            0x0000_0000_0000_008au64,
        )
        &&& constants_recur(
            0x8000_0000_0000_8009u64,
            0x0000_0000_0000_008au64,
            0x0000_0000_0000_0088u64,
        )
        &&& constants_recur(
            0x0000_0000_0000_008au64,
            0x0000_0000_0000_0088u64,
            0x0000_0000_8000_8009u64,
        )
        &&& constants_recur(
            0x0000_0000_0000_0088u64,
            0x0000_0000_8000_8009u64,
            0x0000_0000_8000_000au64,
        )
        &&& constants_recur(
            0x0000_0000_8000_8009u64,
            0x0000_0000_8000_000au64,
            0x0000_0000_8000_808bu64,
        )
        &&& constants_recur(
            0x0000_0000_8000_000au64,
            0x0000_0000_8000_808bu64,
            0x8000_0000_0000_008bu64,
        )
        &&& constants_recur(
            0x0000_0000_8000_808bu64,
            0x8000_0000_0000_008bu64,
            0x8000_0000_0000_8089u64,
        )
        &&& constants_recur(
            0x8000_0000_0000_008bu64,
            0x8000_0000_0000_8089u64,
            0x8000_0000_0000_8003u64,
        )
        &&& constants_recur(
            0x8000_0000_0000_8089u64,
            0x8000_0000_0000_8003u64,
            0x8000_0000_0000_8002u64,
        )
        &&& constants_recur(
            0x8000_0000_0000_8003u64,
            0x8000_0000_0000_8002u64,
            0x8000_0000_0000_0080u64,
        )
        &&& constants_recur(
            0x8000_0000_0000_8002u64,
            0x8000_0000_0000_0080u64,
            0x0000_0000_0000_800au64,
        )
        &&& constants_recur(
            0x8000_0000_0000_0080u64,
            0x0000_0000_0000_800au64,
            0x8000_0000_8000_000au64,
        )
        &&& constants_recur(
            0x0000_0000_0000_800au64,
            0x8000_0000_8000_000au64,
            0x8000_0000_8000_8081u64,
        )
        &&& constants_recur(
            0x8000_0000_8000_000au64,
            0x8000_0000_8000_8081u64,
            0x8000_0000_0000_8080u64,
        )
        &&& constants_recur(
            0x8000_0000_8000_8081u64,
            0x8000_0000_0000_8080u64,
            0x0000_0000_8000_0001u64,
        )
        &&& constants_recur(
            0x8000_0000_0000_8080u64,
            0x0000_0000_8000_0001u64,
            0x8000_0000_8000_8008u64,
        )
    }) by (bit_vector);
}

// ---- rounds ----

/// A round is theta, rho, pi and chi in this order, and then iota: adding its constant once more
/// gives what chi gave.
pub proof fn law_round_is_its_steps(a: Seq<u64>, r: int)
    requires
        a.len() == 25,
        0 <= r < 24,
    ensures
        iota(round(a, r), r) == chi(pi(rho(theta(a)))),
{
    reveal(round);
    let b = chi(pi(rho(theta(a))));
    let v = b[0];
    let c = RC@[r];
    assert((v ^ c) ^ c == v) by (bit_vector);
    assert(iota(iota(b, r), r) =~= b);
}

/// States that follow each other by the five steps, one round after the other, lead from any
/// state to its image under Keccak-f[1600].
pub proof fn law_keccak_f_is_its_rounds(trace: Seq<Seq<u64>>)
    requires
        trace.len() == 25,
        forall|r: int|
            0 <= r < 24 ==> #[trigger] trace[r + 1] == iota(chi(pi(rho(theta(trace[r])))), r),
    ensures
        keccak_f(trace[0]) == trace[24],
{
    law_first_rounds(trace, 24);
}

/// The same of the first `n` rounds.
pub proof fn law_first_rounds(trace: Seq<Seq<u64>>, n: nat)
    requires
        trace.len() == 25,
        n <= 24,
        forall|r: int|
            0 <= r < 24 ==> #[trigger] trace[r + 1] == iota(chi(pi(rho(theta(trace[r])))), r),
    ensures
        rounds(trace[0], n) == trace[n as int],
    decreases n,
{
    if n > 0 {
        law_first_rounds(trace, (n - 1) as nat);
        reveal(round);
        let r = n - 1;
        let state = trace[r];
        assert(trace[r + 1] == iota(chi(pi(rho(theta(state)))), r));
    }
}

} // verus!
