//! Keccak-f[1600], the permutation of 25 lanes of 64 bits.
//!
//! The five steps of a round are stated lane by lane as spec functions; the executable
//! permutation works in place and is proved to compute 24 such rounds.
use vstd::prelude::*;

verus! {

/// Number of 64-bit lanes in a state.
pub const PLEN: usize = 25;

/// The 1600-bit state. Lane `(x, y)` is stored at index `x + 5 * y`.
pub type State1600 = [u64; PLEN];

/// Rotation amounts, in the order in which the rho and pi steps visit the lanes.
pub const RHO: [u32; 24] = [
    1, 3, 6, 10, 15, 21, 28, 36, 45, 55, 2, 14, 27, 41, 56, 8, 25, 43, 62, 18, 39, 61, 20, 44,
];

/// Lanes in the order in which the rho and pi steps visit them, starting after lane 1.
pub const PI: [usize; 24] = [
    10, 7, 11, 17, 18, 3, 5, 16, 8, 21, 24, 4, 15, 23, 19, 13, 12, 2, 20, 14, 22, 9, 6, 1,
];

/// Round constants of the iota step.
pub const RC: [u64; 24] = [
    0x0000_0000_0000_0001,
    0x0000_0000_0000_8082,
    0x8000_0000_0000_808a,
    0x8000_0000_8000_8000,
    0x0000_0000_0000_808b,
    0x0000_0000_8000_0001,
    0x8000_0000_8000_8081,
    0x8000_0000_0000_8009,
    0x0000_0000_0000_008a,
    0x0000_0000_0000_0088,
    0x0000_0000_8000_8009,
    0x0000_0000_8000_000a,
    0x0000_0000_8000_808b,
    0x8000_0000_0000_008b,
    0x8000_0000_0000_8089,
    0x8000_0000_0000_8003,
    0x8000_0000_0000_8002,
    0x8000_0000_0000_0080,
    0x0000_0000_0000_800a,
    0x8000_0000_8000_000a,
    0x8000_0000_8000_8081,
    0x8000_0000_0000_8080,
    0x0000_0000_8000_0001,
    0x8000_0000_8000_8008,
];

/// Rotation amount of each lane, by its index.
pub const OFFSETS: [u32; 25] = [
    0, 1, 62, 28, 27, 36, 44, 6, 55, 20, 3, 10, 43, 25, 39, 41, 45, 15, 21, 8, 18, 2, 61, 56, 14,
];

/// `v` rotated left by `n` bits.
pub open spec fn rotl(v: u64, n: u32) -> u64 {
    (v << n) | (v >> ((64 - n) as u32))
}

/// The parity of column `x`: the exclusive or of its five lanes.
pub open spec fn parity(a: Seq<u64>, x: int) -> u64 {
    a[x] ^ a[x + 5] ^ a[x + 10] ^ a[x + 15] ^ a[x + 20]
}

/// The parities of the five columns.
pub open spec fn parities(a: Seq<u64>) -> Seq<u64> {
    Seq::new(5, |x: int| parity(a, x))
}

/// What theta adds to the lanes of column `x`, for column parities `c`: the parity of the
/// column before it and the rotated parity of the column after it.
pub open spec fn theta_effect(c: Seq<u64>, x: int) -> u64 {
    c[(x + 4) % 5] ^ rotl(c[(x + 1) % 5], 1)
}

/// Theta adds to each lane the effect of its column.
pub open spec fn theta(a: Seq<u64>) -> Seq<u64> {
    Seq::new(25, |i: int| a[i] ^ theta_effect(parities(a), i % 5))
}

/// Rho rotates each lane by its own amount.
pub open spec fn rho(a: Seq<u64>) -> Seq<u64> {
    Seq::new(25, |i: int| rotl(a[i], OFFSETS@[i]))
}

/// The lane that pi moves to index `i`: lane `(x, y)` comes from lane `(x + 3 * y, x)`.
pub open spec fn pi_source(i: int) -> int {
    (i % 5 + 3 * (i / 5)) % 5 + 5 * (i % 5)
}

/// Pi moves the lanes.
pub open spec fn pi(a: Seq<u64>) -> Seq<u64> {
    Seq::new(25, |i: int| a[pi_source(i)])
}

/// The lane `x` places on from lane `i` in the row of `i`.
pub open spec fn in_row(i: int, x: int) -> int {
    5 * (i / 5) + (i % 5 + x) % 5
}

/// Chi combines each lane with the next two lanes of its row.
pub open spec fn chi(a: Seq<u64>) -> Seq<u64> {
    Seq::new(25, |i: int| a[i] ^ (!a[in_row(i, 1)] & a[in_row(i, 2)]))
}

/// Iota adds the constant of round `r` to lane 0.
pub open spec fn iota(a: Seq<u64>, r: int) -> Seq<u64> {
    a.update(0, a[0] ^ RC@[r])
}

/// Round `r` of the permutation.
#[verifier::opaque]
pub open spec fn round(a: Seq<u64>, r: int) -> Seq<u64> {
    iota(chi(pi(rho(theta(a)))), r)
}

/// The first `n` rounds of the permutation.
pub open spec fn rounds(a: Seq<u64>, n: nat) -> Seq<u64>
    decreases n,
{
    if n == 0 {
        a
    } else {
        round(rounds(a, (n - 1) as nat), n - 1)
    }
}

/// Keccak-f[1600]: all 24 rounds.
pub open spec fn keccak_f(a: Seq<u64>) -> Seq<u64> {
    rounds(a, 24)
}

/// The place of a lane other than lane 0 in the order of `PI`.
spec fn visit(i: int) -> int {
    [0int, 23, 17, 5, 11, 6, 22, 1, 8, 21, 0, 2, 16, 15, 19, 12, 7, 3, 4, 14, 18, 9, 20, 13, 10][i]
}

/// Rotating by nothing, or by a whole turn, changes nothing.
pub proof fn lemma_rotl_none(v: u64)
    ensures
        rotl(v, 0) == v,
        rotl(v, 64) == v,
{
    assert(rotl(v, 0) == v) by (bit_vector);
    assert(rotl(v, 64) == v) by (bit_vector);
}

/// `v` rotated left by `n` bits.
fn rotate_left(v: u64, n: u32) -> (r: u64)
    requires
        0 < n < 64,
    ensures
        r == rotl(v, n),
{
    (v << n) | (v >> (64 - n))
}

/// Theta, in place.
fn theta_step(a: &mut State1600)
    ensures
        final(a)@ == theta(old(a)@),
{
    let ghost start = a@;
    let mut c: [u64; 5] = [0; 5];
    for x in 0..5usize
        invariant
            a@ == start,
            forall|j: int| 0 <= j < x ==> c@[j] == parity(start, j),
    {
        c[x] = a[x] ^ a[x + 5] ^ a[x + 10] ^ a[x + 15] ^ a[x + 20];
    }
    for i in 0..25usize
        invariant
            start.len() == 25,
            forall|j: int| 0 <= j < 5 ==> c@[j] == parity(start, j),
            forall|j: int| 0 <= j < i ==> a@[j] == theta(start)[j],
            forall|j: int| i <= j < 25 ==> a@[j] == start[j],
    {
        a[i] = a[i] ^ (c[(i % 5 + 4) % 5] ^ rotate_left(c[(i % 5 + 1) % 5], 1));
    }
    assert(a@ =~= theta(start));
}

/// Rho and pi together, in place: each lane is rotated and put where the next one was.
#[verifier::rlimit(40)]
fn rho_pi_step(a: &mut State1600)
    ensures
        final(a)@ == pi(rho(old(a)@)),
{
    let ghost start = a@;
    let mut last: u64 = a[1];
    for t in 0..24usize
        invariant
            start.len() == 25,
            last == start[if t == 0 { 1 } else { PI@[t - 1] as int }],
            a@[0] == start[0],
            forall|i: int| 0 < i < 25 && visit(i) < t ==> a@[i] == pi(rho(start))[i],
            forall|i: int| 0 < i < 25 && visit(i) >= t ==> a@[i] == start[i],
    {
        let lane: usize = PI[t];
        let next: u64 = a[lane];
        a[lane] = rotate_left(last, RHO[t]);
        last = next;
    }
    assert(rotl(start[0], 0) == start[0]) by {
        lemma_rotl_none(start[0]);
    }
    assert forall|i: int| 0 <= i < 25 implies a@[i] == pi(rho(start))[i] by {
        assert(0 < i ==> visit(i) < 24);
    }
    assert(a@ =~= pi(rho(start)));
}

/// Chi, in place.
fn chi_step(a: &mut State1600)
    ensures
        final(a)@ == chi(old(a)@),
{
    let ghost start = a@;
    for y in 0..5usize
        invariant
            start.len() == 25,
            forall|j: int| 0 <= j < 5 * y ==> a@[j] == chi(start)[j],
            forall|j: int| 5 * y <= j < 25 ==> a@[j] == start[j],
    {
        let row: [u64; 5] = [a[5 * y], a[5 * y + 1], a[5 * y + 2], a[5 * y + 3], a[5 * y + 4]];
        for x in 0..5usize
            invariant
                start.len() == 25,
                0 <= y < 5,
                forall|j: int| 0 <= j < 5 ==> row@[j] == start[5 * y + j],
                forall|j: int| 0 <= j < 5 * y + x ==> a@[j] == chi(start)[j],
                forall|j: int| 5 * y + x <= j < 25 ==> a@[j] == start[j],
        {
            a[5 * y + x] = row[x] ^ ((!row[(x + 1) % 5]) & row[(x + 2) % 5]);
        }
    }
    assert(a@ =~= chi(start));
}

/// Round `r`, in place.
fn round_step(a: &mut State1600, r: usize)
    requires
        r < 24,
    ensures
        final(a)@ == round(old(a)@, r as int),
{
    reveal(round);
    theta_step(a);
    rho_pi_step(a);
    chi_step(a);
    a[0] = a[0] ^ RC[r];
}

/// Applies Keccak-f[1600] to `a` in place.
pub fn keccak_f1600(a: &mut State1600)
    ensures
        final(a)@ == keccak_f(old(a)@),
{
    let ghost start = a@;
    for r in 0..24usize
        invariant
            a@ == rounds(start, r as nat),
    {
        round_step(a, r);
    }
}

} // verus!
