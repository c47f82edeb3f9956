//! Keccak-f[1600] is a permutation: its inverse, step by step, and the proof that each of the
//! two undoes the other.
use vstd::prelude::*;

use crate::permutation::{
    chi, in_row, iota, keccak_f, lemma_rotl_none, parities, parity, pi, pi_source, rho, rotl,
    round, rounds, theta, theta_effect, OFFSETS, RC,
};

verus! {

/// One linear mixing of five column parities: each takes up the parity `p` columns on, and the
/// one `q` columns on, rotated by `n`.
#[verifier::opaque]
pub open spec fn mix(c: Seq<u64>, p: int, q: int, n: u32) -> Seq<u64> {
    Seq::new(5, |x: int| c[x] ^ (c[(x + p) % 5] ^ rotl(c[(x + q) % 5], n)))
}

/// The column parities before theta, from those after it. Theta acts on the parities as
/// `mix(_, 4, 1, 1)`, whose 192nd power is the identity; this is its 191st power.
#[verifier::opaque]
pub open spec fn parities_inverse(c: Seq<u64>) -> Seq<u64> {
    mix(
        mix(mix(mix(mix(mix(mix(c, 4, 1, 1), 3, 2, 2), 1, 4, 4), 2, 3, 8), 4, 1, 16), 3, 2, 32),
        2,
        3,
        0,
    )
}

/// The inverse of theta.
pub open spec fn theta_inverse(b: Seq<u64>) -> Seq<u64> {
    Seq::new(25, |i: int| b[i] ^ theta_effect(parities_inverse(parities(b)), i % 5))
}

/// The inverse of rho.
pub open spec fn rho_inverse(b: Seq<u64>) -> Seq<u64> {
    Seq::new(25, |i: int| rotl(b[i], (64 - OFFSETS@[i]) as u32))
}

/// The index to which pi moves lane `i`: lane `(x, y)` goes to `(y, 2 * x + 3 * y)`.
pub open spec fn pi_target(i: int) -> int {
    i / 5 + 5 * ((2 * (i % 5) + 3 * (i / 5)) % 5)
}

/// The inverse of pi.
pub open spec fn pi_inverse(b: Seq<u64>) -> Seq<u64> {
    Seq::new(25, |i: int| b[pi_target(i)])
}

/// The inverse of chi.
pub open spec fn chi_inverse(b: Seq<u64>) -> Seq<u64> {
    Seq::new(
        25,
        |i: int|
            b[i] ^ (!b[in_row(i, 1)] & (b[in_row(i, 2)] ^ (!b[in_row(i, 3)] & b[in_row(i, 4)]))),
    )
}

/// The inverse of round `r`.
#[verifier::opaque]
pub open spec fn round_inverse(b: Seq<u64>, r: int) -> Seq<u64> {
    theta_inverse(rho_inverse(pi_inverse(chi_inverse(iota(b, r)))))
}

/// The inverse of the first `n` rounds.
pub open spec fn rounds_inverse(b: Seq<u64>, n: nat) -> Seq<u64>
    decreases n,
{
    if n == 0 {
        b
    } else {
        rounds_inverse(round_inverse(b, n - 1), (n - 1) as nat)
    }
}

/// The inverse of Keccak-f[1600].
pub open spec fn keccak_f_inverse(b: Seq<u64>) -> Seq<u64> {
    rounds_inverse(b, 24)
}

// ---- words ----

/// Rotation distributes over exclusive or.
#[verifier::rlimit(60)]
proof fn lemma_rotl_xor(a: u64, b: u64, n: u32)
    requires
        n <= 64,
    ensures
        rotl(a ^ b, n) == rotl(a, n) ^ rotl(b, n),
{
    assert(rotl(a ^ b, n) == rotl(a, n) ^ rotl(b, n)) by (bit_vector)
        requires
            n <= 64,
    ;
}

/// Rotating twice by `n` is rotating by `2 * n`.
proof fn lemma_rotl_twice(v: u64, n: u32)
    requires
        n <= 32,
    ensures
        rotl(rotl(v, n), n) == rotl(v, (2 * n) as u32),
{
    assert(rotl(rotl(v, n), n) == rotl(v, (2 * n) as u32)) by (bit_vector)
        requires
            n <= 32,
    ;
}

/// Rotating on to a whole turn gives back the word.
#[verifier::rlimit(60)]
proof fn lemma_rotl_back(v: u64, n: u32)
    requires
        n < 64,
    ensures
        rotl(rotl(v, n), (64 - n) as u32) == v,
        rotl(rotl(v, (64 - n) as u32), n) == v,
{
    assert(rotl(rotl(v, n), (64 - n) as u32) == v) by (bit_vector)
        requires
            n < 64,
    ;
    assert(rotl(rotl(v, (64 - n) as u32), n) == v) by (bit_vector)
        requires
            n < 64,
    ;
}

proof fn lemma_xor_cancels(a: u64, b: u64)
    ensures
        (a ^ b) ^ b == a,
{
    assert((a ^ b) ^ b == a) by (bit_vector);
}

// ---- theta ----

/// One lane of a mixing done twice.
proof fn lemma_mix_lane(v: u64, vp: u64, v2p: u64, vq: u64, vpq: u64, v2q: u64, n: u32)
    requires
        n <= 32,
    ensures
        (v ^ (vp ^ rotl(vq, n))) ^ ((vp ^ (v2p ^ rotl(vpq, n))) ^ rotl(
            vq ^ (vpq ^ rotl(v2q, n)),
            n,
        )) == v ^ (v2p ^ rotl(v2q, (2 * n) as u32)),
{
    lemma_rotl_xor(vq, vpq ^ rotl(v2q, n), n);
    lemma_rotl_xor(vpq, rotl(v2q, n), n);
    lemma_rotl_twice(v2q, n);
    let rq = rotl(vq, n);
    let rpq = rotl(vpq, n);
    let r2q = rotl(v2q, (2 * n) as u32);
    assert((v ^ (vp ^ rq)) ^ ((vp ^ (v2p ^ rpq)) ^ (rq ^ (rpq ^ r2q))) == v ^ (v2p ^ r2q))
        by (bit_vector);
}

broadcast proof fn lemma_mix_len(c: Seq<u64>, p: int, q: int, n: u32)
    ensures
        #[trigger] mix(c, p, q, n).len() == 5,
{
    reveal(mix);
}

proof fn lemma_mix_twice_at(c: Seq<u64>, p: int, q: int, n: u32, x: int)
    requires
        0 <= x < 5,
        1 <= p < 5,
        1 <= q < 5,
        n <= 32,
    ensures
        mix(mix(c, p, q, n), p, q, n)[x] == mix(c, (2 * p) % 5, (2 * q) % 5, (2 * n) as u32)[x],
{
    let m = mix(c, p, q, n);
    let xp = (x + p) % 5;
    let xq = (x + q) % 5;
    assert((xp + p) % 5 == (x + (2 * p) % 5) % 5);
    assert((xq + q) % 5 == (x + (2 * q) % 5) % 5);
    assert((xq + p) % 5 == (xp + q) % 5);
    lemma_mix_at(m, p, q, n, x);
    lemma_mix_at(c, p, q, n, x);
    lemma_mix_at(c, p, q, n, xp);
    lemma_mix_at(c, p, q, n, xq);
    lemma_mix_at(c, (2 * p) % 5, (2 * q) % 5, (2 * n) as u32, x);
    lemma_mix_lane(c[x], c[xp], c[(xp + p) % 5], c[xq], c[(xp + q) % 5], c[(xq + q) % 5], n);
}

/// Squaring a mixing doubles its shifts and its rotation.
proof fn lemma_mix_twice(c: Seq<u64>, p: int, q: int, n: u32)
    requires
        c.len() == 5,
        1 <= p < 5,
        1 <= q < 5,
        n <= 32,
    ensures
        mix(mix(c, p, q, n), p, q, n) == mix(c, (2 * p) % 5, (2 * q) % 5, (2 * n) as u32),
{
    broadcast use lemma_mix_len;

    let left = mix(mix(c, p, q, n), p, q, n);
    let right = mix(c, (2 * p) % 5, (2 * q) % 5, (2 * n) as u32);
    assert forall|x: int| 0 <= x < 5 implies left[x] == right[x] by {
        lemma_mix_twice_at(c, p, q, n, x);
    }
    assert(left =~= right);
}

/// A rotation by a whole turn is none.
proof fn lemma_mix_whole_turn(c: Seq<u64>, p: int, q: int)
    requires
        c.len() == 5,
    ensures
        mix(c, p, q, 64) == mix(c, p, q, 0),
{
    broadcast use lemma_mix_len;

    assert forall|x: int| 0 <= x < 5 implies mix(c, p, q, 64)[x] == mix(c, p, q, 0)[x] by {
        lemma_mix_at(c, p, q, 64, x);
        lemma_mix_at(c, p, q, 0, x);
        lemma_rotl_none(c[(x + q) % 5]);
    }
    assert(mix(c, p, q, 64) =~= mix(c, p, q, 0));
}

proof fn lemma_mix_at(c: Seq<u64>, p: int, q: int, n: u32, x: int)
    requires
        0 <= x < 5,
    ensures
        mix(c, p, q, n)[x] == c[x] ^ (c[(x + p) % 5] ^ rotl(c[(x + q) % 5], n)),
{
    reveal(mix);
}

proof fn lemma_mix_unrotated_at(c: Seq<u64>, p: int, q: int, x: int)
    requires
        0 <= x < 5,
    ensures
        mix(c, p, q, 0)[x] == c[x] ^ (c[(x + p) % 5] ^ c[(x + q) % 5]),
{
    lemma_mix_at(c, p, q, 0, x);
    lemma_rotl_none(c[(x + q) % 5]);
}

proof fn lemma_mix_cancels_at(c: Seq<u64>, x: int)
    requires
        0 <= x < 5,
    ensures
        mix(mix(c, 1, 4, 0), 2, 3, 0)[x] == c[x],
        mix(mix(c, 2, 3, 0), 1, 4, 0)[x] == c[x],
{
    let m = mix(c, 1, 4, 0);
    let w = mix(c, 2, 3, 0);
    let x1 = (x + 1) % 5;
    let x2 = (x + 2) % 5;
    let x3 = (x + 3) % 5;
    let x4 = (x + 4) % 5;
    lemma_mix_unrotated_at(m, 2, 3, x);
    lemma_mix_unrotated_at(c, 1, 4, x);
    lemma_mix_unrotated_at(c, 1, 4, x2);
    lemma_mix_unrotated_at(c, 1, 4, x3);
    assert(m[x2] == c[x2] ^ (c[x3] ^ c[x1]));
    assert(m[x3] == c[x3] ^ (c[x4] ^ c[x2]));
    lemma_mix_unrotated_at(w, 1, 4, x);
    lemma_mix_unrotated_at(c, 2, 3, x);
    lemma_mix_unrotated_at(c, 2, 3, x1);
    lemma_mix_unrotated_at(c, 2, 3, x4);
    assert(w[x1] == c[x1] ^ (c[x3] ^ c[x4]));
    assert(w[x4] == c[x4] ^ (c[x1] ^ c[x2]));
    lemma_cancel_lane(c[x], c[x1], c[x2], c[x3], c[x4]);
}

/// The 64th and the 128th power of the mixing cancel.
proof fn lemma_mix_cancels(c: Seq<u64>)
    requires
        c.len() == 5,
    ensures
        mix(mix(c, 1, 4, 0), 2, 3, 0) == c,
        mix(mix(c, 2, 3, 0), 1, 4, 0) == c,
{
    broadcast use lemma_mix_len;

    let left = mix(mix(c, 1, 4, 0), 2, 3, 0);
    let right = mix(mix(c, 2, 3, 0), 1, 4, 0);
    assert forall|x: int| 0 <= x < 5 implies left[x] == c[x] && right[x] == c[x] by {
        lemma_mix_cancels_at(c, x);
    }
    assert(left =~= c);
    assert(right =~= c);
}

/// One lane of the two mixings that cancel.
proof fn lemma_cancel_lane(a: u64, b: u64, c: u64, d: u64, e: u64)
    ensures
        (a ^ (b ^ e)) ^ ((c ^ (d ^ b)) ^ (d ^ (e ^ c))) == a,
        (a ^ (c ^ d)) ^ ((b ^ (d ^ e)) ^ (e ^ (b ^ c))) == a,
{
    assert((a ^ (b ^ e)) ^ ((c ^ (d ^ b)) ^ (d ^ (e ^ c))) == a) by (bit_vector);
    assert((a ^ (c ^ d)) ^ ((b ^ (d ^ e)) ^ (e ^ (b ^ c))) == a) by (bit_vector);
}

/// The inverse on the parities undoes the mixing.
proof fn lemma_parities_inverse_left(c: Seq<u64>)
    requires
        c.len() == 5,
    ensures
        parities_inverse(mix(c, 4, 1, 1)) == c,
{
    reveal(parities_inverse);
    lemma_mix_twice(c, 4, 1, 1);
    lemma_mix_twice(c, 3, 2, 2);
    lemma_mix_twice(c, 1, 4, 4);
    lemma_mix_twice(c, 2, 3, 8);
    lemma_mix_twice(c, 4, 1, 16);
    lemma_mix_twice(c, 3, 2, 32);
    lemma_mix_whole_turn(c, 1, 4);
    lemma_mix_cancels(c);
}

proof fn lemma_parities_inverse_len(c: Seq<u64>)
    ensures
        parities_inverse(c).len() == 5,
{
    reveal(parities_inverse);
    broadcast use lemma_mix_len;

}

/// The mixing undoes the inverse on the parities.
proof fn lemma_parities_inverse_right(c: Seq<u64>)
    requires
        c.len() == 5,
    ensures
        mix(parities_inverse(c), 4, 1, 1) == c,
{
    broadcast use lemma_mix_len;

    // A right inverse, made of the same powers in the opposite order. It equals the left
    // inverse, because there is one on each side.
    let c128 = mix(c, 2, 3, 0);
    let c32 = mix(c128, 3, 2, 32);
    let c16 = mix(c32, 4, 1, 16);
    let c8 = mix(c16, 2, 3, 8);
    let c4 = mix(c8, 1, 4, 4);
    let c2 = mix(c4, 3, 2, 2);
    let u = mix(c2, 4, 1, 1);
    assert(mix(u, 4, 1, 1) == c) by {
        lemma_mix_twice(c2, 4, 1, 1);
        lemma_mix_twice(c4, 3, 2, 2);
        lemma_mix_twice(c8, 1, 4, 4);
        lemma_mix_twice(c16, 2, 3, 8);
        lemma_mix_twice(c32, 4, 1, 16);
        lemma_mix_twice(c128, 3, 2, 32);
        lemma_mix_whole_turn(c128, 1, 4);
        lemma_mix_cancels(c);
    }
    lemma_parities_inverse_left(u);
}

/// Adding one word to each of the five lanes of a column adds it to the column's parity.
proof fn lemma_parity_shifts(a: Seq<u64>, b: Seq<u64>, x: int, d: u64)
    requires
        a.len() == 25,
        b.len() == 25,
        0 <= x < 5,
        forall|i: int| 0 <= i < 25 && i % 5 == x ==> b[i] == a[i] ^ d,
    ensures
        parity(b, x) == parity(a, x) ^ d,
{
    let a0 = a[x];
    let a1 = a[x + 5];
    let a2 = a[x + 10];
    let a3 = a[x + 15];
    let a4 = a[x + 20];
    assert((a0 ^ d) ^ (a1 ^ d) ^ (a2 ^ d) ^ (a3 ^ d) ^ (a4 ^ d) == (a0 ^ a1 ^ a2 ^ a3 ^ a4) ^ d)
        by (bit_vector);
}

/// Theta mixes the column parities.
proof fn lemma_theta_parities(a: Seq<u64>)
    requires
        a.len() == 25,
    ensures
        parities(theta(a)) == mix(parities(a), 4, 1, 1),
{
    broadcast use lemma_mix_len;

    let c = parities(a);
    assert forall|x: int| 0 <= x < 5 implies parities(theta(a))[x] == mix(c, 4, 1, 1)[x] by {
        lemma_parity_shifts(a, theta(a), x, theta_effect(c, x));
        lemma_mix_at(c, 4, 1, 1, x);
    }
    assert(parities(theta(a)) =~= mix(c, 4, 1, 1));
}

/// Two states that differ, column by column, by the effect of `c`.
spec fn apart_by_effect(a: Seq<u64>, b: Seq<u64>, c: Seq<u64>) -> bool {
    &&& a.len() == 25
    &&& b.len() == 25
    &&& forall|i: int| 0 <= i < 25 ==> #[trigger] b[i] == a[i] ^ theta_effect(c, i % 5)
}

/// Adding the same effect twice changes nothing.
proof fn lemma_effect_cancels(a: Seq<u64>, b: Seq<u64>, d: Seq<u64>, c: Seq<u64>)
    requires
        apart_by_effect(a, b, c),
        apart_by_effect(b, d, c),
    ensures
        d == a,
{
    assert forall|i: int| 0 <= i < 25 implies d[i] == a[i] by {
        let e = theta_effect(c, i % 5);
        assert(b[i] == a[i] ^ e);
        assert(d[i] == b[i] ^ e);
        lemma_xor_cancels(a[i], e);
    }
    assert(d =~= a);
}

/// The inverse of theta undoes it.
proof fn lemma_theta_left(a: Seq<u64>)
    requires
        a.len() == 25,
    ensures
        theta_inverse(theta(a)) == a,
{
    lemma_theta_parities(a);
    lemma_parities_inverse_left(parities(a));
    lemma_effect_cancels(a, theta(a), theta_inverse(theta(a)), parities(a));
}

/// The parities of the inverse of theta.
proof fn lemma_theta_inverse_parities(b: Seq<u64>)
    requires
        b.len() == 25,
    ensures
        parities(theta_inverse(b)) == parities_inverse(parities(b)),
{
    let c = parities(b);
    let u = parities_inverse(c);
    lemma_parities_inverse_len(c);
    lemma_parities_inverse_right(c);
    assert forall|x: int| 0 <= x < 5 implies parities(theta_inverse(b))[x] == u[x] by {
        let d = theta_effect(u, x);
        lemma_parity_shifts(b, theta_inverse(b), x, d);
        lemma_mix_at(u, 4, 1, 1, x);
        assert(c[x] == u[x] ^ d);
        lemma_xor_cancels(u[x], d);
    }
    assert(parities(theta_inverse(b)) =~= u);
}

/// Theta undoes its inverse.
proof fn lemma_theta_right(b: Seq<u64>)
    requires
        b.len() == 25,
    ensures
        theta(theta_inverse(b)) == b,
{
    lemma_theta_inverse_parities(b);
    lemma_effect_cancels(
        b,
        theta_inverse(b),
        theta(theta_inverse(b)),
        parities_inverse(parities(b)),
    );
}

// ---- rho and pi ----

proof fn lemma_rho_inverse(a: Seq<u64>)
    requires
        a.len() == 25,
    ensures
        rho_inverse(rho(a)) == a,
        rho(rho_inverse(a)) == a,
{
    assert forall|i: int| 0 <= i < 25 implies rho_inverse(rho(a))[i] == a[i] && rho(
        rho_inverse(a),
    )[i] == a[i] by {
        assert(OFFSETS@[i] < 64);
        lemma_rotl_back(a[i], OFFSETS@[i]);
    }
    assert(rho_inverse(rho(a)) =~= a);
    assert(rho(rho_inverse(a)) =~= a);
}

proof fn lemma_pi_inverse(a: Seq<u64>)
    requires
        a.len() == 25,
    ensures
        pi_inverse(pi(a)) == a,
        pi(pi_inverse(a)) == a,
{
    assert forall|i: int| 0 <= i < 25 implies 0 <= pi_source(i) < 25 && pi_target(pi_source(i))
        == i && 0 <= pi_target(i) < 25 && pi_source(pi_target(i)) == i by {}
    assert(pi_inverse(pi(a)) =~= a);
    assert(pi(pi_inverse(a)) =~= a);
}

// ---- chi ----

/// One lane of chi and its inverse, in either order.
proof fn lemma_chi_lane(a: u64, b: u64, c: u64, d: u64, e: u64)
    ensures
        (a ^ (!b & c)) ^ (!(b ^ (!c & d)) & ((c ^ (!d & e)) ^ (!(d ^ (!e & a)) & (e ^ (!a & b)))))
            == a,
        (a ^ (!b & (c ^ (!d & e)))) ^ (!(b ^ (!c & (d ^ (!e & a)))) & (c ^ (!d & (e ^ (!a & b)))))
            == a,
{
    assert((a ^ (!b & c)) ^ (!(b ^ (!c & d)) & ((c ^ (!d & e)) ^ (!(d ^ (!e & a)) & (e ^ (!a
        & b))))) == a) by (bit_vector);
    assert((a ^ (!b & (c ^ (!d & e)))) ^ (!(b ^ (!c & (d ^ (!e & a)))) & (c ^ (!d & (e ^ (!a
        & b))))) == a) by (bit_vector);
}

/// Places in a row add up, and come round after five.
proof fn lemma_in_row(i: int, x: int, y: int)
    requires
        0 <= i < 25,
        0 <= x < 5,
        0 <= y < 5,
    ensures
        0 <= in_row(i, x) < 25,
        in_row(in_row(i, x), y) == in_row(i, x + y),
        in_row(i, x + 5) == in_row(i, x),
        in_row(i, 0) == i,
{
}

/// Chi and its inverse at a place in the row of `i`.
#[verifier::rlimit(60)]
proof fn lemma_chi_at(a: Seq<u64>, i: int, x: int)
    requires
        0 <= i < 25,
        0 <= x < 5,
    ensures
        chi(a)[in_row(i, x)] == a[in_row(i, x)] ^ (!a[in_row(i, x + 1)] & a[in_row(i, x + 2)]),
        chi_inverse(a)[in_row(i, x)] == a[in_row(i, x)] ^ (!a[in_row(i, x + 1)] & (a[in_row(
            i,
            x + 2,
        )] ^ (!a[in_row(i, x + 3)] & a[in_row(i, x + 4)]))),
{
    lemma_in_row(i, x, 1);
    lemma_in_row(i, x, 2);
    lemma_in_row(i, x, 3);
    lemma_in_row(i, x, 4);
}

proof fn lemma_chi_inverse_at(a: Seq<u64>, i: int)
    requires
        0 <= i < 25,
    ensures
        chi_inverse(chi(a))[i] == a[i],
        chi(chi_inverse(a))[i] == a[i],
{
    lemma_in_row(i, 0, 0);
    lemma_in_row(i, 1, 0);
    lemma_in_row(i, 2, 0);
    lemma_in_row(i, 3, 0);
    lemma_chi_at(chi(a), i, 0);
    lemma_chi_at(chi_inverse(a), i, 0);
    lemma_chi_at(a, i, 0);
    lemma_chi_at(a, i, 1);
    lemma_chi_at(a, i, 2);
    lemma_chi_at(a, i, 3);
    lemma_chi_at(a, i, 4);
    lemma_chi_lane(a[i], a[in_row(i, 1)], a[in_row(i, 2)], a[in_row(i, 3)], a[in_row(i, 4)]);
}

proof fn lemma_chi_inverse(a: Seq<u64>)
    requires
        a.len() == 25,
    ensures
        chi_inverse(chi(a)) == a,
        chi(chi_inverse(a)) == a,
{
    assert forall|i: int| 0 <= i < 25 implies chi_inverse(chi(a))[i] == a[i] && chi(
        chi_inverse(a),
    )[i] == a[i] by {
        lemma_chi_inverse_at(a, i);
    }
    assert(chi_inverse(chi(a)) =~= a);
    assert(chi(chi_inverse(a)) =~= a);
}

// ---- rounds ----

proof fn lemma_iota_inverse(a: Seq<u64>, r: int)
    requires
        a.len() == 25,
    ensures
        iota(iota(a, r), r) == a,
{
    lemma_xor_cancels(a[0], RC@[r]);
    assert(iota(iota(a, r), r) =~= a);
}

proof fn lemma_round_inverse(a: Seq<u64>, r: int)
    requires
        a.len() == 25,
    ensures
        round(a, r).len() == 25,
        round_inverse(a, r).len() == 25,
        round_inverse(round(a, r), r) == a,
        round(round_inverse(a, r), r) == a,
{
    reveal(round);
    reveal(round_inverse);
    lemma_iota_inverse(chi(pi(rho(theta(a)))), r);
    lemma_chi_inverse(pi(rho(theta(a))));
    lemma_pi_inverse(rho(theta(a)));
    lemma_rho_inverse(theta(a));
    lemma_theta_left(a);
    let b4 = iota(a, r);
    let b3 = chi_inverse(b4);
    let b2 = pi_inverse(b3);
    let b1 = rho_inverse(b2);
    lemma_theta_right(b1);
    lemma_rho_inverse(b2);
    lemma_pi_inverse(b3);
    lemma_chi_inverse(b4);
    lemma_iota_inverse(a, r);
}

proof fn lemma_rounds_left(a: Seq<u64>, n: nat)
    requires
        a.len() == 25,
    ensures
        rounds(a, n).len() == 25,
        rounds_inverse(rounds(a, n), n) == a,
    decreases n,
{
    if n > 0 {
        lemma_rounds_left(a, (n - 1) as nat);
        lemma_round_inverse(rounds(a, (n - 1) as nat), n - 1);
    }
}

proof fn lemma_rounds_right(b: Seq<u64>, n: nat)
    requires
        b.len() == 25,
    ensures
        rounds_inverse(b, n).len() == 25,
        rounds(rounds_inverse(b, n), n) == b,
    decreases n,
{
    if n > 0 {
        lemma_round_inverse(b, n - 1);
        lemma_rounds_right(round_inverse(b, n - 1), (n - 1) as nat);
    }
}

/// Keccak-f[1600] maps states to states, and its inverse undoes it.
pub proof fn law_inverse_undoes_keccak_f(a: Seq<u64>)
    requires
        a.len() == 25,
    ensures
        keccak_f(a).len() == 25,
        keccak_f_inverse(keccak_f(a)) == a,
{
    lemma_rounds_left(a, 24);
}

/// Keccak-f[1600] undoes its inverse, so every state is the image of a state.
pub proof fn law_keccak_f_undoes_inverse(b: Seq<u64>)
    requires
        b.len() == 25,
    ensures
        keccak_f_inverse(b).len() == 25,
        keccak_f(keccak_f_inverse(b)) == b,
{
    lemma_rounds_right(b, 24);
}

/// Keccak-f[1600] takes distinct states to distinct states.
pub proof fn law_keccak_f_injective(a: Seq<u64>, b: Seq<u64>)
    requires
        a.len() == 25,
        b.len() == 25,
        keccak_f(a) == keccak_f(b),
    ensures
        a == b,
{
    law_inverse_undoes_keccak_f(a);
    law_inverse_undoes_keccak_f(b);
}

} // verus!
