//! What the sponge's executable steps do to its state, byte by byte and block by block.
use vstd::arithmetic::div_mod::{lemma_fundamental_div_mod, lemma_fundamental_div_mod_converse};
use vstd::prelude::*;

use crate::inverse::law_inverse_undoes_keccak_f;
use crate::permutation::keccak_f;
use crate::sponge::{
    absorb_blocks, absorbed, block_lane, byte_or_zero, lane_from_bytes, output_byte, output_state,
    padded, padding, state_byte, tail, xor_block, zero_state,
};

verus! {

// ---- one byte ----

/// Adding `b` to one byte of a lane adds it, shifted to its place, to the lane.
proof fn lemma_add_byte(
    b0: u8,
    b1: u8,
    b2: u8,
    b3: u8,
    b4: u8,
    b5: u8,
    b6: u8,
    b7: u8,
    b: u8,
)
    ensures
        ({
            let v = lane_from_bytes(b0, b1, b2, b3, b4, b5, b6, b7);
            let w = b as u64;
            &&& lane_from_bytes(b0 ^ b, b1, b2, b3, b4, b5, b6, b7) == v ^ (w << 0u64)
            &&& lane_from_bytes(b0, b1 ^ b, b2, b3, b4, b5, b6, b7) == v ^ (w << 8u64)
            &&& lane_from_bytes(b0, b1, b2 ^ b, b3, b4, b5, b6, b7) == v ^ (w << 16u64)
            &&& lane_from_bytes(b0, b1, b2, b3 ^ b, b4, b5, b6, b7) == v ^ (w << 24u64)
            &&& lane_from_bytes(b0, b1, b2, b3, b4 ^ b, b5, b6, b7) == v ^ (w << 32u64)
            &&& lane_from_bytes(b0, b1, b2, b3, b4, b5 ^ b, b6, b7) == v ^ (w << 40u64)
            &&& lane_from_bytes(b0, b1, b2, b3, b4, b5, b6 ^ b, b7) == v ^ (w << 48u64)
            &&& lane_from_bytes(b0, b1, b2, b3, b4, b5, b6, b7 ^ b) == v ^ (w << 56u64)
        }),
{
    let v = lane_from_bytes(b0, b1, b2, b3, b4, b5, b6, b7);
    let w = b as u64;
    assert({
        &&& lane_from_bytes(b0 ^ b, b1, b2, b3, b4, b5, b6, b7) == v ^ (w << 0u64)
        &&& lane_from_bytes(b0, b1 ^ b, b2, b3, b4, b5, b6, b7) == v ^ (w << 8u64)
        &&& lane_from_bytes(b0, b1, b2 ^ b, b3, b4, b5, b6, b7) == v ^ (w << 16u64)
        &&& lane_from_bytes(b0, b1, b2, b3 ^ b, b4, b5, b6, b7) == v ^ (w << 24u64)
        &&& lane_from_bytes(b0, b1, b2, b3, b4 ^ b, b5, b6, b7) == v ^ (w << 32u64)
        &&& lane_from_bytes(b0, b1, b2, b3, b4, b5 ^ b, b6, b7) == v ^ (w << 40u64)
        &&& lane_from_bytes(b0, b1, b2, b3, b4, b5, b6 ^ b, b7) == v ^ (w << 48u64)
        &&& lane_from_bytes(b0, b1, b2, b3, b4, b5, b6, b7 ^ b) == v ^ (w << 56u64)
    }) by (bit_vector)
        requires
            v == lane_from_bytes(b0, b1, b2, b3, b4, b5, b6, b7),
            w == b as u64,
    ;
}

/// Where two blocks differ in byte `p` alone, and there by `b`, the lane of `p` differs by `b`
/// shifted to its place.
pub proof fn lemma_xor_byte(a: Seq<u64>, block: Seq<u8>, other: Seq<u8>, p: int, b: u8)
    requires
        a.len() == 25,
        0 <= p < 200,
        byte_or_zero(other, p) == byte_or_zero(block, p) ^ b,
        forall|i: int| i != p ==> byte_or_zero(other, i) == byte_or_zero(block, i),
    ensures
        xor_block(a, other) == xor_block(a, block).update(
            p / 8,
            xor_block(a, block)[p / 8] ^ ((b as u64) << ((8 * (p % 8)) as u64)),
        ),
{
    let k = p / 8;
    let w = (b as u64) << ((8 * (p % 8)) as u64);
    assert(block_lane(other, k) == block_lane(block, k) ^ w) by {
        lemma_add_byte(
            byte_or_zero(block, 8 * k),
            byte_or_zero(block, 8 * k + 1),
            byte_or_zero(block, 8 * k + 2),
            byte_or_zero(block, 8 * k + 3),
            byte_or_zero(block, 8 * k + 4),
            byte_or_zero(block, 8 * k + 5),
            byte_or_zero(block, 8 * k + 6),
            byte_or_zero(block, 8 * k + 7),
            b,
        );
        assert(p == 8 * k + p % 8);
    }
    let v = a[k];
    let l = block_lane(block, k);
    assert(v ^ (l ^ w) == (v ^ l) ^ w) by (bit_vector);
    assert forall|j: int| 0 <= j < 25 && j != k implies block_lane(other, j) == block_lane(
        block,
        j,
    ) by {}
    assert(xor_block(a, other) =~= xor_block(a, block).update(k, (v ^ l) ^ w));
}

/// Adding a block that is one byte longer.
pub proof fn lemma_xor_push(a: Seq<u64>, block: Seq<u8>, b: u8)
    requires
        a.len() == 25,
        block.len() < 200,
    ensures
        xor_block(a, block.push(b)) == xor_block(a, block).update(
            block.len() as int / 8,
            xor_block(a, block)[block.len() as int / 8] ^ ((b as u64) << ((8 * (block.len() as int
                % 8)) as u64)),
        ),
{
    assert(0u8 ^ b == b) by (bit_vector);
    lemma_xor_byte(a, block, block.push(b), block.len() as int, b);
}

/// Adding nothing.
pub proof fn lemma_xor_empty(a: Seq<u64>)
    requires
        a.len() == 25,
    ensures
        xor_block(a, Seq::empty()) == a,
{
    assert forall|k: int| 0 <= k < 25 implies xor_block(a, Seq::empty())[k] == a[k] by {
        let v = a[k];
        assert(v ^ lane_from_bytes(0, 0, 0, 0, 0, 0, 0, 0) == v) by (bit_vector);
    }
    assert(xor_block(a, Seq::empty()) =~= a);
}

// ---- blocks ----

/// Every state has 25 lanes.
pub proof fn lemma_absorb_blocks_len(rate: nat, data: Seq<u8>, n: nat)
    ensures
        absorb_blocks(rate, data, n).len() == 25,
    decreases n,
{
    if n > 0 {
        lemma_absorb_blocks_len(rate, data, (n - 1) as nat);
        law_inverse_undoes_keccak_f(
            xor_block(
                absorb_blocks(rate, data, (n - 1) as nat),
                data.subrange((n - 1) * rate, (n * rate) as int),
            ),
        );
    }
}

/// The state after `n` blocks depends on those blocks alone.
pub proof fn lemma_absorb_blocks_prefix(rate: nat, data: Seq<u8>, more: Seq<u8>, n: nat)
    requires
        n * rate <= data.len(),
    ensures
        absorb_blocks(rate, data + more, n) == absorb_blocks(rate, data, n),
    decreases n,
{
    if n > 0 {
        assert((n - 1) * rate == n * rate - rate) by (nonlinear_arith);
        assert((n - 1) * rate >= 0) by (nonlinear_arith)
            requires
                n > 0,
        ;
        lemma_absorb_blocks_prefix(rate, data, more, (n - 1) as nat);
        assert((data + more).subrange((n - 1) * rate, (n * rate) as int) =~= data.subrange(
            (n - 1) * rate,
            (n * rate) as int,
        ));
    }
}

/// The parts of a message.
pub proof fn lemma_tail(rate: nat, message: Seq<u8>)
    requires
        rate > 0,
    ensures
        (message.len() / rate) * rate + message.len() % rate == message.len(),
        tail(rate, message).len() == message.len() % rate,
{
    lemma_fundamental_div_mod(message.len() as int, rate as int);
    assert(rate * (message.len() / rate) == (message.len() / rate) * rate) by (nonlinear_arith);
}

/// Absorbing a chunk that fits into the current block.
pub proof fn lemma_absorb_chunk(rate: nat, message: Seq<u8>, chunk: Seq<u8>)
    requires
        rate > 0,
        message.len() % rate + chunk.len() <= rate,
    ensures
        ({
            let n = message.len() / rate;
            let filled = xor_block(
                absorb_blocks(rate, message, n),
                tail(rate, message) + chunk,
            );
            if message.len() % rate + chunk.len() == rate {
                &&& absorbed(rate, message + chunk) == keccak_f(filled)
                &&& (message + chunk).len() % rate == 0
                &&& (message + chunk).len() / rate == n + 1
                &&& absorb_blocks(rate, message + chunk, n + 1) == keccak_f(filled)
            } else {
                &&& absorbed(rate, message + chunk) == filled
                &&& (message + chunk).len() % rate == message.len() % rate + chunk.len()
            }
        }),
{
    let n = message.len() / rate;
    let all = message + chunk;
    lemma_tail(rate, message);
    lemma_absorb_blocks_prefix(rate, message, chunk, n);
    if message.len() % rate + chunk.len() == rate {
        assert((n + 1) * rate == n * rate + rate) by (nonlinear_arith);
        lemma_fundamental_div_mod_converse(all.len() as int, rate as int, (n + 1) as int, 0);
        assert(all.subrange((n * rate) as int, ((n + 1) * rate) as int) =~= tail(rate, message)
            + chunk);
        assert(tail(rate, all) =~= Seq::<u8>::empty());
        lemma_absorb_blocks_len(rate, all, n + 1);
        lemma_xor_empty(absorb_blocks(rate, all, n + 1));
    } else {
        lemma_fundamental_div_mod_converse(
            all.len() as int,
            rate as int,
            n as int,
            (message.len() % rate + chunk.len()) as int,
        );
        assert(tail(rate, all) =~= tail(rate, message) + chunk);
    }
}

/// Nothing absorbed.
pub proof fn lemma_absorbed_nothing(rate: nat)
    requires
        rate > 0,
    ensures
        absorbed(rate, Seq::empty()) == zero_state(),
        Seq::<u8>::empty().len() % rate == 0,
{
    let m = Seq::<u8>::empty();
    lemma_tail(rate, m);
    assert(0nat / rate == 0) by (nonlinear_arith)
        requires
            rate > 0,
    ;
    assert(tail(rate, m) =~= m);
    lemma_xor_empty(zero_state());
}

// ---- closing and reading ----

/// A state with `b` added to its byte `p`.
pub open spec fn xor_at(a: Seq<u64>, p: int, b: u8) -> Seq<u64> {
    a.update(p / 8, a[p / 8] ^ ((b as u64) << ((8 * (p % 8)) as u64)))
}

/// Adding the two marks of the padding in place and permuting closes the message.
pub proof fn lemma_close(rate: nat, message: Seq<u8>)
    requires
        0 < rate <= 200,
    ensures
        output_state(rate, message, 0) == keccak_f(
            xor_at(
                xor_at(absorbed(rate, message), (message.len() % rate) as int, 0x1F),
                rate - 1,
                0x80,
            ),
        ),
{
    let n = message.len() / rate;
    let p = (message.len() % rate) as int;
    let base = absorb_blocks(rate, message, n);
    let t = tail(rate, message);
    let pad = padding(rate, message.len());
    let full = t + pad;
    lemma_tail(rate, message);
    lemma_absorb_blocks_len(rate, message, n);
    lemma_absorb_chunk(rate, message, pad);
    assert(0u8 ^ 0x1Fu8 == 0x1F && 0x1Fu8 ^ 0u8 == 0x1F && 0u8 ^ 0u8 == 0) by (bit_vector);
    let half = Seq::new(
        rate,
        |i: int|
            if i < p {
                t[i]
            } else if i == p {
                0x1Fu8
            } else {
                0u8
            },
    );
    lemma_xor_byte(base, t, half, p, 0x1F);
    lemma_xor_byte(base, half, full, rate - 1, 0x80);
}

/// Byte `p` of output block `k`.
pub proof fn lemma_output_byte(rate: nat, message: Seq<u8>, k: nat, p: nat)
    requires
        p < rate,
    ensures
        output_byte(rate, message, k * rate + p) == state_byte(
            output_state(rate, message, k),
            p as int,
        ),
{
    lemma_fundamental_div_mod_converse((k * rate + p) as int, rate as int, k as int, p as int);
}

} // verus!
