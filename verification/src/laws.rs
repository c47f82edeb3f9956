//! Laws of the sponge: what holds between several operations, what a sponge holds, and how bytes
//! go into the state and come out of it.
use vstd::arithmetic::div_mod::{
    lemma_fundamental_div_mod, lemma_fundamental_div_mod_converse, lemma_mod_bound,
};
use vstd::prelude::*;

use crate::inverse::law_keccak_f_injective;
use crate::permutation::keccak_f;
use crate::sponge::{
    absorb_blocks, absorbed, block_lane, byte_or_zero, lane_from_bytes, output_byte, output_state,
    padded, padding, state_byte, tail, valid_rate, xof, xor_block, zero_state, Sponge,
};
use crate::sponge_lemmas::{lemma_absorb_blocks_prefix, lemma_output_byte};

verus! {

/// Two inputs absorbed one after the other are absorbed as their concatenation.
pub proof fn law_absorb_split(s: Sponge, x: Seq<u8>, y: Seq<u8>)
    ensures
        s.absorb(x).absorb(y) == s.absorb(x + y),
{
    assert(s.message + x + y =~= s.message + (x + y));
}

/// Absorbing nothing changes nothing.
pub proof fn law_absorb_nothing(s: Sponge)
    ensures
        s.absorb(Seq::empty()) == s,
{
    assert(s.message + Seq::<u8>::empty() =~= s.message);
}

/// Two reads one after the other give, together, what one read of their total length gives, and
/// leave the sponge as that read does.
pub proof fn law_squeeze_split(s: Sponge, n: nat, m: nat)
    ensures
        s.output(n) + s.squeeze(n).output(m) == s.output(n + m),
        s.squeeze(n).squeeze(m) == s.squeeze(n + m),
{
    assert(s.output(n) + s.squeeze(n).output(m) =~= s.output(n + m));
}

/// A sponge that has absorbed a message in all gives out the output for that message.
pub proof fn law_output_of_message(rate: nat, message: Seq<u8>, n: nat)
    ensures
        Sponge::empty(rate).absorb(message).output(n) == xof(rate, message, n),
{
    assert(Seq::<u8>::empty() + message =~= message);
    assert(Sponge::empty(rate).absorb(message).output(n) =~= xof(rate, message, n));
}

/// A shorter output is the start of a longer one.
pub proof fn law_output_prefix(rate: nat, message: Seq<u8>, n: nat, m: nat)
    requires
        n <= m,
    ensures
        xof(rate, message, n) == xof(rate, message, m).take(n as int),
{
    assert(xof(rate, message, n) =~= xof(rate, message, m).take(n as int));
}

/// Padding keeps the message as it is and fills it up to one block more than its whole blocks.
pub proof fn law_padded_blocks(rate: nat, message: Seq<u8>)
    requires
        rate > 0,
    ensures
        padded(rate, message).len() == (message.len() / rate + 1) * rate,
        padded(rate, message).take(message.len() as int) == message,
        padded(rate, message).skip(message.len() as int) == padding(rate, message.len()),
{
    let n = message.len() / rate;
    lemma_fundamental_div_mod(message.len() as int, rate as int);
    assert((n + 1) * rate == rate * n + rate) by (nonlinear_arith);
    assert(padded(rate, message).take(message.len() as int) =~= message);
    assert(padded(rate, message).skip(message.len() as int) =~= padding(rate, message.len()));
}

/// No two messages have the same padding: the end of a message can be told from its padded form.
pub proof fn law_padding_unambiguous(rate: nat, a: Seq<u8>, b: Seq<u8>)
    requires
        rate > 0,
        padded(rate, a) == padded(rate, b),
    ensures
        a == b,
{
    if a.len() < b.len() {
        lemma_padding_differs(rate, a, b);
    }
    if b.len() < a.len() {
        lemma_padding_differs(rate, b, a);
    }
    law_padded_blocks(rate, a);
    law_padded_blocks(rate, b);
}

/// Two messages of different length differ, once padded, where the longer one ends.
proof fn lemma_padding_differs(rate: nat, a: Seq<u8>, b: Seq<u8>)
    requires
        rate > 0,
        a.len() < b.len(),
    ensures
        padded(rate, a) != padded(rate, b),
{
    if padded(rate, a) == padded(rate, b) {
        lemma_mod_bound(a.len() as int, rate as int);
        lemma_mod_bound(b.len() as int, rate as int);
        assert(0 < padding(rate, b.len()).len());
        assert(padded(rate, a).len() == a.len() + padding(rate, a.len()).len());
        assert(padded(rate, b).len() == b.len() + padding(rate, b.len()).len());
        let at = b.len() as int;
        let from_b = padding(rate, b.len())[0];
        let from_a = padding(rate, a.len())[at - a.len()];
        assert(padded(rate, b)[at] == from_b);
        assert(padded(rate, a)[at] == from_a);
        assert(0x1Fu8 ^ 0u8 != 0u8 ^ 0u8 && 0x1Fu8 ^ 0u8 != 0u8 ^ 0x80u8 && 0x1Fu8 ^ 0x80u8
            != 0u8 ^ 0u8 && 0x1Fu8 ^ 0x80u8 != 0u8 ^ 0x80u8) by (bit_vector);
    }
}

/// Adding a block adds it byte by byte, and leaves every byte past the block as it was.
pub proof fn law_xor_block_bytes(a: Seq<u64>, block: Seq<u8>, i: int)
    requires
        a.len() == 25,
        0 <= i < 200,
    ensures
        state_byte(xor_block(a, block), i) == state_byte(a, i) ^ byte_or_zero(block, i),
{
    let k = i / 8;
    let b0 = byte_or_zero(block, 8 * k);
    let b1 = byte_or_zero(block, 8 * k + 1);
    let b2 = byte_or_zero(block, 8 * k + 2);
    let b3 = byte_or_zero(block, 8 * k + 3);
    let b4 = byte_or_zero(block, 8 * k + 4);
    let b5 = byte_or_zero(block, 8 * k + 5);
    let b6 = byte_or_zero(block, 8 * k + 6);
    let b7 = byte_or_zero(block, 8 * k + 7);
    let v = a[k];
    let l = lane_from_bytes(b0, b1, b2, b3, b4, b5, b6, b7);
    assert(l == block_lane(block, k));
    assert({
        &&& ((v ^ l) >> 0u64) as u8 == ((v >> 0u64) as u8) ^ b0
        &&& ((v ^ l) >> 8u64) as u8 == ((v >> 8u64) as u8) ^ b1
        &&& ((v ^ l) >> 16u64) as u8 == ((v >> 16u64) as u8) ^ b2
        &&& ((v ^ l) >> 24u64) as u8 == ((v >> 24u64) as u8) ^ b3
        &&& ((v ^ l) >> 32u64) as u8 == ((v >> 32u64) as u8) ^ b4
        &&& ((v ^ l) >> 40u64) as u8 == ((v >> 40u64) as u8) ^ b5
        &&& ((v ^ l) >> 48u64) as u8 == ((v >> 48u64) as u8) ^ b6
        &&& ((v ^ l) >> 56u64) as u8 == ((v >> 56u64) as u8) ^ b7
    }) by (bit_vector)
        requires
            l == lane_from_bytes(b0, b1, b2, b3, b4, b5, b6, b7),
    ;
    assert(i == 8 * k + i % 8);
}

/// Two blocks of one length that make the same of a state are the same block.
proof fn lemma_xor_block_injective(s: Seq<u64>, a: Seq<u8>, b: Seq<u8>)
    requires
        s.len() == 25,
        a.len() == b.len() <= 200,
        xor_block(s, a) == xor_block(s, b),
    ensures
        a == b,
{
    assert forall|i: int| 0 <= i < a.len() implies a[i] == b[i] by {
        law_xor_block_bytes(s, a, i);
        law_xor_block_bytes(s, b, i);
        let v = state_byte(s, i);
        let x = a[i];
        let y = b[i];
        assert(x == y) by (bit_vector)
            requires
                v ^ x == v ^ y,
        ;
    }
    assert(a =~= b);
}

/// Closing a message that is shorter than a block permutes its padded form.
proof fn lemma_close_short(rate: nat, message: Seq<u8>)
    requires
        message.len() < rate,
    ensures
        padded(rate, message).len() == rate,
        output_state(rate, message, 0) == keccak_f(
            xor_block(zero_state(), padded(rate, message)),
        ),
{
    let data = padded(rate, message);
    lemma_fundamental_div_mod_converse(
        message.len() as int,
        rate as int,
        0,
        message.len() as int,
    );
    assert(data.subrange(0, rate as int) =~= data);
    assert(absorb_blocks(rate, data, 0) == zero_state());
    assert(absorb_blocks(rate, data, 1) == keccak_f(
        xor_block(zero_state(), data.subrange(0, rate as int)),
    ));
}

/// Two different messages that are each shorter than a block are closed to different states, so
/// that trailing zeros and the length of a message count. The same holds of what two sponges
/// hold that absorbed them.
pub proof fn law_short_messages_close_apart(rate: nat, a: Seq<u8>, b: Seq<u8>)
    requires
        valid_rate(rate),
        a.len() < rate,
        b.len() < rate,
        a != b,
    ensures
        output_state(rate, a, 0) != output_state(rate, b, 0),
        output_state(rate, Sponge::empty(rate).absorb(a).message, 0) != output_state(
            rate,
            Sponge::empty(rate).absorb(b).message,
            0,
        ),
{
    law_message_is_the_input(rate, a);
    law_message_is_the_input(rate, b);
    lemma_close_short(rate, a);
    lemma_close_short(rate, b);
    if output_state(rate, a, 0) == output_state(rate, b, 0) {
        law_keccak_f_injective(
            xor_block(zero_state(), padded(rate, a)),
            xor_block(zero_state(), padded(rate, b)),
        );
        lemma_xor_block_injective(zero_state(), padded(rate, a), padded(rate, b));
        law_padding_unambiguous(rate, a, b);
    }
}

// ---- what a sponge holds ----

/// The rates at which every block lies inside the state are those from 1 to 200 bytes.
pub proof fn law_valid_rates(rate: nat)
    ensures
        valid_rate(rate) <==> 1 <= rate && rate <= 200,
{
}

/// A new sponge has its rate, an empty and open message, and no byte read.
pub proof fn law_empty_sponge(rate: nat)
    ensures
        Sponge::empty(rate).rate == rate,
        Sponge::empty(rate).message.len() == 0,
        !Sponge::empty(rate).squeezing,
        Sponge::empty(rate).taken == 0,
{
}

/// Absorbing puts the input, as it is, behind the message, and changes nothing else.
pub proof fn law_absorb_appends(s: Sponge, input: Seq<u8>)
    ensures
        s.absorb(input).message == s.message + input,
        s.absorb(input).rate == s.rate,
        s.absorb(input).squeezing == s.squeezing,
        s.absorb(input).taken == s.taken,
{
}

/// A new sponge that absorbs an input has that input for its message.
pub proof fn law_message_is_the_input(rate: nat, input: Seq<u8>)
    ensures
        Sponge::empty(rate).absorb(input).message == input,
{
    assert(Seq::<u8>::empty() + input =~= input);
}

/// Reading closes the message and counts the bytes read, and changes nothing else.
pub proof fn law_squeeze_counts(s: Sponge, n: nat)
    ensures
        s.squeeze(n).squeezing,
        s.squeeze(n).taken == s.taken + n,
        s.squeeze(n).rate == s.rate,
        s.squeeze(n).message == s.message,
{
}

// ---- bytes and lanes ----

/// A lane is the number whose digits to the base 256 are its bytes, the lowest first.
pub proof fn law_lane_is_its_bytes(
    b0: u8,
    b1: u8,
    b2: u8,
    b3: u8,
    b4: u8,
    b5: u8,
    b6: u8,
    b7: u8,
)
    ensures
        lane_from_bytes(b0, b1, b2, b3, b4, b5, b6, b7) == b0 + 0x100 * b1 + 0x1_0000 * b2
            + 0x100_0000 * b3 + 0x1_0000_0000 * b4 + 0x100_0000_0000 * b5 + 0x1_0000_0000_0000 * b6
            + 0x100_0000_0000_0000 * b7,
{
    assert(lane_from_bytes(b0, b1, b2, b3, b4, b5, b6, b7) == b0 + 0x100 * b1 + 0x1_0000 * b2
        + 0x100_0000 * b3 + 0x1_0000_0000 * b4 + 0x100_0000_0000 * b5 + 0x1_0000_0000_0000 * b6
        + 0x100_0000_0000_0000 * b7) by (bit_vector);
}

/// The bytes read from a state are its lanes, eight bytes each: put together they give back each
/// lane, and they are the digits of its value to the base 256, the lowest first.
pub proof fn law_state_bytes_are_its_lanes(a: Seq<u64>, k: int)
    requires
        a.len() == 25,
        0 <= k < 25,
    ensures
        lane_from_bytes(
            state_byte(a, 8 * k),
            state_byte(a, 8 * k + 1),
            state_byte(a, 8 * k + 2),
            state_byte(a, 8 * k + 3),
            state_byte(a, 8 * k + 4),
            state_byte(a, 8 * k + 5),
            state_byte(a, 8 * k + 6),
            state_byte(a, 8 * k + 7),
        ) == a[k],
        a[k] == state_byte(a, 8 * k) + 0x100 * state_byte(a, 8 * k + 1) + 0x1_0000 * state_byte(
            a,
            8 * k + 2,
        ) + 0x100_0000 * state_byte(a, 8 * k + 3) + 0x1_0000_0000 * state_byte(a, 8 * k + 4)
            + 0x100_0000_0000 * state_byte(a, 8 * k + 5) + 0x1_0000_0000_0000 * state_byte(
            a,
            8 * k + 6,
        ) + 0x100_0000_0000_0000 * state_byte(a, 8 * k + 7),
{
    let v = a[k];
    assert(lane_from_bytes(
        (v >> 0u64) as u8,
        (v >> 8u64) as u8,
        (v >> 16u64) as u8,
        (v >> 24u64) as u8,
        (v >> 32u64) as u8,
        (v >> 40u64) as u8,
        (v >> 48u64) as u8,
        (v >> 56u64) as u8,
    ) == v) by (bit_vector);
    law_lane_is_its_bytes(
        state_byte(a, 8 * k),
        state_byte(a, 8 * k + 1),
        state_byte(a, 8 * k + 2),
        state_byte(a, 8 * k + 3),
        state_byte(a, 8 * k + 4),
        state_byte(a, 8 * k + 5),
        state_byte(a, 8 * k + 6),
        state_byte(a, 8 * k + 7),
    );
}

/// Byte `p` of a state, as a number.
proof fn lemma_state_byte_value(a: Seq<u64>, p: int)
    requires
        0 <= p,
    ensures
        state_byte(a, p) as u64 == (a[p / 8] >> ((8 * (p % 8)) as u64)) & 0xff,
{
    let w = a[p / 8] >> ((8 * (p % 8)) as u64);
    assert((w as u8) as u64 == w & 0xff) by (bit_vector);
}

/// Adding a block adds each of its bytes, as it is, to the byte of the state at the same place,
/// and leaves every byte past the block as it was.
pub proof fn law_xor_block_adds(a: Seq<u64>, block: Seq<u8>, i: int)
    requires
        a.len() == 25,
        0 <= i < 200,
    ensures
        xor_block(a, block).len() == 25,
        ({
            let shift = (8 * (i % 8)) as u64;
            let before = (a[i / 8] >> shift) & 0xff;
            let after = (xor_block(a, block)[i / 8] >> shift) & 0xff;
            after ^ before == if i < block.len() {
                block[i] as u64
            } else {
                0
            }
        }),
{
    law_xor_block_bytes(a, block, i);
    lemma_state_byte_value(a, i);
    lemma_state_byte_value(xor_block(a, block), i);
    let x = state_byte(a, i);
    let b = byte_or_zero(block, i);
    assert(((x ^ b) as u64) ^ (x as u64) == b as u64) by (bit_vector);
}

// ---- blocks in, blocks out ----

/// Before any block is absorbed, every lane is zero.
pub proof fn law_no_block_absorbed(rate: nat, data: Seq<u8>, k: int)
    requires
        0 <= k < 25,
    ensures
        absorb_blocks(rate, data, 0).len() == 25,
        absorb_blocks(rate, data, 0)[k] == 0,
{
}

/// A block absorbed behind whole blocks is added to the state that they left, which is then
/// permuted.
pub proof fn law_absorb_one_more_block(rate: nat, data: Seq<u8>, block: Seq<u8>, n: nat)
    requires
        data.len() == n * rate,
        block.len() == rate,
    ensures
        absorb_blocks(rate, data + block, n + 1) == keccak_f(
            xor_block(absorb_blocks(rate, data, n), block),
        ),
{
    assert((n + 1) * rate == n * rate + rate) by (nonlinear_arith);
    lemma_absorb_blocks_prefix(rate, data, block, n);
    assert((data + block).subrange((n * rate) as int, ((n + 1) * rate) as int) =~= block);
}

/// While a message is open, the state holds what its `n` whole blocks left, with the rest added.
pub proof fn law_open_message_adds_rest(rate: nat, whole: Seq<u8>, n: nat, rest: Seq<u8>)
    requires
        whole.len() == n * rate,
        rest.len() < rate,
    ensures
        tail(rate, whole + rest) == rest,
        absorbed(rate, whole + rest) == xor_block(absorb_blocks(rate, whole, n), rest),
{
    let message = whole + rest;
    lemma_fundamental_div_mod_converse(
        message.len() as int,
        rate as int,
        n as int,
        rest.len() as int,
    );
    lemma_absorb_blocks_prefix(rate, whole, rest, n);
    assert(tail(rate, message) =~= rest);
}

/// The padding byte by byte: `0x1F`, then zeros, then `0x80`; or `0x9F` alone where one byte is
/// left.
pub proof fn law_padding_bytes(rate: nat, len: nat, i: int)
    requires
        rate > 0,
        0 <= i < padding(rate, len).len(),
    ensures
        padding(rate, len).len() == rate - len % rate,
        padding(rate, len)[0] & 0x7F == 0x1F,
        padding(rate, len).last() & 0x80 == 0x80,
        padding(rate, len)[i] == if padding(rate, len).len() == 1 {
            0x9Fu8
        } else if i == 0 {
            0x1Fu8
        } else if i == padding(rate, len).len() - 1 {
            0x80u8
        } else {
            0u8
        },
{
    lemma_mod_bound(len as int, rate as int);
    assert({
        &&& 0x1Fu8 ^ 0x80u8 == 0x9F
        &&& 0x1Fu8 ^ 0u8 == 0x1F
        &&& 0u8 ^ 0x80u8 == 0x80
        &&& 0u8 ^ 0u8 == 0
        &&& 0x9Fu8 & 0x7F == 0x1F
        &&& 0x1Fu8 & 0x7F == 0x1F
        &&& 0x9Fu8 & 0x80 == 0x80
        &&& 0x80u8 & 0x80 == 0x80
    }) by (bit_vector);
}

/// A message of `n` whole blocks and a rest is closed by one last block: the rest, `0x1F`, zeros,
/// and `0x80` in the last byte; where the rest leaves one byte, that byte is `0x9F`. It is added
/// to the state that the whole blocks left, which is then permuted.
pub proof fn law_close_adds_last_block(
    rate: nat,
    whole: Seq<u8>,
    n: nat,
    rest: Seq<u8>,
    last: Seq<u8>,
)
    requires
        whole.len() == n * rate,
        rest.len() < rate,
        last.len() == rate,
        forall|i: int| 0 <= i < rest.len() ==> last[i] == rest[i],
        forall|i: int|
            rest.len() <= i < rate ==> last[i] == if rest.len() == rate - 1 {
                0x9Fu8
            } else if i == rest.len() {
                0x1Fu8
            } else if i == rate - 1 {
                0x80u8
            } else {
                0u8
            },
    ensures
        output_state(rate, whole + rest, 0) == keccak_f(
            xor_block(absorb_blocks(rate, whole, n), last),
        ),
{
    let message = whole + rest;
    lemma_fundamental_div_mod_converse(
        message.len() as int,
        rate as int,
        n as int,
        rest.len() as int,
    );
    let pad = padding(rate, message.len());
    assert forall|i: int| 0 <= i < pad.len() implies pad[i] == last[rest.len() + i] by {
        law_padding_bytes(rate, message.len(), i);
    }
    assert(rest + pad =~= last);
    assert(padded(rate, message) =~= whole + last);
    law_absorb_one_more_block(rate, whole, last, n);
}

/// Each further block of output is read from the state of the block before, permuted.
pub proof fn law_next_output_block(rate: nat, message: Seq<u8>, k: nat)
    ensures
        output_state(rate, message, k + 1) == keccak_f(output_state(rate, message, k)),
{
}

/// States that follow each other by the permutation, from the closed state on, are those from
/// which the blocks of output are read.
pub proof fn law_output_blocks_of_trace(rate: nat, message: Seq<u8>, trace: Seq<Seq<u64>>, k: nat)
    requires
        k < trace.len(),
        trace[0] == output_state(rate, message, 0),
        forall|j: int| 0 <= j < trace.len() - 1 ==> #[trigger] trace[j + 1] == keccak_f(trace[j]),
    ensures
        output_state(rate, message, k) == trace[k as int],
    decreases k,
{
    if k > 0 {
        law_output_blocks_of_trace(rate, message, trace, (k - 1) as nat);
        assert(trace[(k - 1) + 1] == keccak_f(trace[k - 1]));
    }
}

/// The byte at place `p` of block `k` is, in the output that follows, byte `p` of the lanes of
/// that block's state, the lowest byte of each lane first.
pub proof fn law_output_reads_lanes(s: Sponge, n: nat, i: nat, k: nat, p: nat)
    requires
        i < n,
        p < s.rate,
        s.taken + i == k * s.rate + p,
    ensures
        s.output(n).len() == n,
        s.output(n)[i as int] as u64 == (output_state(s.rate, s.message, k)[p as int / 8] >> ((8
            * (p % 8)) as u64)) & 0xff,
{
    lemma_output_byte(s.rate, s.message, k, p);
    lemma_state_byte_value(output_state(s.rate, s.message, k), p as int);
}

/// The same of the output for a message from its start on.
pub proof fn law_xof_reads_lanes(rate: nat, message: Seq<u8>, n: nat, k: nat, p: nat)
    requires
        p < rate,
        k * rate + p < n,
    ensures
        xof(rate, message, n).len() == n,
        xof(rate, message, n)[(k * rate + p) as int] == output_byte(
            rate,
            message,
            k * rate + p,
        ),
        xof(rate, message, n)[(k * rate + p) as int] as u64 == (output_state(
            rate,
            message,
            k,
        )[p as int / 8] >> ((8 * (p % 8)) as u64)) & 0xff,
{
    lemma_output_byte(rate, message, k, p);
    lemma_state_byte_value(output_state(rate, message, k), p as int);
}

} // verus!
