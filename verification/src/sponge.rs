//! The sponge construction over Keccak-f[1600], with the padding of the SHAKE functions.
//!
//! Everything here is specification: what a message is turned into, and which bytes come out.
use vstd::prelude::*;

use crate::permutation::keccak_f;

verus! {

// ---- bytes of a state ----

/// Byte `i` of a state: each lane holds eight bytes, the lowest first.
pub open spec fn state_byte(a: Seq<u64>, i: int) -> u8 {
    (a[i / 8] >> ((8 * (i % 8)) as u64)) as u8
}

/// The lane whose bytes are `b0` to `b7`, the lowest first.
pub open spec fn lane_from_bytes(
    b0: u8,
    b1: u8,
    b2: u8,
    b3: u8,
    b4: u8,
    b5: u8,
    b6: u8,
    b7: u8,
) -> u64 {
    (b0 as u64) | ((b1 as u64) << 8) | ((b2 as u64) << 16) | ((b3 as u64) << 24) | ((b4 as u64)
        << 32) | ((b5 as u64) << 40) | ((b6 as u64) << 48) | ((b7 as u64) << 56)
}

/// Byte `i` of `block`, or zero past its end.
pub open spec fn byte_or_zero(block: Seq<u8>, i: int) -> u8 {
    if 0 <= i < block.len() {
        block[i]
    } else {
        0
    }
}

/// Lane `k` of `block`, which is taken to go on with zeros.
pub open spec fn block_lane(block: Seq<u8>, k: int) -> u64 {
    lane_from_bytes(
        byte_or_zero(block, 8 * k),
        byte_or_zero(block, 8 * k + 1),
        byte_or_zero(block, 8 * k + 2),
        byte_or_zero(block, 8 * k + 3),
        byte_or_zero(block, 8 * k + 4),
        byte_or_zero(block, 8 * k + 5),
        byte_or_zero(block, 8 * k + 6),
        byte_or_zero(block, 8 * k + 7),
    )
}

/// A state with `block` added to its first bytes.
pub open spec fn xor_block(a: Seq<u64>, block: Seq<u8>) -> Seq<u64> {
    Seq::new(25, |k: int| a[k] ^ block_lane(block, k))
}

// ---- absorbing ----

/// The state before anything is absorbed.
pub open spec fn zero_state() -> Seq<u64> {
    Seq::new(25, |k: int| 0u64)
}

/// The state after the first `n` blocks of `data`.
pub open spec fn absorb_blocks(rate: nat, data: Seq<u8>, n: nat) -> Seq<u64>
    decreases n,
{
    if n == 0 {
        zero_state()
    } else {
        keccak_f(
            xor_block(
                absorb_blocks(rate, data, (n - 1) as nat),
                data.subrange((n - 1) * rate, (n * rate) as int),
            ),
        )
    }
}

/// The bytes of `message` after its last whole block.
pub open spec fn tail(rate: nat, message: Seq<u8>) -> Seq<u8> {
    message.skip(((message.len() / rate) * rate) as int)
}

/// The state once `message` is absorbed, and not yet padded: its whole blocks are permuted and
/// its tail is added.
pub open spec fn absorbed(rate: nat, message: Seq<u8>) -> Seq<u64> {
    xor_block(absorb_blocks(rate, message, message.len() / rate), tail(rate, message))
}

/// What SHAKE appends to a message of `len` bytes to fill its last block: `0x1F` in the first
/// byte and `0x80` in the last, which may be the same one.
pub open spec fn padding(rate: nat, len: nat) -> Seq<u8> {
    let q = (rate - len % rate) as nat;
    Seq::new(
        q,
        |i: int|
            (if i == 0 {
                0x1Fu8
            } else {
                0u8
            }) ^ (if i == q - 1 {
                0x80u8
            } else {
                0u8
            }),
    )
}

/// `message` filled up to whole blocks.
pub open spec fn padded(rate: nat, message: Seq<u8>) -> Seq<u8> {
    message + padding(rate, message.len())
}

// ---- squeezing ----

/// The state from which output block `k` is read.
pub open spec fn output_state(rate: nat, message: Seq<u8>, k: nat) -> Seq<u64>
    decreases k,
{
    if k == 0 {
        absorb_blocks(rate, padded(rate, message), message.len() / rate + 1)
    } else {
        keccak_f(output_state(rate, message, (k - 1) as nat))
    }
}

/// Byte `i` of the output for `message`, which has no end.
pub open spec fn output_byte(rate: nat, message: Seq<u8>, i: nat) -> u8 {
    state_byte(output_state(rate, message, i / rate), (i % rate) as int)
}

/// The first `n` bytes of the output for `message`.
pub open spec fn xof(rate: nat, message: Seq<u8>, n: nat) -> Seq<u8> {
    Seq::new(n, |i: int| output_byte(rate, message, i as nat))
}

/// A rate, in bytes, that leaves every block inside the state.
pub open spec fn valid_rate(rate: nat) -> bool {
    0 < rate <= 200
}

// ---- one use of a sponge ----

/// A sponge, as its user sees it.
pub struct Sponge {
    /// Block length in bytes.
    pub rate: nat,
    /// All that was absorbed.
    pub message: Seq<u8>,
    /// Whether the message is closed.
    pub squeezing: bool,
    /// How many output bytes were read.
    pub taken: nat,
}

impl Sponge {
    /// A sponge that has absorbed nothing.
    pub open spec fn empty(rate: nat) -> Sponge {
        Sponge { rate, message: Seq::empty(), squeezing: false, taken: 0 }
    }

    /// The sponge after `input` is absorbed.
    pub open spec fn absorb(self, input: Seq<u8>) -> Sponge {
        Sponge { message: self.message + input, ..self }
    }

    /// The sponge after `n` bytes are read.
    pub open spec fn squeeze(self, n: nat) -> Sponge {
        Sponge { squeezing: true, taken: self.taken + n, ..self }
    }

    /// The next `n` bytes of output.
    pub open spec fn output(self, n: nat) -> Seq<u8> {
        Seq::new(n, |i: int| output_byte(self.rate, self.message, (self.taken + i) as nat))
    }
}

} // verus!
