//! The SHAKE128 and SHAKE256 sponges: absorb any number of inputs, then squeeze any number of
//! outputs.
use vstd::prelude::*;

use crate::permutation::keccak_f1600;
use crate::sponge::{
    absorb_blocks, absorbed, output_state, tail, valid_rate, xor_block, zero_state, Sponge,
};
use crate::sponge_lemmas::{
    lemma_absorb_blocks_len, lemma_absorb_chunk, lemma_absorbed_nothing, lemma_close,
    lemma_output_byte, lemma_tail, lemma_xor_push,
};

verus! {

/// Block length of SHAKE128, in bytes.
pub const SHAKE128_RATE: usize = 168;

/// Block length of SHAKE256, in bytes.
pub const SHAKE256_RATE: usize = 136;

/// A SHAKE sponge with blocks of `RATE` bytes.
pub struct ShakeState<const RATE: usize> {
    state: [u64; 25],
    /// While absorbing, the number of input bytes in the current block, less than `RATE`.
    /// While squeezing, the number of bytes already read from the current block, at most `RATE`.
    pos: usize,
    squeezing: bool,
    /// All that was absorbed.
    message: Ghost<Seq<u8>>,
    /// The number of output blocks before the current one.
    block: Ghost<nat>,
}

/// SHAKE128.
pub type G = ShakeState<SHAKE128_RATE>;

/// SHAKE256.
pub type H = ShakeState<SHAKE256_RATE>;

impl<const RATE: usize> View for ShakeState<RATE> {
    type V = Sponge;

    closed spec fn view(&self) -> Sponge {
        Sponge {
            rate: RATE as nat,
            message: self.message@,
            squeezing: self.squeezing,
            taken: if self.squeezing {
                self.block@ * (RATE as nat) + self.pos as nat
            } else {
                0
            },
        }
    }
}

impl<const RATE: usize> ShakeState<RATE> {
    /// The state holds what the message makes of it.
    pub closed spec fn wf(&self) -> bool {
        &&& valid_rate(RATE as nat)
        &&& if self.squeezing {
            &&& self.pos <= RATE
            &&& self.block@ > 0 ==> self.pos > 0
            &&& self.state@ == output_state(RATE as nat, self.message@, self.block@)
        } else {
            &&& self.pos == self.message@.len() % (RATE as nat)
            &&& self.block@ == 0
            &&& self.state@ == absorbed(RATE as nat, self.message@)
        }
    }

    /// Absorbs `input` after all that was absorbed before.
    pub fn absorb(self, input: &[u8]) -> (r: Self)
        requires
            self.wf(),
            !self@.squeezing,
        ensures
            r.wf(),
            r@ == self@.absorb(input@),
    {
        let mut s = self;
        let mut i: usize = 0;
        assert(self@.absorb(input@.take(0)) == self@);
        while i < input.len()
            invariant
                i <= input.len(),
                s.wf(),
                !s.squeezing,
                s@ == self@.absorb(input@.take(i as int)),
            decreases input.len() - i,
        {
            let room: usize = RATE - s.pos;
            let take: usize = if room < input.len() - i {
                room
            } else {
                input.len() - i
            };
            s.absorb_chunk(input, i, take);
            proof {
                let before = input@.take(i as int);
                let chunk = input@.subrange(i as int, i + take);
                assert(before + chunk =~= input@.take(i + take));
                assert(self@.message + before + chunk =~= self@.message + (before + chunk));
            }
            i = i + take;
        }
        assert(input@.take(i as int) =~= input@);
        s
    }

    /// Absorbs the `take` bytes of `input` from index `from`, which fit into the current block.
    fn absorb_chunk(&mut self, input: &[u8], from: usize, take: usize)
        requires
            old(self).wf(),
            !old(self).squeezing,
            from + take <= input@.len(),
            old(self).pos + take <= RATE,
        ensures
            final(self).wf(),
            final(self)@ == old(self)@.absorb(input@.subrange(from as int, from + take)),
    {
        let ghost rate = RATE as nat;
        let ghost message = self.message@;
        let ghost chunk = input@.subrange(from as int, from + take);
        let ghost base = absorb_blocks(rate, message, message.len() / rate);
        let ghost t = tail(rate, message);
        proof {
            lemma_tail(rate, message);
            lemma_absorb_blocks_len(rate, message, message.len() / rate);
            lemma_absorb_chunk(rate, message, chunk);
            assert(t + chunk.take(0) =~= t);
        }
        let start: usize = self.pos;
        for j in 0..take
            invariant
                from + take <= input.len(),
                start + take <= RATE <= 200,
                t.len() == start,
                base.len() == 25,
                chunk == input@.subrange(from as int, from + take),
                self.state@ == xor_block(base, t + chunk.take(j as int)),
                self.pos == start,
                self.squeezing == old(self).squeezing,
                self.message == old(self).message,
                self.block == old(self).block,
        {
            let at: usize = start + j;
            let lane: usize = at / 8;
            let shift: usize = 8 * (at % 8);
            proof {
                lemma_xor_push(base, t + chunk.take(j as int), chunk[j as int]);
                assert((t + chunk.take(j as int)).push(chunk[j as int]) =~= t + chunk.take(j + 1));
            }
            self.state[lane] = self.state[lane] ^ ((input[from + j] as u64) << shift);
        }
        assert(chunk.take(take as int) =~= chunk);
        self.pos = start + take;
        if self.pos == RATE {
            keccak_f1600(&mut self.state);
            self.pos = 0;
        }
        self.message = Ghost(message + chunk);
    }

    /// Closes the message: adds the padding and permutes.
    fn finalize(&mut self)
        requires
            old(self).wf(),
            !old(self)@.squeezing,
        ensures
            final(self).wf(),
            final(self)@ == old(self)@.squeeze(0),
            final(self).pos == 0,
            final(self).state@ == output_state(RATE as nat, old(self)@.message, 0),
    {
        proof {
            lemma_close(RATE as nat, self.message@);
            lemma_tail(RATE as nat, self.message@);
            lemma_absorb_blocks_len(
                RATE as nat,
                self.message@,
                self.message@.len() / (RATE as nat),
            );
        }
        let at: usize = self.pos;
        let lane: usize = at / 8;
        let shift: usize = 8 * (at % 8);
        self.state[lane] = self.state[lane] ^ (0x1Fu64 << shift);

        let last: usize = RATE - 1;
        let last_lane: usize = last / 8;
        let last_shift: usize = 8 * (last % 8);
        self.state[last_lane] = self.state[last_lane] ^ (0x80u64 << last_shift);

        keccak_f1600(&mut self.state);
        self.pos = 0;
        self.squeezing = true;
        self.block = Ghost(0);
    }

    /// Reads the next bytes of output into `output`. The first call closes the message.
    pub fn squeeze(&mut self, output: &mut [u8]) -> (r: &mut Self)
        requires
            old(self).wf(),
        ensures
            r.wf(),
            r@ == old(self)@.squeeze(old(output)@.len()),
            final(output)@ == old(self)@.output(old(output)@.len()),
            *final(self) == *final(r),
    {
        let ghost start = self@;
        let ghost total = output@.len();
        if !self.squeezing {
            self.finalize();
        }
        let mut i: usize = 0;
        while i < output.len()
            invariant
                i <= output@.len(),
                output@.len() == total,
                self.wf(),
                self.squeezing,
                self@ == start.squeeze(i as nat),
                forall|j: int| 0 <= j < i ==> output@[j] == start.output(total)[j],
            decreases output@.len() - i,
        {
            if self.pos == RATE {
                proof {
                    let k = self.block@;
                    let rate = RATE as nat;
                    assert((k + 1) * rate == k * rate + rate) by (nonlinear_arith);
                }
                keccak_f1600(&mut self.state);
                self.pos = 0;
                self.block = Ghost(self.block@ + 1);
            }
            let room: usize = RATE - self.pos;
            let take: usize = if room < output.len() - i {
                room
            } else {
                output.len() - i
            };
            for j in 0..take
                invariant
                    i + take <= output.len(),
                    self.pos + take <= RATE <= 200,
                    output@.len() == total,
                    start.rate == RATE,
                    start.message == self.message@,
                    start.taken + i == self.block@ * (RATE as nat) + self.pos,
                    self.state@ == output_state(RATE as nat, self.message@, self.block@),
                    forall|k: int| 0 <= k < i + j ==> output@[k] == start.output(total)[k],
            {
                let at: usize = self.pos + j;
                let lane: usize = at / 8;
                let shift: usize = 8 * (at % 8);
                proof {
                    lemma_output_byte(RATE as nat, self.message@, self.block@, at as nat);
                }
                output[i + j] = (self.state[lane] >> shift) as u8;
            }
            self.pos = self.pos + take;
            i = i + take;
        }
        assert(output@ =~= start.output(total));
        self
    }

    /// Reads the next `N` bytes of output.
    pub fn squeeze_new<const N: usize>(&mut self) -> (v: [u8; N])
        requires
            old(self).wf(),
        ensures
            final(self).wf(),
            final(self)@ == old(self)@.squeeze(N as nat),
            v@ == old(self)@.output(N as nat),
    {
        let mut v: [u8; N] = [0u8; N];
        self.squeeze(&mut v);
        v
    }
}

impl<const RATE: usize> Default for ShakeState<RATE> {
    /// A sponge that has absorbed nothing.
    fn default() -> (s: Self)
        ensures
            0 < RATE <= 200 ==> s.wf(),
            valid_rate(RATE as nat) ==> s.wf(),
            s@ == Sponge::empty(RATE as nat),
    {
        let state: [u64; 25] = [0; 25];
        proof {
            if valid_rate(RATE as nat) {
                lemma_absorbed_nothing(RATE as nat);
            }
            assert(state@ =~= zero_state());
        }
        ShakeState {
            state,
            pos: 0,
            squeezing: false,
            message: Ghost(Seq::empty()),
            block: Ghost(0),
        }
    }
}

impl<const RATE: usize> Clone for ShakeState<RATE> {
    fn clone(&self) -> (s: Self)
        ensures
            s == *self,
    {
        ShakeState {
            state: self.state,
            pos: self.pos,
            squeezing: self.squeezing,
            message: self.message,
            block: self.block,
        }
    }
}

/// A well-formed sponge has the rate of its type, which leaves every block inside the state; and
/// while it still absorbs, none of its output was read.
pub proof fn law_wf_view<const RATE: usize>(s: ShakeState<RATE>)
    requires
        s.wf(),
    ensures
        s@.rate == RATE,
        valid_rate(RATE as nat),
        !s@.squeezing ==> s@.taken == 0,
{
}

/// Two sponges put to the same use hold the same state, however their inputs and outputs were
/// split between calls.
pub proof fn law_same_use_same_state<const RATE: usize>(a: ShakeState<RATE>, b: ShakeState<RATE>)
    requires
        a.wf(),
        b.wf(),
        a@ == b@,
    ensures
        a == b,
{
    if a.squeezing {
        let rate = RATE as nat;
        let j = a.block@;
        let k = b.block@;
        let p = a.pos as nat;
        let q = b.pos as nat;
        assert(j == k) by (nonlinear_arith)
            requires
                j * rate + p == k * rate + q,
                p <= rate,
                q <= rate,
                j > 0 ==> p > 0,
                k > 0 ==> q > 0,
        ;
    }
    assert(a.state =~= b.state);
}

} // verus!
