//! A counter-based pseudo-random generator with two words of state,
//! advanced by a multiply-add recurrence whose output word is mixed and
//! rotated from the state.
//!
//! The whole state can be saved as a seed pair and restored exactly, which
//! is what makes a shuffle reproducible by a third party.  A SHA-256
//! digest of the serialized pair serves as a seed commitment.
use vstd::prelude::*;

use crate::digest::{digest_hex, sha256_of, spec_hex};
use vstd::bytes::{spec_u64_to_le_bytes, u64_to_le_bytes};

verus! {

/// The multiplier of the state recurrence.
pub const PCG_MULTIPLIER: u64 = 6364136223846793005;

/// How many rejected draws a bounded draw will make before it falls back
/// to a plain remainder; with sixty-four fresh bits per draw the fallback
/// is unreachable in practice.
pub const DRAW_ATTEMPTS: u32 = 63;

#[derive(Copy, Clone, PartialEq, Eq, Structural, Debug)]
pub struct PCG32 {
    state: u64,
    inc: u64,
}

/// The serialized generator state: the raw state word and the sequence
/// selector.  The low bit that keeps the increment odd is not part of the
/// seed.
#[derive(Copy, Clone, PartialEq, Eq, Structural, Debug)]
pub struct PCG32Seed(u64, u64);

impl PCG32Seed {
    pub closed spec fn spec_state(self) -> u64 {
        self.0
    }

    pub closed spec fn spec_seq(self) -> u64 {
        self.1
    }

    pub fn new(state: u64, seq: u64) -> (r: PCG32Seed)
        ensures
            r.spec_state() == state,
            r.spec_seq() == seq,
    {
        PCG32Seed(state, seq)
    }

    /// The seed commitment: the lowercase hex SHA-256 digest of the
    /// sixteen-byte little-endian encoding of the pair.
    pub fn sha256(&self) -> (r: String)
        ensures
            r@ == spec_hex(
                sha256_of(
                    spec_u64_to_le_bytes(self.spec_state()) + spec_u64_to_le_bytes(self.spec_seq()),
                ),
            ),
    {
        let mut buf = u64_to_le_bytes(self.0);
        let mut tail = u64_to_le_bytes(self.1);
        buf.append(&mut tail);
        digest_hex(buf.as_slice())
    }
}

impl PCG32 {
    /// The increment must stay odd for the recurrence to reach its full
    /// period; both constructors force the low bit.
    pub closed spec fn wf(self) -> bool {
        self.inc % 2 == 1
    }

    pub closed spec fn spec_new(state: u64, seq: u64) -> PCG32 {
        PCG32 { state, inc: (seq << 1u64) | 1u64 }
    }

    pub closed spec fn spec_from_seed(seed: PCG32Seed) -> PCG32 {
        PCG32 { state: seed.0, inc: (seed.1 << 1u64) | 1u64 }
    }

    pub closed spec fn spec_to_seed(self) -> PCG32Seed {
        PCG32Seed(self.state, self.inc >> 1u64)
    }

    /// The output word: the advanced state xor-folded and rotated by its
    /// own top bits.
    pub closed spec fn spec_output(s: u64) -> u64 {
        let xor = ((s >> 18u64) ^ s) >> 27u64;
        let rot = s >> 59u64;
        let sh = (((32 - rot as int) % 32) as u64);
        (xor >> rot) | (xor << sh)
    }

    /// One advance of the recurrence: the next generator and its output
    /// word.
    pub closed spec fn spec_step(self) -> (PCG32, u64) {
        let next = PCG32 {
            state: self.state.wrapping_mul(PCG_MULTIPLIER).wrapping_add(self.inc),
            inc: self.inc,
        };
        (next, Self::spec_output(next.state))
    }

    pub fn new(state: u64, seq: u64) -> (r: PCG32)
        ensures
            r == PCG32::spec_new(state, seq),
            r.wf(),
    {
        let inc = (seq << 1u64) | 1u64;
        proof {
            assert(((seq << 1u64) | 1u64) % 2 == 1) by (bit_vector);
        }
        PCG32 { state, inc }
    }

    /// Restores a generator from its serialized seed.
    pub fn from_seed(seed: PCG32Seed) -> (r: PCG32)
        ensures
            r == PCG32::spec_from_seed(seed),
            r.wf(),
    {
        let state = seed.0;
        let inc = (seed.1 << 1u64) | 1u64;
        proof {
            let seq = seed.1;
            assert(((seq << 1u64) | 1u64) % 2 == 1) by (bit_vector);
        }
        PCG32 { state, inc }
    }

    /// Serializes the generator: the state word and the increment with its
    /// forced low bit dropped.
    pub fn to_seed(&self) -> (r: PCG32Seed)
        ensures
            r == self.spec_to_seed(),
    {
        PCG32Seed(self.state, self.inc >> 1u64)
    }

    /// Advances the recurrence once and returns the mixed output word.
    pub fn next_u64(&mut self) -> (r: u64)
        ensures
            *final(self) == old(self).spec_step().0,
            r == old(self).spec_step().1,
            final(self).wf() == old(self).wf(),
    {
        self.state = self.state.wrapping_mul(PCG_MULTIPLIER).wrapping_add(self.inc);
        let s = self.state;
        let xor = ((s >> 18u64) ^ s) >> 27u64;
        let rot = s >> 59u64;
        proof {
            assert(s >> 59u64 < 32) by (bit_vector);
        }
        let sh = (32u64 - rot) % 32;
        (xor >> rot) | (xor << sh)
    }

    /// What remains of the sixty-four-bit range after the largest multiple
    /// of `bound` below it: draws above that zone are rejected so that the
    /// accepted remainders are uniform.
    pub closed spec fn spec_zone_rest(bound: u64) -> int {
        ((u64::MAX as int % bound as int) + 1) % bound as int
    }

    /// A bounded draw with the given number of retries left: the first
    /// accepted word's remainder, or the last word's remainder once the
    /// retries run out.
    pub closed spec fn spec_draw_below(self, bound: u64, fuel: nat) -> (u64, PCG32)
        recommends
            bound >= 1,
        decreases fuel,
    {
        let step = self.spec_step();
        let next = step.0;
        let v = step.1;
        if fuel == 0 || v as int <= u64::MAX - Self::spec_zone_rest(bound) {
            (((v as int % bound as int) as u64), next)
        } else {
            next.spec_draw_below(bound, (fuel - 1) as nat)
        }
    }

    /// A draw uniform over `[0, bound)`, by rejection of the top sliver of
    /// the sixty-four-bit range.
    pub closed spec fn spec_gen_range(self, bound: u64) -> (u64, PCG32) {
        self.spec_draw_below(bound, DRAW_ATTEMPTS as nat)
    }

    fn draw_below(&mut self, bound: u64, rest: u64, fuel: u32) -> (r: u64)
        requires
            bound >= 1,
            rest == PCG32::spec_zone_rest(bound),
        ensures
            (r, *final(self)) == old(self).spec_draw_below(bound, fuel as nat),
            r < bound,
            final(self).wf() == old(self).wf(),
        decreases fuel,
    {
        let v = self.next_u64();
        if fuel == 0 || v <= u64::MAX - rest {
            v % bound
        } else {
            self.draw_below(bound, rest, fuel - 1)
        }
    }

    /// Draws a word uniform over `[0, bound)`, advancing the generator as
    /// many times as the rejection took.
    pub fn gen_range(&mut self, bound: u64) -> (r: u64)
        requires
            bound >= 1,
        ensures
            (r, *final(self)) == old(self).spec_gen_range(bound),
            r < bound,
            final(self).wf() == old(self).wf(),
    {
        let rest = ((u64::MAX % bound) + 1) % bound;
        self.draw_below(bound, rest, DRAW_ATTEMPTS)
    }
}

proof fn lemma_draw_below_bound(p: PCG32, bound: u64, fuel: nat)
    requires
        bound >= 1,
    ensures
        p.spec_draw_below(bound, fuel).0 < bound,
    decreases fuel,
{
    let step = p.spec_step();
    if !(fuel == 0 || step.1 as int <= u64::MAX - PCG32::spec_zone_rest(bound)) {
        lemma_draw_below_bound(step.0, bound, (fuel - 1) as nat);
    }
}

/// A bounded draw lands inside its bound.
pub proof fn lemma_gen_range_bound(p: PCG32, bound: u64)
    requires
        bound >= 1,
    ensures
        p.spec_gen_range(bound).0 < bound,
{
    lemma_draw_below_bound(p, bound, DRAW_ATTEMPTS as nat);
}

/// Serialization is exact: restoring a generator from its own seed gives
/// back the very same generator, so any stream it would have produced is
/// reproduced word for word.
pub proof fn lemma_seed_round_trip(p: PCG32)
    requires
        p.wf(),
    ensures
        PCG32::spec_from_seed(p.spec_to_seed()) == p,
{
    let inc = p.inc;
    assert(((inc >> 1u64) << 1u64) | 1u64 == inc) by (bit_vector)
        requires
            inc % 2 == 1,
    ;
}

} // verus!
