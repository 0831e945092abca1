//! Deterministic generation of one LFSR's state sequence: a Galois-style
//! step function and a finite generator that emits exactly 2^17
//! (step index, register value) pairs from a fixed seed.

use vstd::prelude::*;
use crate::bits::{parity, parity32, STEPS};

verus! {

/// One LFSR step: shift the register left by one and feed back the parity
/// of the register bits selected by the tap polynomial.
pub open spec fn lfsr_step(poly: u32, state: u32) -> u32 {
    (state << 1) | parity(state & poly)
}

/// The register value after `n` steps from `seed`.
pub open spec fn nth_state(poly: u32, seed: u32, n: nat) -> u32
    decreases n,
{
    if n == 0 {
        seed
    } else {
        lfsr_step(poly, nth_state(poly, seed, (n - 1) as nat))
    }
}

/// A lazy, finite generator of one LFSR's (step index, register value)
/// sequence. Separate instances over the same polynomial reproduce the
/// identical sequence.
pub struct LfsrGen {
    pub poly: u32,
    pub state: u32,
    pub step: u32,
}

impl LfsrGen {
    /// The register matches the position in the run: what `next` emits is a
    /// pure function of the polynomial and the step count alone.
    pub open spec fn wf(self) -> bool {
        &&& self.step <= STEPS
        &&& self.state == nth_state(self.poly, 1, self.step as nat)
    }

    /// Emits the current (step index, register value) pair and advances the
    /// register by one step, or signals exhaustion after exactly 2^17 pairs.
    pub fn next(&mut self) -> (r: Option<(u32, u32)>)
        ensures
            old(self).step >= STEPS ==> r == None::<(u32, u32)> && *final(self) == *old(self),
            old(self).step < STEPS ==> {
                &&& r == Some((old(self).step, old(self).state))
                &&& final(self).poly == old(self).poly
                &&& final(self).step == old(self).step + 1
                &&& final(self).state == lfsr_step(old(self).poly, old(self).state)
            },
            old(self).wf() ==> final(self).wf(),
    {
        if self.step >= STEPS {
            None
        } else {
            let out = (self.step, self.state);
            let fb = parity32(self.state & self.poly);
            self.state = (self.state << 1u32) | fb;
            self.step = self.step + 1;
            Some(out)
        }
    }
}

/// Returns a fresh generator for `poly`, positioned at step 0 with the
/// fixed non-zero seed 1.
pub fn lfsr_gen(poly: u32) -> (g: LfsrGen)
    ensures
        g.poly == poly,
        g.state == 1,
        g.step == 0,
        g.wf(),
{
    LfsrGen { poly, state: 1, step: 0 }
}

/// Determinism: two generators over the same polynomial that have emitted
/// the same number of pairs hold the same register value, so independent
/// runs yield bit-identical sequences.
pub proof fn lemma_generator_deterministic(g1: LfsrGen, g2: LfsrGen)
    requires
        g1.wf(),
        g2.wf(),
        g1.poly == g2.poly,
        g1.step == g2.step,
    ensures
        g1.state == g2.state,
{
}

} // verus!
