//! The generator with 64 bits of state whose fields are kept private, to be
//! saved and restored as a pair of words.

use crate::formulas::{
    lcg64_jump, lcg64_step, lcg_step, lcg_steps, xsh_rr, xsh_rr_u64_to_u32, PCG_MUL_64,
};
use crate::gen32::Gen32;
use crate::modular::modulus64;
use vstd::prelude::*;

verus! {

/// A permuted congruential generator with 32 bits of output per step.
///
/// * Generally you should create new generator values with the `seed`
///   constructor. This will shuffle around the inputs somewhat, so it will
///   work alright even with "boring" input values like `seed(0,0)`.
/// * If you want to exactly save/restore a generator use the `From` impls to
///   convert the generator into and from a `[u64; 2]`.
#[derive(Debug, Clone, PartialEq, Eq, Hash)]
pub struct Pcg32 {
    state: u64,
    inc: u64,
}

impl View for Pcg32 {
    type V = (u64, u64);

    /// The state and the increment, in this order.
    closed spec fn view(&self) -> (u64, u64) {
        (self.state, self.inc)
    }
}

impl Pcg32 {
    /// The pair that `seed` makes of a seed and a stream selector: the
    /// selector is doubled and made odd, and the state is two steps past
    /// zero, the seed being added between the two.
    pub open spec fn seeded(seed: u64, inc: u64) -> (u64, u64) {
        let m = modulus64();
        let odd_inc = (2 * inc + 1) % m;
        let first = lcg_step(m, PCG_MUL_64 as int, odd_inc, 0);
        let state = lcg_step(m, PCG_MUL_64 as int, odd_inc, (first + seed) % m);
        (state as u64, odd_inc as u64)
    }

    /// The generator after one call of `next_u32`, as a pair.
    pub open spec fn stepped(pair: (u64, u64)) -> (u64, u64) {
        (lcg_step(modulus64(), PCG_MUL_64 as int, pair.1 as int, pair.0 as int) as u64, pair.1)
    }

    /// Two generators with the same state and increment are the same.
    pub proof fn lemma_view_is_all(a: Pcg32, b: Pcg32)
        requires
            a@ == b@,
        ensures
            a == b,
    {
    }

    /// Seed a new generator.
    pub fn seed(seed: u64, inc: u64) -> (g: Self)
        ensures
            g@ == Self::seeded(seed, inc),
    {
        let ghost old_inc = inc;
        let inc: u64 = (inc << 1) | 1;
        assert(inc == (2 * old_inc + 1) % 0x1_0000_0000_0000_0000) by (bit_vector)
            requires
                inc == (old_inc << 1) | 1,
        ;
        let mut state: u64 = lcg64_step(PCG_MUL_64, inc, 0);
        let first: u64 = state;
        state = state.wrapping_add(seed);
        proof {
            crate::modular::lemma_wrapped_sum(first as int, seed as int, modulus64());
        }
        state = lcg64_step(PCG_MUL_64, inc, state);
        Self { state, inc }
    }

    /// Gets the next 32-bits of output.
    pub fn next_u32(&mut self) -> (out: u32)
        ensures
            out == xsh_rr(old(self)@.0),
            final(self)@ == Self::stepped(old(self)@),
    {
        let out: u32 = xsh_rr_u64_to_u32(self.state);
        self.state = lcg64_step(PCG_MUL_64, self.inc, self.state);
        out
    }

    /// Jumps the generator by `delta` steps forward.
    ///
    /// The generator sequence loops, so if you want to go "backwards" you can
    /// just subtract the number of steps you want to go back from `u64::MAX`
    /// and jump by that amount.
    pub fn jump(&mut self, delta: u64)
        ensures
            final(self)@.0 == lcg_steps(
                modulus64(),
                PCG_MUL_64 as int,
                old(self)@.1 as int,
                old(self)@.0 as int,
                delta as nat,
            ),
            final(self)@.1 == old(self)@.1,
    {
        self.state = lcg64_jump(PCG_MUL_64, self.inc, self.state, delta);
    }
}

impl Gen32 for Pcg32 {
    closed spec fn output(&self) -> u32 {
        xsh_rr(self.state)
    }

    closed spec fn successor(&self) -> Self {
        Pcg32 {
            state: lcg_step(modulus64(), PCG_MUL_64 as int, self.inc as int, self.state as int)
                as u64,
            inc: self.inc,
        }
    }

    fn next_u32(&mut self) -> (out: u32) {
        Pcg32::next_u32(self)
    }
}

impl From<[u64; 2]> for Pcg32 {
    /// Restores a generator from its state and increment, in this order.
    fn from(pair: [u64; 2]) -> (g: Self) {
        Self { state: pair[0], inc: pair[1] }
    }
}

impl vstd::std_specs::convert::FromSpecImpl<[u64; 2]> for Pcg32 {
    open spec fn obeys_from_spec() -> bool {
        true
    }

    closed spec fn from_spec(pair: [u64; 2]) -> Self {
        Pcg32 { state: pair@[0], inc: pair@[1] }
    }
}

impl From<Pcg32> for [u64; 2] {
    /// Saves a generator as its state and increment, in this order.
    fn from(pcg: Pcg32) -> (pair: Self) {
        [pcg.state, pcg.inc]
    }
}

impl vstd::std_specs::convert::FromSpecImpl<Pcg32> for [u64; 2] {
    open spec fn obeys_from_spec() -> bool {
        true
    }

    closed spec fn from_spec(pcg: Pcg32) -> Self {
        [pcg.state, pcg.inc]
    }
}

impl Pcg32 {
    /// What the two conversions hold: the pair is the generator's state and
    /// increment, and the generator restored from a pair has them.
    pub proof fn lemma_conversions(g: Pcg32, pair: [u64; 2])
        ensures
            <[u64; 2] as vstd::std_specs::convert::FromSpec<Pcg32>>::from_spec(g)@ == seq![
                g@.0,
                g@.1,
            ],
            <Pcg32 as vstd::std_specs::convert::FromSpec<[u64; 2]>>::from_spec(pair)@ == (
                pair@[0],
                pair@[1],
            ),
    {
        broadcast use vstd::array::group_array_axioms;

        let saved = <[u64; 2] as vstd::std_specs::convert::FromSpec<Pcg32>>::from_spec(g);
        assert(saved@ =~= seq![g@.0, g@.1]);
    }

    /// A generator that is saved as a pair and restored from it is the same
    /// generator, and so yields the same words from there on.
    pub proof fn lemma_saved_and_restored(g: Pcg32, n: nat)
        ensures
            <Pcg32 as vstd::std_specs::convert::FromSpec<[u64; 2]>>::from_spec(
                <[u64; 2] as vstd::std_specs::convert::FromSpec<Pcg32>>::from_spec(g),
            ) == g,
            crate::gen32::word(
                <Pcg32 as vstd::std_specs::convert::FromSpec<[u64; 2]>>::from_spec(
                    <[u64; 2] as vstd::std_specs::convert::FromSpec<Pcg32>>::from_spec(g),
                ),
                n,
            ) == crate::gen32::word(g, n),
    {
        broadcast use vstd::array::group_array_axioms;

    }
}

} // verus!
