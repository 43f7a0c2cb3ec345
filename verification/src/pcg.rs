//! The permuted congruential generators with 64 bits of state and 32 bits of
//! output.

use crate::counter::{
    counter_added, counter_carried, counter_modulus, counter_value, lemma_counter_added_value,
};
use crate::entropy::{random_u32s, random_u64s, EntropyError};
use crate::formulas::{
    lcg32_step, lcg64_jump, lcg64_step, lcg_step, lcg_steps, lemma_jump_by_one_is_step,
    lemma_jump_composes, lemma_steps_bounded, xsh_rr, xsh_rr_u64_to_u32, PCG_MUL_64,
};
use crate::gen32::{after, word, Gen32};
use crate::modular::{modulus32, modulus64};
use vstd::prelude::*;

verus! {

/// A permuted congruential generator with 32-bit output.
///
/// * Period: `2**64` when `inc` is odd, otherwise less
#[derive(Debug, Clone)]
pub struct PCG32 {
    /// The generator's state.
    ///
    /// This changes with each step of the generator. It's the generator's
    /// "position" within the output stream.
    pub state: u64,
    /// The generator's increment.
    ///
    /// This doesn't change as the generator advances. Instead it determines
    /// which of the possible output streams the generator will use.
    pub inc: u64,
}

impl PCG32 {
    /// The generator that `seed` makes of a seed and a stream selector: both
    /// are doubled and made odd, and the state is one step past the seed.
    pub open spec fn seeded(seed: u64, inc: u64) -> PCG32 {
        let odd_inc = (2 * inc + 1) % modulus64();
        let odd_seed = (2 * seed + 1) % modulus64();
        PCG32 {
            state: lcg_step(modulus64(), PCG_MUL_64 as int, odd_inc, odd_seed) as u64,
            inc: odd_inc as u64,
        }
    }

    /// Creates a new generator by directly using the value given.
    ///
    /// When a raw `state` value is selected manually, the initial output of
    /// the generator will frequently be 0. If the initial `state` is not from
    /// a randomization source then you should probably call `seed` instead.
    #[must_use]
    pub fn new(state: u64, inc: u64) -> (g: Self)
        ensures
            g == (PCG32 { state, inc }),
    {
        Self { state, inc }
    }

    /// The generator made of two words of seed material: the first is the
    /// state, the second, made odd, the increment.
    pub fn from_entropy(words: [u64; 2]) -> (g: Self)
        ensures
            g.state == words@[0],
            g.inc == words@[1] | 1,
            g.inc % 2 == 1,
    {
        let second: u64 = words[1];
        let inc: u64 = second | 1;
        assert(inc % 2 == 1) by (bit_vector)
            requires
                inc == second | 1,
        ;
        Self::new(words[0], inc)
    }

    /// Create a new generator seeded with data from the operating system.
    ///
    /// This method ensures that the `inc` of the new generator is odd. Where
    /// the operating system fails, its error code is handed on.
    pub fn from_getrandom() -> (made: Result<Self, EntropyError>)
        ensures
            made matches Ok(g) ==> g.inc % 2 == 1,
            made matches Err(e) ==> e.code != 0,
    {
        let mut buf: [u64; 2] = [0, 0];
        match random_u64s(&mut buf) {
            Ok(()) => Ok(Self::from_entropy(buf)),
            Err(e) => Err(e),
        }
    }

    /// Seed a new generator.
    pub fn seed(seed: u64, inc: u64) -> (g: Self)
        ensures
            g == Self::seeded(seed, inc),
    {
        let odd_seed: u64 = (seed << 1) | 1;
        let odd_inc: u64 = (inc << 1) | 1;
        assert(odd_seed == (2 * seed + 1) % 0x1_0000_0000_0000_0000) by (bit_vector)
            requires
                odd_seed == (seed << 1) | 1,
        ;
        assert(odd_inc == (2 * inc + 1) % 0x1_0000_0000_0000_0000) by (bit_vector)
            requires
                odd_inc == (inc << 1) | 1,
        ;
        let state: u64 = lcg64_step(PCG_MUL_64, odd_inc, odd_seed);
        Self { state, inc: odd_inc }
    }

    /// Generate the next `u32` in the sequence.
    pub fn next_u32(&mut self) -> (out: u32)
        ensures
            out == xsh_rr(old(self).state),
            final(self).state == lcg_step(
                modulus64(),
                PCG_MUL_64 as int,
                old(self).inc as int,
                old(self).state as int,
            ),
            final(self).inc == old(self).inc,
    {
        let new_state: u64 = lcg64_step(PCG_MUL_64, self.inc, self.state);
        let out: u32 = xsh_rr_u64_to_u32(self.state);
        self.state = new_state;
        out
    }

    /// Jump the generator the given number of steps forward in the sequence.
    ///
    /// This can go `x` steps forward in only about `log2(x)` time.
    ///
    /// Because the sequence is a loop, you can go "back" by `x` steps just by
    /// passing `x.wrapping_neg()` to go sufficiently far forward.
    pub fn jump(&mut self, delta: u64)
        ensures
            final(self).state == lcg_steps(
                modulus64(),
                PCG_MUL_64 as int,
                old(self).inc as int,
                old(self).state as int,
                delta as nat,
            ),
            final(self).inc == old(self).inc,
    {
        self.state = lcg64_jump(PCG_MUL_64, self.inc, self.state, delta);
    }
}

impl Gen32 for PCG32 {
    open spec fn output(&self) -> u32 {
        xsh_rr(self.state)
    }

    open spec fn successor(&self) -> Self {
        PCG32 {
            state: lcg_step(modulus64(), PCG_MUL_64 as int, self.inc as int, self.state as int)
                as u64,
            inc: self.inc,
        }
    }

    fn next_u32(&mut self) -> (out: u32) {
        PCG32::next_u32(self)
    }
}

/// The word number `n` of a generator is the permutation of the state that
/// `n` steps reach: what `n` calls of `next_u32` leave is what `jump(n)`
/// leaves.
pub proof fn lemma_word_is_permuted_jump(g: PCG32, n: nat)
    ensures
        after(g, n) == (PCG32 {
            state: lcg_steps(
                modulus64(),
                PCG_MUL_64 as int,
                g.inc as int,
                g.state as int,
                n,
            ) as u64,
            inc: g.inc,
        }),
        word(g, n) == xsh_rr(
            lcg_steps(modulus64(), PCG_MUL_64 as int, g.inc as int, g.state as int, n) as u64,
        ),
    decreases n,
{
    let m = modulus64();
    let mul = PCG_MUL_64 as int;
    let inc = g.inc as int;
    let state = g.state as int;
    if n > 0 {
        let before = (n - 1) as nat;
        lemma_word_is_permuted_jump(g.successor(), before);
        lemma_steps_bounded(m, mul, inc, state, 1);
        lemma_jump_by_one_is_step(m, mul, inc, state);
        lemma_jump_composes(m, mul, inc, state, 1, before);
        assert(1 + before == n);
    }
}

/// Two generators seeded alike yield the same word at every place.
pub proof fn lemma_same_seed_same_words(a: PCG32, b: PCG32, seed: u64, inc: u64, n: nat)
    requires
        a == PCG32::seeded(seed, inc),
        b == PCG32::seeded(seed, inc),
    ensures
        word(a, n) == word(b, n),
        after(a, n) == after(b, n),
{
}

/// A generator rebuilt from the state and the increment of another yields
/// the same words as the other from there on.
pub proof fn lemma_rebuilt_yields_the_same(g: PCG32, n: nat)
    ensures
        (PCG32 { state: g.state, inc: g.inc }) == g,
        word(PCG32 { state: g.state, inc: g.inc }, n) == word(g, n),
{
}

/// The multiplier of the extension words: the low half of `PCG_MUL_64`.
pub open spec fn ext_mul() -> int {
    0x4C95_7F2D
}

/// A permuted congruential generator with 32-bit output, extended to `K`
/// dimensions.
///
/// This is like the [`PCG32`], but replaces the single `inc` field with an
/// extension array of `K` elements. At each step of the generator a different
/// element of the array is `XOR`-ed with the output, and every time the
/// generator passes 0 the array is advanced. Given enough time, the entire
/// extension array will increment through all values (as if it were a
/// `32*K`-bit number).
///
/// * Period: `2**(64+32*k)`
#[derive(Debug, Clone)]
pub struct PCG32K<const K: usize> {
    /// The generator's state.
    ///
    /// This changes with each step of the generator. It's the generator's
    /// "position" within the output stream.
    pub state: u64,
    /// The generator's extension array. The generator's base output is XOR'd
    /// with elements of this array to determine the final output at each step.
    pub ext: [u32; K],
}

impl<const K: usize> PCG32K<K> {
    /// The word that the generator emits next: the permuted state, combined
    /// with the extension word that the state selects.
    pub open spec fn emitted(&self) -> u32 {
        if K > 0 {
            xsh_rr(self.state) ^ self.ext@[self.state as int % K as int]
        } else {
            xsh_rr(self.state)
        }
    }

    /// The generator after it has emitted a word: the state is one step on,
    /// and where that brings it to zero the extension array counts up by one.
    pub open spec fn advanced(&self) -> Self {
        let state = lcg_step(modulus64(), PCG_MUL_64 as int, 1, self.state as int) as u64;
        PCG32K {
            state,
            ext: if state == 0 {
                counter_added(self.ext, 1)
            } else {
                self.ext
            },
        }
    }

    /// Creates a new generator by directly using the value given.
    ///
    /// When a raw `state` value is selected manually, the initial output of
    /// the generator will frequently be 0. If the initial `state` is not from
    /// a randomization source then you should probably call `seed` instead.
    #[must_use]
    pub fn new(state: u64, ext: [u32; K]) -> (g: Self)
        ensures
            g == (PCG32K { state, ext }),
    {
        Self { state, ext }
    }

    /// Seed a new generator: the state is one step past the doubled, odd
    /// seed, and every extension word takes one step of its own.
    pub fn seed(seed: u64, ext: [u32; K]) -> (g: Self)
        ensures
            g.state == lcg_step(
                modulus64(),
                PCG_MUL_64 as int,
                1,
                (2 * seed + 1) % modulus64(),
            ),
            forall|i: int|
                0 <= i < K ==> g.ext@[i] == lcg_step(modulus32(), ext_mul(), 1, #[trigger] ext@[i] as int),
    {
        let odd_seed: u64 = (seed << 1) | 1;
        assert(odd_seed == (2 * seed + 1) % 0x1_0000_0000_0000_0000) by (bit_vector)
            requires
                odd_seed == (seed << 1) | 1,
        ;
        let state: u64 = lcg64_step(PCG_MUL_64, 1, odd_seed);
        let mul: u32 = #[verifier::truncate] (PCG_MUL_64 as u32);
        assert(mul == 0x4C95_7F2Du32) by (bit_vector)
            requires
                mul == 6364136223846793005u64 as u32,
        ;
        let ghost given = ext;
        let mut ext: [u32; K] = ext;
        let mut i: usize = 0;
        while i < K
            invariant
                i <= K,
                mul == ext_mul(),
                forall|j: int|
                    0 <= j < i ==> ext@[j] == lcg_step(modulus32(), ext_mul(), 1, #[trigger] given@[j] as int),
                forall|j: int| i <= j < K ==> ext@[j] == #[trigger] given@[j],
            decreases K - i,
        {
            let stepped: u32 = lcg32_step(mul, 1, ext[i]);
            ext[i] = stepped;
            i += 1;
        }
        Self { state, ext }
    }

    /// Create a new generator seeded with data from the operating system:
    /// the state first, the extension array after it.
    ///
    /// Where the operating system fails, its error code is handed on.
    pub fn from_getrandom() -> (made: Result<Self, EntropyError>)
        ensures
            made matches Err(e) ==> e.code != 0,
    {
        let mut state: [u64; 1] = [0];
        match random_u64s(&mut state) {
            Ok(()) => {
                let mut out: Self = Self::new(state[0], [0u32;K]);
                match out.scramble_ext_array() {
                    Ok(()) => Ok(out),
                    Err(e) => Err(e),
                }
            },
            Err(e) => Err(e),
        }
    }

    /// Fills the extension array with data from the operating system.
    ///
    /// This scrambles the generator's position within the output sequence.
    /// The state is left as it is. Where the operating system fails, its error
    /// code is handed on, and nothing is known of the extension array. Without
    /// extension words there is nothing to ask for: the call succeeds.
    pub fn scramble_ext_array(&mut self) -> (done: Result<(), EntropyError>)
        ensures
            final(self).state == old(self).state,
            K == 0 ==> done is Ok && *final(self) == *old(self),
            done matches Err(e) ==> e.code != 0,
    {
        broadcast use vstd::array::group_array_axioms;

        let ghost before = self.ext;
        let done = random_u32s(&mut self.ext);
        assert(K == 0 ==> self.ext =~= before);
        done
    }

    /// Generate the next `u32` in the sequence.
    pub fn next_u32(&mut self) -> (out: u32)
        ensures
            out == old(self).emitted(),
            *final(self) == old(self).advanced(),
    {
        let new_state: u64 = lcg64_step(PCG_MUL_64, 1, self.state);
        let out: u32 = if K > 0 {
            let ext_index: usize = (self.state % (K as u64)) as usize;
            xsh_rr_u64_to_u32(self.state) ^ self.ext[ext_index]
        } else {
            xsh_rr_u64_to_u32(self.state)
        };
        if new_state == 0 {
            self.ext_add(1)
        }
        self.state = new_state;
        out
    }

    /// Adds a value to the extension array.
    ///
    /// The given `delta` is added to the lowest index element of the
    /// extension array, and if that addition carries then the carry will add
    /// one to the next higher element, and so on.
    ///
    /// The generator will call this whenever its state value passes 0.
    pub fn ext_add(&mut self, delta: u32)
        ensures
            final(self).state == old(self).state,
            final(self).ext == counter_added(old(self).ext, delta),
            counter_value(final(self).ext@) == (counter_value(old(self).ext@) + delta)
                % counter_modulus(K as nat),
    {
        broadcast use vstd::array::group_array_axioms;

        let ghost start = self.ext;
        proof {
            lemma_counter_added_value(start, delta);
        }
        if K == 0 {
            return ;
        }
        let low: u32 = self.ext[0];
        let mut carry: bool = false;
        match low.checked_add(delta) {
            Some(sum) => {
                proof {
                    vstd::arithmetic::div_mod::lemma_small_mod(sum as nat, modulus32() as nat);
                }
                self.ext[0] = sum;
                assert(self.ext =~= vstd::array::spec_array_update(start, 0, sum));
            },
            None => {
                let wrapped: u32 = low.wrapping_add(delta);
                proof {
                    vstd::arithmetic::div_mod::lemma_fundamental_div_mod_converse(
                        low + delta,
                        modulus32(),
                        1,
                        wrapped as int,
                    );
                }
                self.ext[0] = wrapped;
                assert(self.ext =~= vstd::array::spec_array_update(start, 0, wrapped));
                carry = true;
            },
        }
        let mut i: usize = 1;
        while carry && i < K
            invariant
                1 <= i <= K,
                self.state == old(self).state,
                carry ==> counter_added(start, delta) == counter_carried(self.ext, i as nat),
                !carry ==> counter_added(start, delta) == self.ext,
            decreases K - i + (if carry { 1int } else { 0int }),
        {
            let ghost before = self.ext;
            let digit: u32 = self.ext[i];
            if digit == u32::MAX {
                self.ext[i] = 0;
                assert(self.ext =~= vstd::array::spec_array_update(before, i as int, 0u32));
                i += 1;
            } else {
                self.ext[i] = digit + 1;
                assert(self.ext =~= vstd::array::spec_array_update(
                    before,
                    i as int,
                    (digit + 1) as u32,
                ));
                carry = false;
            }
        }
    }
}

/// Without extension words the extended generator is the basic generator on
/// the stream of the increment 1: both yield the same word at every place.
pub proof fn lemma_no_extension_is_basic(g: PCG32K<0>, n: nat)
    ensures
        word(g, n) == word(PCG32 { state: g.state, inc: 1 }, n),
        after(g, n).state == after(PCG32 { state: g.state, inc: 1 }, n).state,
    decreases n,
{
    let basic = PCG32 { state: g.state, inc: 1 };
    if n > 0 {
        assert(g.successor().state == basic.successor().state);
        assert(basic.successor().inc == 1);
        lemma_no_extension_is_basic(g.successor(), (n - 1) as nat);
    }
}

impl<const K: usize> Gen32 for PCG32K<K> {
    open spec fn output(&self) -> u32 {
        self.emitted()
    }

    open spec fn successor(&self) -> Self {
        self.advanced()
    }

    fn next_u32(&mut self) -> (out: u32) {
        PCG32K::<K>::next_u32(self)
    }
}

} // verus!
