//! The capability that every generator offers: one uniform 32-bit word per call.

use crate::bounded_rand16::{sampled16, BoundedRandU16};
use crate::bounded_rand::{lemma_placed_in_range, place_trial, reject_threshold, sampled};
use crate::dice::StandardDie;
use crate::games::{dice_rolled, drawn_total, hit_draw, step_ed4_rolled};
use crate::retry::{lemma_retry_enough_fuel, lemma_retry_fuel, lemma_retry_unfold, retry_within};
use vstd::prelude::*;

verus! {

/// A generator with 32 bits of output per step.
///
/// A generator is a deterministic machine: its value fixes the word that the
/// next call returns (`output`) and the value that the call leaves behind
/// (`successor`). Everything that is built on a generator is stated over these
/// two.
pub trait Gen32: Sized {
    /// The word that the next call of `next_u32` returns.
    spec fn output(&self) -> u32;

    /// The generator as the next call of `next_u32` leaves it.
    spec fn successor(&self) -> Self;

    /// Makes the generator create the next output.
    ///
    /// All `u32` values should have equal chance of occuring.
    fn next_u32(&mut self) -> (out: u32)
        ensures
            out == old(self).output(),
            *final(self) == old(self).successor(),
    ;
}

/// The generator after `n` calls of `next_u32`.
pub open spec fn after<G: Gen32>(g: G, n: nat) -> G
    decreases n,
{
    if n == 0 {
        g
    } else {
        after(g.successor(), (n - 1) as nat)
    }
}

/// The word that the call number `i` returns, counted from 0.
pub open spec fn word<G: Gen32>(g: G, i: nat) -> u32 {
    after(g, i).output()
}

/// A generator is deterministic: two generators with the same value yield
/// the same word at every place, and are left with the same value.
pub proof fn lemma_equal_generators_yield_alike<G: Gen32>(a: G, b: G, n: nat)
    requires
        a == b,
    ensures
        word(a, n) == word(b, n),
        after(a, n) == after(b, n),
{
}

/// Calls in a row add up: `n` calls and `m` more leave what `n + m` calls
/// leave.
pub proof fn lemma_after_adds_up<G: Gen32>(g: G, n: nat, m: nat)
    ensures
        after(after(g, n), m) == after(g, n + m),
        word(after(g, n), m) == word(g, n + m),
    decreases n,
{
    if n > 0 {
        lemma_after_adds_up(g.successor(), (n - 1) as nat, m);
        assert(n + m - 1 == (n - 1) as nat + m);
    }
}

/// Gives a uniformly distributed value: the next word, read as a signed
/// integer.
pub fn next_i32<G: Gen32>(g: &mut G) -> (out: i32)
    ensures
        out == if old(g).output() < 0x8000_0000 {
            old(g).output() as int
        } else {
            old(g).output() - 0x1_0000_0000
        },
        *final(g) == old(g).successor(),
{
    let word: u32 = g.next_u32();
    let out: i32 = #[verifier::truncate] (word as i32);
    assert(out as int == if word < 0x8000_0000u32 {
        word as int
    } else {
        word - 0x1_0000_0000
    }) by (bit_vector)
        requires
            out == word as i32,
    ;
    out
}

/// Gives a uniformly distributed value: whether the top bit of the next word
/// is set.
pub fn next_bool<G: Gen32>(g: &mut G) -> (out: bool)
    ensures
        out == (old(g).output() >= 0x8000_0000),
        *final(g) == old(g).successor(),
{
    next_i32(g) < 0
}

/// Produce a `u8`: the top 8 bits of the next word.
pub fn next_u8<G: Gen32>(g: &mut G) -> (out: u8)
    ensures
        out == old(g).output() / 0x100_0000,
        *final(g) == old(g).successor(),
{
    let word: u32 = g.next_u32();
    assert(word >> 24 == word / 0x100_0000 && word >> 24 <= 0xFF) by (bit_vector);
    (word >> 24) as u8
}

/// Produce a `u16`: the top 16 bits of the next word.
pub fn next_u16<G: Gen32>(g: &mut G) -> (out: u16)
    ensures
        out == old(g).output() / 0x1_0000,
        *final(g) == old(g).successor(),
{
    let word: u32 = g.next_u32();
    assert(word >> 16 == word / 0x1_0000 && word >> 16 <= 0xFFFF) by (bit_vector);
    (word >> 16) as u16
}

/// Produce a `u64`: the next word is the low half, the one after it the high
/// half.
pub fn next_u64<G: Gen32>(g: &mut G) -> (out: u64)
    ensures
        out == word(*old(g), 0) + 0x1_0000_0000 * word(*old(g), 1),
        *final(g) == after(*old(g), 2),
{
    proof {
        reveal_with_fuel(after, 3);
    }
    let l: u64 = g.next_u32() as u64;
    let h: u64 = g.next_u32() as u64;
    assert((h << 32 | l) == l + 0x1_0000_0000 * h) by (bit_vector)
        requires
            l <= 0xFFFF_FFFF,
            h <= 0xFFFF_FFFF,
    ;
    h << 32 | l
}

/// Gives a value within `0 .. b`
///
/// This is often more efficient than making a `BoundedRandU32` if you don't
/// need to use a specific bound value more than once.
///
/// The bound must not be zero, and the generator must at some point yield a
/// word that is not turned away.
pub fn next_bounded<G: Gen32>(g: &mut G, b: u32) -> (place: u32)
    requires
        b != 0,
        sampled(b, *old(g)) is Some,
    ensures
        sampled(b, *old(g)) == Some((place, *final(g))),
        place < b,
{
    let ghost trial = place_trial::<G>(b);
    let ghost mut fuel: nat = lemma_retry_fuel(trial, *g);
    let ghost mut before: G = *g;
    proof {
        lemma_retry_unfold(trial, before);
        lemma_placed_in_range(b, before.output());
    }
    let mut x: u64 = g.next_u32() as u64;
    assert(b as u64 * x <= 0xFFFF_FFFE_0000_0001) by (nonlinear_arith)
        requires
            b <= 0xFFFF_FFFF,
            x <= 0xFFFF_FFFF,
    ;
    let mut mul: u64 = (b as u64) * x;
    let mut low: u32 = #[verifier::truncate] (mul as u32);
    assert(low == mul % 0x1_0000_0000) by (bit_vector)
        requires
            low == mul as u32,
    ;
    assert(x * b == b * x) by (nonlinear_arith);
    if low < b {
        let threshold: u32 = 0u32.wrapping_sub(b) % b;
        while low < threshold
            invariant
                b != 0,
                trial == place_trial::<G>(b),
                threshold == reject_threshold(b as int),
                retry_within(trial, before, fuel) is Some,
                sampled(b, before) == sampled(b, *old(g)),
                *g == before.successor(),
                x == before.output(),
                mul == x * b,
                low == mul % 0x1_0000_0000,
            decreases fuel,
        {
            proof {
                lemma_retry_unfold(trial, before);
                lemma_retry_enough_fuel(trial, before, fuel);
                fuel = (fuel - 1) as nat;
                lemma_retry_enough_fuel(trial, *g, fuel);
                before = *g;
                lemma_retry_unfold(trial, before);
            }
            x = g.next_u32() as u64;
            assert(b as u64 * x <= 0xFFFF_FFFE_0000_0001) by (nonlinear_arith)
                requires
                    b <= 0xFFFF_FFFF,
                    x <= 0xFFFF_FFFF,
            ;
            mul = (b as u64) * x;
            low = #[verifier::truncate] (mul as u32);
            assert(low == mul % 0x1_0000_0000) by (bit_vector)
                requires
                    low == mul as u32,
            ;
            assert(x * b == b * x) by (nonlinear_arith);
        }
    }
    proof {
        lemma_retry_unfold(trial, before);
        lemma_placed_in_range(b, before.output());
    }
    let high: u32 = #[verifier::truncate] ((mul >> 32) as u32);
    assert(high == mul / 0x1_0000_0000) by (bit_vector)
        requires
            high == (mul >> 32) as u32,
    ;
    high
}

/// Gives a value in the range `1 ..= 4`: one more than the top 2 bits of the
/// next word.
pub fn d4<G: Gen32>(g: &mut G) -> (roll: i32)
    ensures
        roll == old(g).output() / 0x4000_0000 + 1,
        1 <= roll <= 4,
        *final(g) == old(g).successor(),
{
    let word: u32 = g.next_u32();
    assert(word >> 30 == word / 0x4000_0000 && word >> 30 <= 3) by (bit_vector);
    let base: u32 = word >> 30;
    base as i32 + 1
}

/// Gives a value in the range `1 ..= 8`: one more than the top 3 bits of the
/// next word.
pub fn d8<G: Gen32>(g: &mut G) -> (roll: i32)
    ensures
        roll == old(g).output() / 0x2000_0000 + 1,
        1 <= roll <= 8,
        *final(g) == old(g).successor(),
{
    let word: u32 = g.next_u32();
    assert(word >> 29 == word / 0x2000_0000 && word >> 29 <= 7) by (bit_vector);
    let base: u32 = word >> 29;
    base as i32 + 1
}

/// One more than a place sampled in `0..faces` from the top halves of the
/// words of the generator.
fn roll_of<G: Gen32>(g: &mut G, faces: u16) -> (roll: i32)
    requires
        faces != 0,
        sampled16(faces, *old(g)) is Some,
    ensures
        sampled16(faces, *old(g)) matches Some((place, rest)) && roll == place + 1 && *final(g)
            == rest,
        1 <= roll <= faces,
{
    let base: u16 = BoundedRandU16::new(faces).sample(g);
    base as i32 + 1
}

/// Gives a value in the range `1 ..= 6`
///
/// The generator must at some point yield a word that the sampler accepts.
pub fn d6<G: Gen32>(g: &mut G) -> (roll: i32)
    requires
        sampled16(6, *old(g)) is Some,
    ensures
        sampled16(6, *old(g)) matches Some((place, rest)) && roll == place + 1 && *final(g)
            == rest,
        1 <= roll <= 6,
{
    roll_of(g, 6)
}

/// Gives a value in the range `1 ..= 10`
///
/// The generator must at some point yield a word that the sampler accepts.
pub fn d10<G: Gen32>(g: &mut G) -> (roll: i32)
    requires
        sampled16(10, *old(g)) is Some,
    ensures
        sampled16(10, *old(g)) matches Some((place, rest)) && roll == place + 1 && *final(g)
            == rest,
        1 <= roll <= 10,
{
    roll_of(g, 10)
}

/// Gives a value in the range `1 ..= 12`
///
/// The generator must at some point yield a word that the sampler accepts.
pub fn d12<G: Gen32>(g: &mut G) -> (roll: i32)
    requires
        sampled16(12, *old(g)) is Some,
    ensures
        sampled16(12, *old(g)) matches Some((place, rest)) && roll == place + 1 && *final(g)
            == rest,
        1 <= roll <= 12,
{
    roll_of(g, 12)
}

/// Gives a value in the range `1 ..= 20`
///
/// The generator must at some point yield a word that the sampler accepts.
pub fn d20<G: Gen32>(g: &mut G) -> (roll: i32)
    requires
        sampled16(20, *old(g)) is Some,
    ensures
        sampled16(20, *old(g)) matches Some((place, rest)) && roll == place + 1 && *final(g)
            == rest,
        1 <= roll <= 20,
{
    roll_of(g, 20)
}

/// Performs an `XdY` style dice roll.
///
/// * If `count` or `sides` are less than 0, the output is 0.
/// * Requires linear time to compute based on `count`. Expected inputs are
///   20 or less.
///
/// For a `count` that is not negative this is the roll of `games::dice`; a
/// negative `count` rolls nothing.
///
/// The generator must be one on which each of the rolls comes to an end.
pub fn dice<G: Gen32>(g: &mut G, count: i32, sides: i32) -> (total: i32)
    requires
        count >= 0 ==> dice_rolled(*old(g), count, sides) is Some,
    ensures
        count < 0 ==> total == 0 && *final(g) == *old(g),
        count >= 0 ==> dice_rolled(*old(g), count, sides) == Some((total, *final(g))),
{
    if count < 0 {
        0
    } else {
        crate::games::dice(g, count, sides)
    }
}

/// Performs a "step" roll according to the 4e chart.
///
/// * The average output of any positive value is approximately equal to the
///   input, with no hard upper bound.
/// * The output of any non-positive value is 1.
/// * Requires linear time to compute. Expected inputs are 30 or less.
///
/// For a positive `step` this is the roll of `games::step_ed4`.
///
/// The generator must be one on which each of the rolls comes to an end.
pub fn step_ed4<G: Gen32>(g: &mut G, step: i32) -> (total: i32)
    requires
        step >= 1 ==> step_ed4_rolled(*old(g), step) is Some,
    ensures
        step < 1 ==> total == 1 && *final(g) == *old(g),
        step >= 1 ==> step_ed4_rolled(*old(g), step) == Some((total, *final(g))),
{
    if step < 1 {
        1
    } else {
        crate::games::step_ed4(g, step)
    }
}

/// What a pool of `size` six-sided dice returns on `g`, and the generator
/// that is left: the number of dice that show a 5 or a 6.
pub open spec fn pool_rolled<G: Gen32>(g: G, size: u32) -> Option<(u32, G)> {
    match drawn_total(hit_draw::<G>(), g, size as nat) {
        None => None,
        Some((hits, end)) => Some((hits as u32, end)),
    }
}

/// Rolls an After Sundown style dice pool.
///
/// * `size` D6s are rolled. This returns the number of them that are a 5 or
///   6.
///
/// The generator must be one on which each of the rolls comes to an end.
pub fn sundown_pool<G: Gen32>(g: &mut G, size: u32) -> (hits: u32)
    requires
        pool_rolled(*old(g), size) is Some,
    ensures
        pool_rolled(*old(g), size) == Some((hits, *final(g))),
        hits <= size,
{
    let d6: StandardDie = StandardDie::new(6);
    let ghost draw = hit_draw::<G>();
    let ghost wanted = drawn_total(draw, *g, size as nat);
    let mut hits: u32 = 0;
    let mut left: u32 = size;
    while left > 0
        invariant
            d6.faces() == 6,
            draw == hit_draw::<G>(),
            left <= size,
            hits <= size - left,
            drawn_total(draw, *g, left as nat) matches Some((sum, end)) && wanted == Some(
                (hits + sum, end),
            ),
        decreases left,
    {
        if d6.sample(g) >= 5 {
            hits += 1
        }
        left -= 1;
    }
    hits
}

} // verus!
