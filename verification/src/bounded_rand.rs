//! Unbiased sampling of `0..count` from uniform 32-bit words.

use crate::gen32::{after, word, Gen32};
use crate::modular::modulus32;
use crate::retry::{lemma_retry_fuel, lemma_retry_unfold, retry, retry_within, Trial};
use vstd::arithmetic::div_mod::{
    lemma_fundamental_div_mod, lemma_fundamental_div_mod_converse, lemma_mod_bound,
    lemma_mod_multiples_vanish,
};
use vstd::prelude::*;

verus! {

/// The number of low halves that are turned away for the bound `count`: what
/// the negated bound, taken as a 32-bit word, leaves when divided by `count`.
pub open spec fn reject_threshold(count: int) -> int {
    (modulus32() - count) % count
}

/// Where a uniform word is placed in `0..count`: the word is multiplied by
/// the bound; the high half of the product is the place, and the word is
/// turned away where the low half is below the threshold.
pub open spec fn placed(count: u32, word: u32) -> Option<u32> {
    let product = word as int * count as int;
    if product % modulus32() < reject_threshold(count as int) {
        None
    } else {
        Some((product / modulus32()) as u32)
    }
}

/// One trial of the sampler on a generator: its next word, placed.
pub open spec fn place_trial<G: Gen32>(count: u32) -> Trial<u32, G> {
    |g: G| Some((placed(count, g.output()), g.successor()))
}

/// What sampling `0..count` from the generator `g` returns and leaves; `None`
/// where every word that `g` ever yields is turned away.
pub open spec fn sampled<G: Gen32>(count: u32, g: G) -> Option<(u32, G)> {
    match retry(place_trial::<G>(count), g) {
        None => None,
        Some((value, rest, _)) => Some((value, rest)),
    }
}

/// A place is below the bound.
pub proof fn lemma_placed_in_range(count: u32, word: u32)
    requires
        count != 0,
    ensures
        placed(count, word) matches Some(place) ==> place < count,
        0 <= (word as int * count as int) / modulus32() < count,
        0 <= reject_threshold(count as int) < count,
{
    let product = word as int * count as int;
    lemma_mod_bound(modulus32() - count, count as int);
    lemma_fundamental_div_mod(product, modulus32());
    lemma_mod_bound(product, modulus32());
    assert(product < modulus32() * count) by (nonlinear_arith)
        requires
            product == word as int * count as int,
            0 <= word < modulus32(),
            0 < count,
    ;
    assert(product / modulus32() < count) by (nonlinear_arith)
        requires
            product == modulus32() * (product / modulus32()) + product % modulus32(),
            0 <= product % modulus32(),
            product < modulus32() * count,
            modulus32() > 0,
    ;
    assert(0 <= product / modulus32()) by (nonlinear_arith)
        requires
            product == modulus32() * (product / modulus32()) + product % modulus32(),
            product % modulus32() < modulus32(),
            0 <= product,
            modulus32() > 0,
    ;
}

/// A word is accepted exactly where the low half of its product with the
/// bound reaches the threshold, and its place is the high half.
pub proof fn lemma_accepted_from_threshold_on(count: u32, word: u32)
    requires
        count != 0,
    ensures
        placed(count, word) is Some <==> (word as int * count as int) % modulus32()
            >= reject_threshold(count as int),
        placed(count, word) matches Some(place) ==> place == (word as int * count as int)
            / modulus32(),
{
    lemma_placed_in_range(count, word);
}

/// The threshold is what `2^32` leaves when divided by the bound.
pub proof fn lemma_threshold_is_remainder(count: u32)
    requires
        count != 0,
    ensures
        reject_threshold(count as int) == modulus32() % (count as int),
{
    lemma_mod_multiples_vanish(-1, modulus32(), count as int);
    assert(count * (-1) + modulus32() == modulus32() - count);
}

/// The least word that is placed at `place`, for the bound `count`.
pub open spec fn first_word_placed(count: int, place: int) -> int {
    place * (modulus32() / count) + ((place + 1) * (modulus32() % count) + count - 1) / count
}

/// Every place has equally many words: the words placed at `place` are the
/// `2^32 / count` words from `first_word_placed(count, place)` on, and no
/// others. A uniform word that is accepted is therefore placed uniformly.
pub proof fn lemma_places_are_equally_many(count: u32, place: u32, word: u32)
    requires
        count != 0,
        place < count,
    ensures
        placed(count, word) == Some(place) <==> first_word_placed(count as int, place as int)
            <= word < first_word_placed(count as int, place as int) + modulus32() / (
        count as int),
{
    let m = modulus32();
    let c = count as int;
    let v = place as int;
    let r = word as int;
    let q = m / c;
    let t = m % c;
    lemma_fundamental_div_mod(m, c);
    lemma_mod_bound(m, c);
    lemma_threshold_is_remainder(count);
    let a = (v + 1) * t;
    let s = (a + c - 1) / c;
    let rem = (a + c - 1) % c;
    lemma_fundamental_div_mod(a + c - 1, c);
    lemma_mod_bound(a + c - 1, c);
    let p = r * c;
    lemma_fundamental_div_mod(p, m);
    lemma_mod_bound(p, m);
    let lo = v * q + s;
    assert(lo == first_word_placed(c, v));
    assert(v * m + t == c * (v * q) + a && (v + 1) * m == c * ((v + 1) * q) + a)
        by (nonlinear_arith)
        requires
            m == c * q + t,
            a == (v + 1) * t,
    ;
    lemma_placed_in_range(count, word);
    if placed(count, word) == Some(place) {
        assert(p / m == v);
        assert(v * m + t <= p < (v + 1) * m) by (nonlinear_arith)
            requires
                p == m * (p / m) + p % m,
                p / m == v,
                t <= p % m < m,
        ;
        assert(lo <= r < lo + q) by (nonlinear_arith)
            requires
                c * (v * q) + a <= r * c < c * ((v + 1) * q) + a,
                c * s == a + c - 1 - rem,
                0 <= rem < c,
                lo == v * q + s,
        ;
    }
    if lo <= r < lo + q {
        assert(v * m + t <= p < (v + 1) * m) by (nonlinear_arith)
            requires
                p == r * c,
                v * m + t == c * (v * q) + a,
                (v + 1) * m == c * ((v + 1) * q) + a,
                lo <= r < lo + q,
                c * s == a + c - 1 - rem,
                0 <= rem < c,
                lo == v * q + s,
        ;
        lemma_fundamental_div_mod_converse(p, m, v, p - v * m);
        assert(p - v * m == p - m * v) by (nonlinear_arith);
        assert(p == v * m + (p - v * m));
    }
}

/// Sampling returns the place of the first word that is not turned away, and
/// leaves the generator behind that word: where the word number `k` of `g` is
/// placed and none before it is, the sample is its place and `k + 1` words
/// are used up.
pub proof fn lemma_sampled_is_first_placed<G: Gen32>(count: u32, g: G, k: nat)
    requires
        placed(count, word(g, k)) is Some,
        forall|j: nat| j < k ==> placed(count, #[trigger] word(g, j)) is None,
    ensures
        sampled(count, g) == Some((placed(count, word(g, k))->0, after(g, k + 1))),
    decreases k,
{
    lemma_retry_unfold(place_trial::<G>(count), g);
    reveal_with_fuel(after, 2);
    if k > 0 {
        assert(word(g, 0) == g.output());
        assert forall|j: nat| j < k - 1 implies placed(
            count,
            #[trigger] word(g.successor(), j),
        ) is None by {
            assert(word(g.successor(), j) == word(g, j + 1));
        }
        lemma_sampled_is_first_placed(count, g.successor(), (k - 1) as nat);
    }
}

/// Sampling comes to an end on a generator that yields a word that is placed,
/// however late.
pub proof fn lemma_sampled_ends<G: Gen32>(count: u32, g: G, k: nat)
    requires
        placed(count, word(g, k)) is Some,
    ensures
        sampled(count, g) is Some,
    decreases k,
{
    lemma_retry_unfold(place_trial::<G>(count), g);
    reveal_with_fuel(after, 2);
    if k > 0 && placed(count, g.output()) is None {
        assert(word(g.successor(), (k - 1) as nat) == word(g, k));
        lemma_sampled_ends(count, g.successor(), (k - 1) as nat);
    }
}

/// Allows sampling a `u32` number in `0 .. count`.
///
/// The primary advantage of this type over using the modulus operator is that
/// every possible output has exactly the same chance.
#[derive(Debug, Clone, Copy, PartialEq, Eq, Hash)]
pub struct BoundedRandU32 {
    count: u32,
    threshold: u32,
}

impl BoundedRandU32 {
    /// The bound: outputs are in `0 .. bound`.
    pub closed spec fn bound(&self) -> u32 {
        self.count
    }

    /// The bound is not zero, and the threshold is the one that belongs to
    /// the bound.
    #[verifier::type_invariant]
    pub closed spec fn well_formed(&self) -> bool {
        self.count != 0 && self.threshold == reject_threshold(self.count as int)
    }

    /// Constructs a new value for the bound `count`.
    ///
    /// The bound must not be zero.
    pub fn new(count: u32) -> (made: Self)
        requires
            count != 0,
        ensures
            made.bound() == count,
    {
        let threshold: u32 = 0u32.wrapping_sub(count) % count;
        proof {
            lemma_mod_bound(modulus32() - count, count as int);
        }
        Self { count, threshold }
    }

    /// Constructs a new value, or `None` for the bound zero.
    pub fn try_new(count: u32) -> (made: Option<Self>)
        ensures
            count == 0 <==> made is None,
            made matches Some(b) ==> b.bound() == count,
    {
        if count > 0 {
            Some(Self::new(count))
        } else {
            None
        }
    }

    /// The number of possible outputs.
    pub fn count(self) -> (count: u32)
        ensures
            count == self.bound(),
            count != 0,
    {
        proof {
            use_type_invariant(&self);
        }
        self.count
    }

    /// Given a `u32`, place it into this bounded range.
    ///
    /// Returns `None` where the word is among those that must be turned away
    /// for every output to have the same chance.
    pub fn place_in_range(self, val: u32) -> (place: Option<u32>)
        ensures
            place == placed(self.bound(), val),
            place matches Some(p) ==> p < self.bound(),
    {
        proof {
            use_type_invariant(&self);
            lemma_placed_in_range(self.count, val);
        }
        assert(val as u64 * self.count as u64 <= 0xFFFF_FFFE_0000_0001) by (nonlinear_arith)
            requires
                val <= 0xFFFF_FFFF,
                self.count <= 0xFFFF_FFFF,
        ;
        let mul: u64 = (val as u64) * (self.count as u64);
        let low_part: u32 = #[verifier::truncate] (mul as u32);
        let high_part: u32 = #[verifier::truncate] ((mul >> 32) as u32);
        assert(low_part == mul % 0x1_0000_0000 && high_part == mul / 0x1_0000_0000)
            by (bit_vector)
            requires
                low_part == mul as u32,
                high_part == (mul >> 32) as u32,
        ;
        if low_part < self.threshold {
            None
        } else {
            Some(high_part)
        }
    }

    /// Draws words from the generator until one can be placed, and returns
    /// its place.
    ///
    /// The generator must at some point yield a word that is not turned away:
    /// on one that never does, no sampler can come to an end.
    pub fn sample<G: Gen32>(self, g: &mut G) -> (out: u32)
        requires
            sampled(self.bound(), *old(g)) is Some,
        ensures
            sampled(self.bound(), *old(g)) == Some((out, *final(g))),
            out < self.bound(),
    {
        let ghost trial = place_trial::<G>(self.bound());
        let ghost mut fuel: nat = lemma_retry_fuel(trial, *g);
        loop
            invariant
                trial == place_trial::<G>(self.bound()),
                retry_within(trial, *g, fuel) is Some,
                sampled(self.bound(), *g) == sampled(self.bound(), *old(g)),
            decreases fuel,
        {
            proof {
                lemma_retry_unfold(trial, *g);
                crate::retry::lemma_retry_enough_fuel(trial, *g, fuel);
            }
            let ghost before = *g;
            let word: u32 = g.next_u32();
            match self.place_in_range(word) {
                Some(place) => {
                    return place;
                },
                None => {
                    proof {
                        fuel = (fuel - 1) as nat;
                        crate::retry::lemma_retry_enough_fuel(trial, *g, fuel);
                    }
                },
            }
        }
    }
}

} // verus!
