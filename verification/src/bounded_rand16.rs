//! Unbiased sampling of `0..count` from uniform 16-bit words: the top halves
//! of the words of a generator.

use crate::gen32::{after, next_u16, word, Gen32};
use crate::modular::modulus16;
use crate::retry::{lemma_retry_fuel, lemma_retry_unfold, retry, retry_within, Trial};
use vstd::arithmetic::div_mod::{
    lemma_fundamental_div_mod, lemma_fundamental_div_mod_converse, lemma_mod_bound,
    lemma_mod_multiples_vanish,
};
use vstd::prelude::*;

verus! {

/// The number of low halves that are turned away for the bound `count`: what
/// the negated bound, taken as a 16-bit word, leaves when divided by `count`.
pub open spec fn reject_threshold16(count: int) -> int {
    (modulus16() - count) % count
}

/// Where a uniform word is placed in `0..count`: the word is multiplied by
/// the bound; the high half of the product is the place, and the word is
/// turned away where the low half is below the threshold.
pub open spec fn placed16(count: u16, word: u16) -> Option<u16> {
    let product = word as int * count as int;
    if product % modulus16() < reject_threshold16(count as int) {
        None
    } else {
        Some((product / modulus16()) as u16)
    }
}

/// The top half of a word of a generator.
pub open spec fn top_half(word: u32) -> u16 {
    (word / 0x1_0000) as u16
}

/// One trial of the sampler on a generator: the top half of its next word,
/// placed.
pub open spec fn place_trial16<G: Gen32>(count: u16) -> Trial<u16, G> {
    |g: G| Some((placed16(count, top_half(g.output())), g.successor()))
}

/// What sampling `0..count` from the generator `g` returns and leaves; `None`
/// where every word that `g` ever yields is turned away.
pub open spec fn sampled16<G: Gen32>(count: u16, g: G) -> Option<(u16, G)> {
    match retry(place_trial16::<G>(count), g) {
        None => None,
        Some((value, rest, _)) => Some((value, rest)),
    }
}

/// A place is below the bound.
pub proof fn lemma_placed16_in_range(count: u16, word: u16)
    requires
        count != 0,
    ensures
        placed16(count, word) matches Some(place) ==> place < count,
        0 <= (word as int * count as int) / modulus16() < count,
        0 <= reject_threshold16(count as int) < count,
{
    let product = word as int * count as int;
    lemma_mod_bound(modulus16() - count, count as int);
    lemma_fundamental_div_mod(product, modulus16());
    lemma_mod_bound(product, modulus16());
    assert(product < modulus16() * count) by (nonlinear_arith)
        requires
            product == word as int * count as int,
            0 <= word < modulus16(),
            0 < count,
    ;
    assert(product / modulus16() < count) by (nonlinear_arith)
        requires
            product == modulus16() * (product / modulus16()) + product % modulus16(),
            0 <= product % modulus16(),
            product < modulus16() * count,
            modulus16() > 0,
    ;
    assert(0 <= product / modulus16()) by (nonlinear_arith)
        requires
            product == modulus16() * (product / modulus16()) + product % modulus16(),
            product % modulus16() < modulus16(),
            0 <= product,
            modulus16() > 0,
    ;
}

/// A word is accepted exactly where the low half of its product with the
/// bound reaches the threshold, and its place is the high half.
pub proof fn lemma_accepted16_from_threshold_on(count: u16, word: u16)
    requires
        count != 0,
    ensures
        placed16(count, word) is Some <==> (word as int * count as int) % modulus16()
            >= reject_threshold16(count as int),
        placed16(count, word) matches Some(place) ==> place == (word as int * count as int)
            / modulus16(),
{
    lemma_placed16_in_range(count, word);
}

/// The threshold is what `2^16` leaves when divided by the bound.
pub proof fn lemma_threshold16_is_remainder(count: u16)
    requires
        count != 0,
    ensures
        reject_threshold16(count as int) == modulus16() % (count as int),
{
    lemma_mod_multiples_vanish(-1, modulus16(), count as int);
    assert(count * (-1) + modulus16() == modulus16() - count);
}

/// The least word that is placed at `place`, for the bound `count`.
pub open spec fn first_word_placed16(count: int, place: int) -> int {
    place * (modulus16() / count) + ((place + 1) * (modulus16() % count) + count - 1) / count
}

/// Every place has equally many words: the words placed at `place` are the
/// `2^16 / count` words from `first_word_placed16(count, place)` on, and no
/// others. A uniform word that is accepted is therefore placed uniformly.
pub proof fn lemma_places16_are_equally_many(count: u16, place: u16, word: u16)
    requires
        count != 0,
        place < count,
    ensures
        placed16(count, word) == Some(place) <==> first_word_placed16(count as int, place as int)
            <= word < first_word_placed16(count as int, place as int) + modulus16() / (
        count as int),
{
    let m = modulus16();
    let c = count as int;
    let v = place as int;
    let r = word as int;
    let q = m / c;
    let t = m % c;
    lemma_fundamental_div_mod(m, c);
    lemma_mod_bound(m, c);
    lemma_threshold16_is_remainder(count);
    let a = (v + 1) * t;
    let s = (a + c - 1) / c;
    let rem = (a + c - 1) % c;
    lemma_fundamental_div_mod(a + c - 1, c);
    lemma_mod_bound(a + c - 1, c);
    let p = r * c;
    lemma_fundamental_div_mod(p, m);
    lemma_mod_bound(p, m);
    let lo = v * q + s;
    assert(lo == first_word_placed16(c, v));
    assert(v * m + t == c * (v * q) + a && (v + 1) * m == c * ((v + 1) * q) + a)
        by (nonlinear_arith)
        requires
            m == c * q + t,
            a == (v + 1) * t,
    ;
    lemma_placed16_in_range(count, word);
    if placed16(count, word) == Some(place) {
        assert(p / m == v);
        assert(v * m + t <= p < (v + 1) * m) by (nonlinear_arith)
            requires
                p == m * (p / m) + p % m,
                p / m == v,
                t <= p % m < m,
        ;
        assert(lo <= r < lo + q) by (nonlinear_arith)
            requires
                c * (v * q) + a <= r * c < c * ((v + 1) * q) + a,
                c * s == a + c - 1 - rem,
                0 <= rem < c,
                lo == v * q + s,
        ;
    }
    if lo <= r < lo + q {
        assert(v * m + t <= p < (v + 1) * m) by (nonlinear_arith)
            requires
                p == r * c,
                v * m + t == c * (v * q) + a,
                (v + 1) * m == c * ((v + 1) * q) + a,
                lo <= r < lo + q,
                c * s == a + c - 1 - rem,
                0 <= rem < c,
                lo == v * q + s,
        ;
        lemma_fundamental_div_mod_converse(p, m, v, p - v * m);
        assert(p - v * m == p - m * v) by (nonlinear_arith);
        assert(p == v * m + (p - v * m));
    }
}

/// Sampling returns the place of the first top half that is not turned away, and
/// leaves the generator behind that word: where the word number `k` of `g` is
/// placed and none before it is, the sample is its place and `k + 1` words
/// are used up.
pub proof fn lemma_sampled16_is_first_placed<G: Gen32>(count: u16, g: G, k: nat)
    requires
        placed16(count, top_half(word(g, k))) is Some,
        forall|j: nat| j < k ==> placed16(count, top_half(#[trigger] word(g, j))) is None,
    ensures
        sampled16(count, g) == Some((placed16(count, top_half(word(g, k)))->0, after(g, k + 1))),
    decreases k,
{
    lemma_retry_unfold(place_trial16::<G>(count), g);
    reveal_with_fuel(after, 2);
    if k > 0 {
        assert(word(g, 0) == g.output());
        assert forall|j: nat| j < k - 1 implies placed16(
            count,
            top_half(#[trigger] word(g.successor(), j)),
        ) is None by {
            assert(word(g.successor(), j) == word(g, j + 1));
        }
        lemma_sampled16_is_first_placed(count, g.successor(), (k - 1) as nat);
    }
}

/// Sampling comes to an end on a generator that yields a word that is placed,
/// however late.
pub proof fn lemma_sampled16_ends<G: Gen32>(count: u16, g: G, k: nat)
    requires
        placed16(count, top_half(word(g, k))) is Some,
    ensures
        sampled16(count, g) is Some,
    decreases k,
{
    lemma_retry_unfold(place_trial16::<G>(count), g);
    reveal_with_fuel(after, 2);
    if k > 0 && placed16(count, top_half(g.output())) is None {
        assert(word(g.successor(), (k - 1) as nat) == word(g, k));
        lemma_sampled16_ends(count, g.successor(), (k - 1) as nat);
    }
}

/// Allows sampling a `u16` number in `0 .. count`.
///
/// The primary advantage of this type over using the modulus operator is that
/// every possible output has exactly the same chance.
#[derive(Debug, Clone, Copy, PartialEq, Eq, Hash)]
pub struct BoundedRandU16 {
    count: u16,
    threshold: u16,
}

impl BoundedRandU16 {
    /// The bound: outputs are in `0 .. bound`.
    pub closed spec fn bound(&self) -> u16 {
        self.count
    }

    /// The bound is not zero, and the threshold is the one that belongs to
    /// the bound.
    #[verifier::type_invariant]
    pub closed spec fn well_formed(&self) -> bool {
        self.count != 0 && self.threshold == reject_threshold16(self.count as int)
    }

    /// Constructs a new value for the bound `count`.
    ///
    /// The bound must not be zero.
    pub fn new(count: u16) -> (made: Self)
        requires
            count != 0,
        ensures
            made.bound() == count,
    {
        let threshold: u16 = 0u16.wrapping_sub(count) % count;
        proof {
            lemma_mod_bound(modulus16() - count, count as int);
        }
        Self { count, threshold }
    }

    /// Constructs a new value, or `None` for the bound zero.
    pub fn try_new(count: u16) -> (made: Option<Self>)
        ensures
            count == 0 <==> made is None,
            made matches Some(b) ==> b.bound() == count,
    {
        if count > 0 {
            Some(Self::new(count))
        } else {
            None
        }
    }

    /// The number of possible outputs.
    pub fn count(self) -> (count: u16)
        ensures
            count == self.bound(),
            count != 0,
    {
        proof {
            use_type_invariant(&self);
        }
        self.count
    }

    /// Given a `u16`, place it into this bounded range.
    ///
    /// Returns `None` where the word is among those that must be turned away
    /// for every output to have the same chance.
    pub fn place_in_range(self, val: u16) -> (place: Option<u16>)
        ensures
            place == placed16(self.bound(), val),
            place matches Some(p) ==> p < self.bound(),
    {
        proof {
            use_type_invariant(&self);
            lemma_placed16_in_range(self.count, val);
        }
        assert(val as u32 * self.count as u32 <= 0xFFFE_0001) by (nonlinear_arith)
            requires
                val <= 0xFFFF,
                self.count <= 0xFFFF,
        ;
        let mul: u32 = (val as u32) * (self.count as u32);
        let low_part: u16 = #[verifier::truncate] (mul as u16);
        let high_part: u16 = #[verifier::truncate] ((mul >> 16) as u16);
        assert(low_part == mul % 0x1_0000 && high_part == mul / 0x1_0000)
            by (bit_vector)
            requires
                low_part == mul as u16,
                high_part == (mul >> 16) as u16,
        ;
        if low_part < self.threshold {
            None
        } else {
            Some(high_part)
        }
    }

    /// Draws words from the generator until one can be placed, and returns
    /// its place.
    ///
    /// The generator must at some point yield a word that is not turned away:
    /// on one that never does, no sampler can come to an end.
    pub fn sample<G: Gen32>(self, g: &mut G) -> (out: u16)
        requires
            sampled16(self.bound(), *old(g)) is Some,
        ensures
            sampled16(self.bound(), *old(g)) == Some((out, *final(g))),
            out < self.bound(),
    {
        let ghost trial = place_trial16::<G>(self.bound());
        let ghost mut fuel: nat = lemma_retry_fuel(trial, *g);
        loop
            invariant
                trial == place_trial16::<G>(self.bound()),
                retry_within(trial, *g, fuel) is Some,
                sampled16(self.bound(), *g) == sampled16(self.bound(), *old(g)),
            decreases fuel,
        {
            proof {
                lemma_retry_unfold(trial, *g);
                crate::retry::lemma_retry_enough_fuel(trial, *g, fuel);
            }
            let ghost before = *g;
            let word: u16 = next_u16(g);
            match self.place_in_range(word) {
                Some(place) => {
                    return place;
                },
                None => {
                    proof {
                        fuel = (fuel - 1) as nat;
                        crate::retry::lemma_retry_enough_fuel(trial, *g, fuel);
                    }
                },
            }
        }
    }
}

} // verus!
