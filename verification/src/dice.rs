//! Types for rolling dice.

use crate::bounded_rand::{sampled, BoundedRandU32};
use crate::gen32::Gen32;
use crate::modular::{
    lemma_wrapped_i32_absorbs, lemma_wrapped_i32_range, lemma_wrapping_add_i32, wrapped_i32,
};
use crate::retry::{lemma_retry_enough_fuel, lemma_retry_fuel, lemma_retry_unfold, retry, retry_within, Trial};
use vstd::prelude::*;

verus! {

/// What a roll of a die with `faces` faces shows on the generator `g`, and
/// the generator that is left: one more than the place sampled in
/// `0..faces`.
pub open spec fn die_rolled<G: Gen32>(faces: u32, g: G) -> Option<(i32, G)> {
    match sampled(faces, g) {
        None => None,
        Some((place, rest)) => Some(((place + 1) as i32, rest)),
    }
}

/// One trial of an exploding roll: a roll of the die, turned away where it
/// shows the highest face.
pub open spec fn explosion_trial<G: Gen32>(faces: u32) -> Trial<i32, G> {
    |g: G|
        match die_rolled(faces, g) {
            None => None,
            Some((roll, rest)) => Some(
                (
                    if roll != faces {
                        Some(roll)
                    } else {
                        None
                    },
                    rest,
                ),
            ),
        }
}

/// What an exploding roll returns on `g`, and the generator that is left.
///
/// The die is rolled until it shows another face than the highest. Each roll
/// of the highest face before that adds that face and one more to the total.
/// The roll that ended the run is dropped: one more roll is made and added.
/// The total wraps as a 32-bit signed integer.
pub open spec fn exploded<G: Gen32>(faces: u32, g: G) -> Option<(i32, G)> {
    match retry(explosion_trial::<G>(faces), g) {
        None => None,
        Some((_, rest, explosions)) => match die_rolled(faces, rest) {
            None => None,
            Some((last, end)) => Some(
                (wrapped_i32(explosions * (1 + faces) + last) as i32, end),
            ),
        },
    }
}

/// Stores data for a standard 1 through `N` sided die.
///
/// Produces values in `1 ..= N`
#[derive(Debug, Clone, Copy, PartialEq, Eq, Hash)]
pub struct StandardDie(BoundedRandU32);

impl StandardDie {
    /// The number of faces.
    pub closed spec fn faces(&self) -> u32 {
        self.0.bound()
    }

    /// Constructs a new die.
    ///
    /// The die must have a face.
    pub fn new(sides: u32) -> (die: Self)
        requires
            sides != 0,
        ensures
            die.faces() == sides,
    {
        Self(BoundedRandU32::new(sides))
    }

    /// The number of sides of this die.
    ///
    /// A number of faces above `i32::MAX` wraps, as the conversion to `i32`
    /// does.
    pub fn sides(self) -> (sides: i32)
        ensures
            sides == if self.faces() <= 0x7FFF_FFFF {
                self.faces() as int
            } else {
                self.faces() - 0x1_0000_0000
            },
    {
        let count: u32 = self.0.count();
        let sides: i32 = #[verifier::truncate] (count as i32);
        assert(sides as int == if count <= 0x7FFF_FFFFu32 {
            count as int
        } else {
            count - 0x1_0000_0000
        }) by (bit_vector)
            requires
                sides == count as i32,
        ;
        sides
    }

    /// Sample from the generator to get a die roll.
    ///
    /// The die must have no more than `i32::MAX` faces, for each of them to
    /// be shown as an `i32`, and the generator must at some point yield a
    /// word that the sampler accepts.
    pub fn sample<G: Gen32>(self, g: &mut G) -> (roll: i32)
        requires
            self.faces() <= 0x7FFF_FFFF,
            die_rolled(self.faces(), *old(g)) is Some,
        ensures
            die_rolled(self.faces(), *old(g)) == Some((roll, *final(g))),
            1 <= roll <= self.faces(),
    {
        let place: u32 = self.0.sample(g);
        1 + place as i32
    }
}

/// Stores data for an "exploding" 1 through `N` sided die.
///
/// When rolled, if a maximum value is rolled, then the die is rolled again
/// and added to the total. Successive rolls can also trigger additional
/// rolls on a maximum value.
#[derive(Debug, Clone, Copy, PartialEq, Eq, Hash)]
pub struct ExplodingDie(StandardDie);

impl ExplodingDie {
    /// The number of faces.
    pub closed spec fn faces(&self) -> u32 {
        self.0.faces()
    }

    /// Constructs an exploding die.
    ///
    /// The die must have a face.
    pub fn new(sides: u32) -> (die: Self)
        requires
            sides != 0,
        ensures
            die.faces() == sides,
    {
        Self(StandardDie::new(sides))
    }

    /// The number of sides of this die.
    pub fn sides(self) -> (sides: i32)
        ensures
            sides == if self.faces() <= 0x7FFF_FFFF {
                self.faces() as int
            } else {
                self.faces() - 0x1_0000_0000
            },
    {
        self.0.sides()
    }

    /// Sample from the generator to perform an exploding roll.
    ///
    /// The die must have no more than `i32::MAX` faces, and the generator
    /// must be one on which the rolls come to an end: a die with one face
    /// explodes for ever.
    pub fn sample<G: Gen32>(self, g: &mut G) -> (total: i32)
        requires
            self.faces() <= 0x7FFF_FFFF,
            exploded(self.faces(), *old(g)) is Some,
        ensures
            exploded(self.faces(), *old(g)) == Some((total, *final(g))),
    {
        let ghost faces = self.faces();
        let ghost trial = explosion_trial::<G>(faces);
        let ghost mut fuel: nat = lemma_retry_fuel(trial, *g);
        let ghost mut explosions: nat = 0;
        let mut t: i32 = 0;
        loop
            invariant
                faces == self.faces(),
                faces <= 0x7FFF_FFFF,
                trial == explosion_trial::<G>(faces),
                retry_within(trial, *g, fuel) is Some,
                t == wrapped_i32(explosions * (1 + faces)),
                retry(trial, *g) matches Some((_, rest, more)) && die_rolled(faces, rest) matches Some(
                    (last, end),
                ) && exploded(faces, *old(g)) == Some(
                    (wrapped_i32((explosions + more) * (1 + faces) + last) as i32, end),
                ),
            decreases fuel,
        {
            proof {
                lemma_retry_unfold(trial, *g);
                lemma_retry_enough_fuel(trial, *g, fuel);
            }
            let roll: i32 = self.0.sample(g);
            if roll != self.0.sides() {
                let last: i32 = self.0.sample(g);
                proof {
                    lemma_wrapping_add_i32(t, last);
                    lemma_wrapped_i32_absorbs(explosions * (1 + faces), last as int);
                    lemma_wrapped_i32_range(explosions * (1 + faces) + last);
                }
                return t.wrapping_add(last);
            }
            proof {
                fuel = (fuel - 1) as nat;
                lemma_retry_enough_fuel(trial, *g, fuel);
                lemma_wrapping_add_i32(t, 1);
                lemma_wrapping_add_i32(t.wrapping_add(1), faces as i32);
                lemma_wrapped_i32_absorbs(explosions * (1 + faces), 1);
                lemma_wrapped_i32_absorbs(explosions * (1 + faces) + 1, faces as int);
                assert((explosions + 1) * (1 + faces) == explosions * (1 + faces) + 1 + faces)
                    by (nonlinear_arith);
                explosions = explosions + 1;
            }
            t = t.wrapping_add(1).wrapping_add(self.sides());
        }
    }
}

} // verus!
