//! Shots of a tabletop war game, rolled with six-sided dice.

use crate::bounded_rand16::sampled16;
use crate::gen32::{d6, Gen32};
use vstd::prelude::*;

verus! {

/// What a six-sided die shows on `g`, and the generator that is left.
pub open spec fn d6_rolled<G: Gen32>(g: G) -> Option<(int, G)> {
    match sampled16(6, g) {
        None => None,
        Some((place, rest)) => Some((place + 1, rest)),
    }
}

/// Whether one of up to two rolls reaches `target`: the second die is rolled
/// only where the first falls short.
pub open spec fn reached_in_two<G: Gen32>(g: G, target: int) -> Option<(bool, G)> {
    match d6_rolled(g) {
        None => None,
        Some((first, rest)) => if first >= target {
            Some((true, rest))
        } else {
            match d6_rolled(rest) {
                None => None,
                Some((second, end)) => Some((second >= target, end)),
            }
        },
    }
}

/// Whether a hit wounds: on a 6 of either of two rolls, or where the second
/// roll is a 4 or a 5 and a third stays below 3.
pub open spec fn wounded<G: Gen32>(g: G) -> Option<(bool, G)> {
    match d6_rolled(g) {
        None => None,
        Some((first, g1)) => if first == 6 {
            Some((true, g1))
        } else {
            match d6_rolled(g1) {
                None => None,
                Some((second, g2)) => if second == 6 {
                    Some((true, g2))
                } else if second >= 4 {
                    match d6_rolled(g2) {
                        None => None,
                        Some((third, g3)) => Some((third < 3, g3)),
                    }
                } else {
                    Some((false, g2))
                },
            }
        },
    }
}

/// The damage of a shot of a combi weapon on `g`: 1 where one of two rolls
/// hits on 4 and one of two more wounds on 4.
pub open spec fn combi_shot<G: Gen32>(g: G) -> Option<(u64, G)> {
    match reached_in_two(g, 4) {
        None => None,
        Some((hit, rest)) => if hit {
            match reached_in_two(rest, 4) {
                None => None,
                Some((wound, end)) => Some(
                    (
                        if wound {
                            1u64
                        } else {
                            0u64
                        },
                        end,
                    ),
                ),
            }
        } else {
            Some((0u64, rest))
        },
    }
}

/// The damage of a shot of a rifle on `g`: 1 where one of two rolls hits, on
/// 3 or on 2 for a heavy one, and the hit wounds.
pub open spec fn rifle_shot<G: Gen32>(g: G, heavy: bool) -> Option<(u64, G)> {
    match reached_in_two(
        g,
        if heavy {
            2
        } else {
            3
        },
    ) {
        None => None,
        Some((hit, rest)) => if hit {
            match wounded(rest) {
                None => None,
                Some((wound, end)) => Some(
                    (
                        if wound {
                            1u64
                        } else {
                            0u64
                        },
                        end,
                    ),
                ),
            }
        } else {
            Some((0u64, rest))
        },
    }
}

/// The number of hits of a heavy rifle on `g`: 2 for a 6, 1 for a roll that
/// reaches `target`; a roll that falls short is made once more.
pub open spec fn heavy_hits<G: Gen32>(g: G, target: int) -> Option<(int, G)> {
    match d6_rolled(g) {
        None => None,
        Some((first, rest)) => if first == 6 {
            Some((2int, rest))
        } else if first >= target {
            Some((1int, rest))
        } else {
            match d6_rolled(rest) {
                None => None,
                Some((second, end)) => Some(
                    (
                        if second == 6 {
                            2int
                        } else if second >= target {
                            1int
                        } else {
                            0int
                        },
                        end,
                    ),
                ),
            }
        },
    }
}

/// The damage of `hits` hits on `g`: 2 for each that wounds.
pub open spec fn hits_damage<G: Gen32>(g: G, hits: nat) -> Option<(int, G)>
    decreases hits,
{
    if hits == 0 {
        Some((0int, g))
    } else {
        match wounded(g) {
            None => None,
            Some((wound, rest)) => match hits_damage(rest, (hits - 1) as nat) {
                None => None,
                Some((damage, end)) => Some(
                    (
                        damage + if wound {
                            2int
                        } else {
                            0int
                        },
                        end,
                    ),
                ),
            },
        }
    }
}

/// The damage of a shot of a heavy rifle on `g`: its hits, on 4 or on 3 for
/// a heavy one, and 2 for each that wounds.
pub open spec fn heavy_shot<G: Gen32>(g: G, heavy: bool) -> Option<(u64, G)> {
    match heavy_hits(
        g,
        if heavy {
            3
        } else {
            4
        },
    ) {
        None => None,
        Some((hits, rest)) => match hits_damage(rest, hits as nat) {
            None => None,
            Some((damage, end)) => Some((damage as u64, end)),
        },
    }
}

/// Rolls up to two dice for `target`.
fn reach_in_two<G: Gen32>(g: &mut G, target: i32) -> (reached: bool)
    requires
        reached_in_two(*old(g), target as int) is Some,
    ensures
        reached_in_two(*old(g), target as int) == Some((reached, *final(g))),
{
    d6(g) >= target || d6(g) >= target
}

/// Rolls for a wound.
fn wound<G: Gen32>(g: &mut G) -> (wounds: bool)
    requires
        wounded(*old(g)) is Some,
    ensures
        wounded(*old(g)) == Some((wounds, *final(g))),
{
    let wound_roll: i32 = d6(g);
    if wound_roll == 6 {
        return true;
    }
    let wound_roll: i32 = d6(g);
    if wound_roll == 6 {
        true
    } else if wound_roll >= 4 {
        d6(g) < 3
    } else {
        false
    }
}

/// **Returns:** Damage from a single shot.
///
/// The generator must be one on which each of the rolls comes to an end.
pub fn combi_weapon<G: Gen32>(g: &mut G) -> (damage: u64)
    requires
        combi_shot(*old(g)) is Some,
    ensures
        combi_shot(*old(g)) == Some((damage, *final(g))),
{
    let to_hit: i32 = 4;
    let to_wound: i32 = 4;
    if reach_in_two(g, to_hit) {
        if reach_in_two(g, to_wound) {
            return 1;
        }
    }
    0
}

/// **Returns:** Damage from a single shot.
///
/// The generator must be one on which each of the rolls comes to an end.
pub fn sternguard_rifle<G: Gen32>(g: &mut G, heavy: bool) -> (damage: u64)
    requires
        rifle_shot(*old(g), heavy) is Some,
    ensures
        rifle_shot(*old(g), heavy) == Some((damage, *final(g))),
{
    let to_hit: i32 = if heavy {
        2
    } else {
        3
    };
    if reach_in_two(g, to_hit) {
        if wound(g) {
            return 1;
        }
    }
    0
}

/// **Returns:** Damage from a single shot.
///
/// The generator must be one on which each of the rolls comes to an end.
pub fn heavy_rifle<G: Gen32>(g: &mut G, heavy: bool) -> (damage: u64)
    requires
        heavy_shot(*old(g), heavy) is Some,
    ensures
        heavy_shot(*old(g), heavy) == Some((damage, *final(g))),
{
    let to_hit: i32 = if heavy {
        3
    } else {
        4
    };
    let mut hits: u32 = 0;
    let hit_roll: i32 = d6(g);
    if hit_roll == 6 {
        hits = 2;
    } else if hit_roll >= to_hit {
        hits = 1;
    } else {
        let hit_roll: i32 = d6(g);
        if hit_roll == 6 {
            hits = 2;
        } else if hit_roll >= to_hit {
            hits = 1;
        }
    }
    let ghost wanted = hits_damage(*g, hits as nat);
    let mut damage: u64 = 0;
    let mut left: u32 = hits;
    while left > 0
        invariant
            left <= hits <= 2,
            damage <= 2 * (hits - left),
            hits_damage(*g, left as nat) matches Some((more, end)) && wanted == Some(
                (damage + more, end),
            ),
        decreases left,
    {
        if wound(g) {
            damage += 2;
        }
        left -= 1;
    }
    damage
}

} // verus!
