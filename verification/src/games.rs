//! Dice formulas of some tabletop and video games.

use crate::bounded_rand::sampled;
use crate::dice::{die_rolled, exploded, ExplodingDie, StandardDie};
use crate::gen32::{next_bool, next_bounded, Gen32};
use crate::modular::{
    lemma_wrapped_i32_absorbs, lemma_wrapped_i32_range, lemma_wrapping_add_i32,
    lemma_wrapping_sub_i32, wrapped_i32,
};
use crate::retry::{lemma_retry_enough_fuel, lemma_retry_fuel, lemma_retry_unfold, retry, retry_within, Trial};
use vstd::prelude::*;

verus! {

/// A draw of a number from a generator: the number and the generator that is
/// left, or `None` where the draw never ends.
pub type Draw<G> = spec_fn(G) -> Option<(int, G)>;

/// The sum of `n` draws in a row, and the generator that the last one
/// leaves.
pub open spec fn drawn_total<G>(draw: Draw<G>, g: G, n: nat) -> Option<(int, G)>
    decreases n,
{
    if n == 0 {
        Some((0int, g))
    } else {
        match draw(g) {
            None => None,
            Some((value, rest)) => match drawn_total(draw, rest, (n - 1) as nat) {
                None => None,
                Some((sum, end)) => Some((value + sum, end)),
            },
        }
    }
}

/// The draw that rolls a die with `faces` faces.
pub open spec fn roll_draw<G: Gen32>(faces: u32) -> Draw<G> {
    |g: G|
        match die_rolled(faces, g) {
            None => None,
            Some((roll, rest)) => Some((roll as int, rest)),
        }
}

/// The draw that rolls a six-sided die and counts one for a 5 or a 6.
pub open spec fn hit_draw<G: Gen32>() -> Draw<G> {
    |g: G|
        match die_rolled(6, g) {
            None => None,
            Some((roll, rest)) => Some(
                (
                    if roll >= 5 {
                        1int
                    } else {
                        0int
                    },
                    rest,
                ),
            ),
        }
}

/// The draw that makes an exploding roll of a die with `faces` faces.
pub open spec fn explode_draw<G: Gen32>(faces: u32) -> Draw<G> {
    |g: G|
        match exploded(faces, g) {
            None => None,
            Some((total, rest)) => Some((total as int, rest)),
        }
}

/// The number without its sign.
pub open spec fn magnitude(x: int) -> nat {
    if x >= 0 {
        x as nat
    } else {
        (-x) as nat
    }
}

/// What an `XdY` roll returns on `g`, and the generator that is left: 0 for
/// a die without faces, `count` for a die with one face, else the sum of
/// `count` rolls, negated for a negative `count`, wrapped to 32 bits.
pub open spec fn dice_rolled<G: Gen32>(g: G, count: i32, sides: i32) -> Option<(i32, G)> {
    if sides < 1 {
        Some((0i32, g))
    } else if sides == 1 {
        Some((count, g))
    } else {
        match drawn_total(roll_draw::<G>(sides as u32), g, magnitude(count as int)) {
            None => None,
            Some((sum, end)) => Some(
                (
                    wrapped_i32(
                        if count >= 0 {
                            sum
                        } else {
                            -sum
                        },
                    ) as i32,
                    end,
                ),
            ),
        }
    }
}

/// Performs an `XdY` style dice roll, such as `3d6`.
///
/// * If `sides` is 0 or less, the output will be 0.
/// * If `count` is negative the output will be negative.
/// * Runs in `O(abs(count))` time.
/// * Expected `count` values are generally -20 to +20.
///
/// The generator must be one on which each of the rolls comes to an end.
pub fn dice<G: Gen32>(g: &mut G, count: i32, sides: i32) -> (total: i32)
    requires
        dice_rolled(*old(g), count, sides) is Some,
    ensures
        dice_rolled(*old(g), count, sides) == Some((total, *final(g))),
{
    if sides < 1 {
        return 0;
    }
    if sides == 1 {
        return count;
    }
    let range: StandardDie = StandardDie::new(sides as u32);
    let ghost draw = roll_draw::<G>(sides as u32);
    let ghost wanted = drawn_total(draw, *g, magnitude(count as int));
    let ghost mut so_far: int = 0;
    let mut left: i32 = count;
    let mut t: i32 = 0;
    if left >= 0 {
        while left > 0
            invariant
                2 <= sides,
                range.faces() == sides,
                draw == roll_draw::<G>(sides as u32),
                0 <= left,
                t == wrapped_i32(so_far),
                drawn_total(draw, *g, left as nat) matches Some((sum, end)) && wanted == Some(
                    (so_far + sum, end),
                ),
            decreases left,
        {
            let roll: i32 = range.sample(g);
            proof {
                lemma_wrapping_add_i32(t, roll);
                lemma_wrapped_i32_absorbs(so_far, roll as int);
                so_far = so_far + roll;
            }
            t = t.wrapping_add(roll);
            left -= 1;
        }
        proof {
            lemma_wrapped_i32_range(so_far);
        }
    } else {
        while left < 0
            invariant
                2 <= sides,
                range.faces() == sides,
                draw == roll_draw::<G>(sides as u32),
                left <= 0,
                t == wrapped_i32(-so_far),
                drawn_total(draw, *g, (-left) as nat) matches Some((sum, end)) && wanted == Some(
                    (so_far + sum, end),
                ),
            decreases -left,
        {
            let roll: i32 = range.sample(g);
            proof {
                lemma_wrapping_sub_i32(t, roll);
                lemma_wrapped_i32_absorbs(-so_far, -roll as int);
                so_far = so_far + roll;
            }
            t = t.wrapping_sub(roll);
            left += 1;
        }
        proof {
            lemma_wrapped_i32_range(-so_far);
        }
    }
    t
}

/// What an After Sundown pool of `size` dice returns on `g`, and the
/// generator that is left: the number of six-sided dice that show a 5 or a
/// 6, negated for a negative `size`.
pub open spec fn sundown_rolled<G: Gen32>(g: G, size: i32) -> Option<(i32, G)> {
    match drawn_total(hit_draw::<G>(), g, magnitude(size as int)) {
        None => None,
        Some((hits, end)) => Some(
            (
                (if size >= 0 {
                    hits
                } else {
                    -hits
                }) as i32,
                end,
            ),
        ),
    }
}

/// Rolls an After Sundown style dice pool.
///
/// * `size` is the number of D6s to roll.
/// * The output is the number of rolls that showed a 5 or a 6.
/// * If `size` is negative the output will be negative.
///
/// The generator must be one on which each of the rolls comes to an end.
pub fn after_sundown<G: Gen32>(g: &mut G, size: i32) -> (hits: i32)
    requires
        sundown_rolled(*old(g), size) is Some,
    ensures
        sundown_rolled(*old(g), size) == Some((hits, *final(g))),
        size >= 0 ==> 0 <= hits <= size,
        size < 0 ==> size <= hits <= 0,
{
    let d6: StandardDie = StandardDie::new(6);
    let ghost draw = hit_draw::<G>();
    let ghost wanted = drawn_total(draw, *g, magnitude(size as int));
    let mut hits: i32 = 0;
    let sign: i32 = if size > 0 {
        1
    } else if size < 0 {
        -1
    } else {
        0
    };
    let mut left: i32 = size;
    while left != 0
        invariant
            d6.faces() == 6,
            draw == hit_draw::<G>(),
            sign == if size > 0 {
                1int
            } else if size < 0 {
                -1int
            } else {
                0int
            },
            size >= 0 ==> 0 <= left <= size && 0 <= hits <= size - left,
            size < 0 ==> size <= left <= 0 && size - left <= hits <= 0,
            drawn_total(draw, *g, magnitude(left as int)) matches Some((sum, end)) && wanted
                == Some((magnitude(hits as int) + sum, end)),
        decreases magnitude(left as int),
    {
        let roll: i32 = d6.sample(g);
        if roll >= 5 {
            hits += sign;
        }
        left -= sign;
    }
    hits
}

/// The faces of the die that a step of 1 to 13 rolls first.
pub open spec fn step_first_die(step: int) -> u32 {
    if step <= 3 {
        4
    } else if step == 4 || step == 8 {
        6
    } else if step == 5 || step == 9 || step == 10 {
        8
    } else if step == 6 || step == 11 || step == 12 {
        10
    } else {
        12
    }
}

/// The faces of the die that a step of 8 to 13 rolls second; 0 for a step
/// that rolls one die.
pub open spec fn step_second_die(step: int) -> u32 {
    if step == 8 || step == 9 {
        6
    } else if step == 10 || step == 11 {
        8
    } else if step == 12 || step == 13 {
        10
    } else {
        0
    }
}

/// What a step of 1 to 13 rolls on `g`: one exploding die or the sum of two.
/// At step 1 two are taken off the roll, at step 2 one, and the result is 1
/// at least.
pub open spec fn step_tail<G: Gen32>(g: G, step: int) -> Option<(int, G)> {
    match exploded(step_first_die(step), g) {
        None => None,
        Some((first, rest)) => if step == 1 || step == 2 {
            let lowered = wrapped_i32(first - (3 - step));
            Some(
                (
                    if lowered < 1 {
                        1int
                    } else {
                        lowered
                    },
                    rest,
                ),
            )
        } else if step_second_die(step) == 0 {
            Some((first as int, rest))
        } else {
            match exploded(step_second_die(step), rest) {
                None => None,
                Some((second, end)) => Some((first + second, end)),
            }
        },
    }
}

/// The sum that a step of 1 or more rolls on `g`: as long as the step is
/// above 13, an exploding twelve-sided die is rolled and the step lowered by
/// 7; what is left of the step rolls its own dice.
pub open spec fn step_rolled_up<G: Gen32>(g: G, step: int) -> Option<(int, G)>
    decreases step,
{
    if step > 13 {
        match exploded(12, g) {
            None => None,
            Some((roll, rest)) => match step_rolled_up(rest, step - 7) {
                None => None,
                Some((sum, end)) => Some((roll + sum, end)),
            },
        }
    } else {
        step_tail(g, step)
    }
}

/// What a step roll returns on `g`, and the generator that is left: 0 for
/// the step 0; for a positive step the sum of its rolls, wrapped to 32 bits;
/// for a negative step what its opposite rolls, negated. `None` where the
/// rolls never end, or the step or the result has no opposite.
pub open spec fn step_ed4_rolled<G: Gen32>(g: G, step: i32) -> Option<(i32, G)> {
    if step == 0 {
        Some((0i32, g))
    } else if step > 0 {
        match step_rolled_up(g, step as int) {
            None => None,
            Some((sum, end)) => Some((wrapped_i32(sum) as i32, end)),
        }
    } else if step == i32::MIN {
        None
    } else {
        match step_rolled_up(g, -step) {
            None => None,
            Some((sum, end)) => if wrapped_i32(sum) == i32::MIN {
                None
            } else {
                Some(((-wrapped_i32(sum)) as i32, end))
            },
        }
    }
}

/// Rolls a positive step.
fn step_up<G: Gen32>(g: &mut G, step: i32) -> (total: i32)
    requires
        step >= 1,
        step_rolled_up(*old(g), step as int) is Some,
    ensures
        step_rolled_up(*old(g), step as int) matches Some((sum, end)) && total == wrapped_i32(sum)
            && *final(g) == end,
{
    let ghost wanted = step_rolled_up(*g, step as int);
    let ghost mut so_far: int = 0;
    let x12: ExplodingDie = ExplodingDie::new(12);
    let mut left: i32 = step;
    let mut total: i32 = 0;
    while left > 13
        invariant
            x12.faces() == 12,
            1 <= left <= step,
            total == wrapped_i32(so_far),
            step_rolled_up(*g, left as int) matches Some((sum, end)) && wanted == Some(
                (so_far + sum, end),
            ),
        decreases left,
    {
        let roll: i32 = x12.sample(g);
        proof {
            lemma_wrapping_add_i32(total, roll);
            lemma_wrapped_i32_absorbs(so_far, roll as int);
            so_far = so_far + roll;
        }
        total = total.wrapping_add(roll);
        left -= 7;
    }
    let first: i32 = ExplodingDie::new(
        if left <= 3 {
            4
        } else if left == 4 || left == 8 {
            6
        } else if left == 5 || left == 9 || left == 10 {
            8
        } else if left == 6 || left == 11 || left == 12 {
            10
        } else {
            12
        },
    ).sample(g);
    let tail: i32 = if left == 1 || left == 2 {
        let lowered: i32 = first.wrapping_sub(3 - left);
        proof {
            lemma_wrapping_sub_i32(first, (3 - left) as i32);
        }
        if lowered < 1 {
            1
        } else {
            lowered
        }
    } else if left <= 7 {
        first
    } else {
        let second: i32 = ExplodingDie::new(
            if left <= 9 {
                6
            } else if left <= 11 {
                8
            } else {
                10
            },
        ).sample(g);
        proof {
            lemma_wrapping_add_i32(first, second);
            lemma_wrapped_i32_absorbs(so_far, first + second);
            lemma_wrapped_i32_absorbs(first + second, so_far);
        }
        first.wrapping_add(second)
    };
    proof {
        lemma_wrapping_add_i32(total, tail);
        lemma_wrapped_i32_absorbs(so_far, tail as int);
    }
    total.wrapping_add(tail)
}

/// Performs an Earthdawn 4e "step" roll.
///
/// * The overall average output value is bell-curved(ish) around the input.
/// * Technically this is `O(step)` time to compute. More precisely, starting
///   from step 1, every +7 steps adds +1 RNG call required.
/// * If `step` is negative, the output will be negated.
/// * Expected `step` values are 1 to 30.
///
/// The step must have an opposite, as must the result for a negative step,
/// and the generator must be one on which each of the rolls comes to an end.
pub fn step_ed4<G: Gen32>(g: &mut G, step: i32) -> (total: i32)
    requires
        step_ed4_rolled(*old(g), step) is Some,
    ensures
        step_ed4_rolled(*old(g), step) == Some((total, *final(g))),
{
    if step == 0 {
        0
    } else if step > 0 {
        let total: i32 = step_up(g, step);
        proof {
            lemma_wrapped_i32_range(total as int);
        }
        total
    } else {
        let total: i32 = step_up(g, -step);
        -total
    }
}

/// By how much the luck moves a value in `0..x`: the luck itself above 15,
/// else a third of it, rounded away from zero from 2 on.
pub open spec fn luck_adjustment(x: int, luck: int) -> int {
    if x <= 15 {
        let third: int = (magnitude(luck) + 1) as int / 3;
        if luck > 0 {
            third
        } else if luck < 0 {
            -third
        } else {
            0
        }
    } else {
        luck
    }
}

/// `value`, or the nearest of `low` and `high` where it is outside them.
pub open spec fn clamped(value: int, low: int, high: int) -> int {
    if value < low {
        low
    } else if value > high {
        high
    } else {
        value
    }
}

/// What the luck-adjusted draw from `0..x` returns on `g`, and the generator
/// that is left. A value is sampled in `0..x`. With an adjustment that is
/// not zero, a second value is sampled in `0..37 + |adjustment|`, and unless
/// that is zero the adjustment is taken off the first. The result is kept
/// within `0..x`.
pub open spec fn luck_rolled<G: Gen32>(g: G, x: i32, luck: i32) -> Option<(i32, G)> {
    let adjustment = luck_adjustment(x as int, luck as int);
    match sampled(x as u32, g) {
        None => None,
        Some((base, rest)) => if adjustment == 0 {
            Some((clamped(base as int, 0, x - 1) as i32, rest))
        } else {
            match sampled((37 + magnitude(adjustment)) as u32, rest) {
                None => None,
                Some((keep, end)) => Some(
                    (
                        clamped(
                            if keep != 0 {
                                base - adjustment
                            } else {
                                base as int
                            },
                            0,
                            x - 1,
                        ) as i32,
                        end,
                    ),
                ),
            }
        },
    }
}

/// Returns a value in `0..x` with the odds modified by `luck`.
///
/// This pertains to a particular video game. If you're not familiar with the
/// game that's fine.
/// * This is a constant time operation.
/// * higher luck pushes the output towards **zero**.
/// * lower luck pushes the output towards **x**.
/// * `luck` is expected to be +/-30.
///
/// `x` must be positive. The luck must be one that the arithmetic can hold:
/// up to 15 its size must be below `i32::MAX`; above, it must have an
/// opposite, and taking it off a value below `x` must stay within `i32`.
pub fn rn_bounded_luck<G: Gen32>(g: &mut G, x: i32, luck: i32) -> (out: i32)
    requires
        x > 0,
        x <= 15 ==> -0x7FFF_FFFF < luck < 0x7FFF_FFFF,
        x > 15 ==> luck > i32::MIN && x - 1 - luck <= i32::MAX,
        luck_rolled(*old(g), x, luck) is Some,
    ensures
        luck_rolled(*old(g), x, luck) == Some((out, *final(g))),
        0 <= out < x,
{
    let adjustment: i32 = if x <= 15 {
        let size: i32 = if luck < 0 {
            -luck
        } else {
            luck
        };
        let third: i32 = (size + 1) / 3;
        if luck > 0 {
            third
        } else if luck < 0 {
            -third
        } else {
            0
        }
    } else {
        luck
    };
    let mut i: i32 = next_bounded(g, x as u32) as i32;
    if adjustment != 0 {
        let size: i32 = if adjustment < 0 {
            -adjustment
        } else {
            adjustment
        };
        if next_bounded(g, 37 + size as u32) != 0 {
            i -= adjustment;
        }
    }
    let floor: i32 = if i < 0 {
        0
    } else {
        i
    };
    if floor > x - 1 {
        x - 1
    } else {
        floor
    }
}

/// One trial of the decay: a value sampled in `0..x`, turned away where it
/// is zero.
pub open spec fn decay_trial<G: Gen32>(x: u32) -> Trial<u32, G> {
    |g: G|
        match sampled(x, g) {
            None => None,
            Some((value, rest)) => Some(
                (
                    if value != 0 {
                        Some(value)
                    } else {
                        None
                    },
                    rest,
                ),
            ),
        }
}

/// What the decaying count returns on `g`, and the generator that is left:
/// one more than the number of zeros sampled in `0..x` before the first
/// value that is not zero. `None` where the zeros never end, or the count
/// does not fit an `i32`.
pub open spec fn decay_rolled<G: Gen32>(g: G, x: i32) -> Option<(i32, G)> {
    match retry(decay_trial::<G>(x as u32), g) {
        None => None,
        Some((_, rest, zeros)) => if 1 + zeros <= i32::MAX {
            Some(((1 + zeros) as i32, rest))
        } else {
            None
        },
    }
}

/// Returns a value of 1 or more.
///
/// * The output starts at 1, then has a repeated `1/x` chance of getting +1.
/// * As soon as the value doesn't get a +1, it is returned.
///
/// `x` must be 2 at least, and the generator must be one on which the
/// sampling comes to an end.
pub fn rn_exponential_decay<G: Gen32>(g: &mut G, x: i32) -> (out: i32)
    requires
        x > 1,
        decay_rolled(*old(g), x) is Some,
    ensures
        decay_rolled(*old(g), x) == Some((out, *final(g))),
        out >= 1,
{
    let ghost trial = decay_trial::<G>(x as u32);
    let ghost mut fuel: nat = lemma_retry_fuel(trial, *g);
    let mut temp: i32 = 1;
    loop
        invariant
            x > 1,
            trial == decay_trial::<G>(x as u32),
            retry_within(trial, *g, fuel) is Some,
            temp >= 1,
            retry(trial, *g) matches Some((_, rest, zeros)) && temp + zeros <= i32::MAX
                && decay_rolled(*old(g), x) == Some(((temp + zeros) as i32, rest)),
        decreases fuel,
    {
        proof {
            lemma_retry_unfold(trial, *g);
            lemma_retry_enough_fuel(trial, *g, fuel);
        }
        if next_bounded(g, x as u32) != 0 {
            return temp;
        }
        proof {
            fuel = (fuel - 1) as nat;
            lemma_retry_enough_fuel(trial, *g, fuel);
        }
        temp += 1;
    }
}

/// The quotient of `a` by a positive `b`, rounded towards zero.
pub open spec fn quotient_towards_zero(a: int, b: int) -> int {
    if a >= 0 {
        a / b
    } else {
        -((-a) / b)
    }
}

/// What `rn_z` returns for `input` on `g`, and the generator that is left.
///
/// A factor is made of 1000 and a value sampled in `0..1000`, times a
/// decaying count for 4 that is capped at 5. On a coin the input is
/// multiplied by the factor and divided by 1000, or multiplied by 1000 and
/// divided by the factor, rounding towards zero. The result wraps to 32
/// bits.
pub open spec fn z_rolled<G: Gen32>(g: G, input: i32) -> Option<(i32, G)> {
    match sampled(1000, g) {
        None => None,
        Some((extra, g1)) => match decay_rolled(g1, 4) {
            None => None,
            Some((count, g2)) => {
                let factor = (1000 + extra) * (if count < 5 {
                    count as int
                } else {
                    5int
                });
                let scaled = if g2.output() >= 0x8000_0000 {
                    quotient_towards_zero(input * factor, 1000)
                } else {
                    quotient_towards_zero(input * 1000, factor)
                };
                Some((wrapped_i32(scaled) as i32, g2.successor()))
            },
        },
    }
}

/// Returns a... value.
///
/// * The `input` value affects the output.
/// * This runs in constant time.
///
/// The generator must be one on which the sampling comes to an end.
pub fn rn_z<G: Gen32>(g: &mut G, input: i32) -> (out: i32)
    requires
        z_rolled(*old(g), input) is Some,
    ensures
        z_rolled(*old(g), input) == Some((out, *final(g))),
{
    let extra: u32 = next_bounded(g, 1000);
    let count: i32 = rn_exponential_decay(g, 4);
    let capped: i64 = if count < 5 {
        count as i64
    } else {
        5
    };
    assert(1000 <= (1000 + extra) * capped <= 9995) by (nonlinear_arith)
        requires
            0 <= extra < 1000,
            1 <= capped <= 5,
    ;
    let temp: i64 = (1000 + extra as i64) * capped;
    let x: i64 = input as i64;
    assert(-0x8000_0000 * 9995 <= x * temp <= 0x8000_0000 * 9995) by (nonlinear_arith)
        requires
            -0x8000_0000 <= x <= 0x7FFF_FFFF,
            1000 <= temp <= 9995,
    ;
    let scaled: i64 = if next_bool(g) {
        towards_zero(x * temp, 1000)
    } else {
        towards_zero(x * 1000, temp)
    };
    wrap_to_i32(scaled)
}

/// Divides by a positive number, rounding towards zero.
fn towards_zero(a: i64, b: i64) -> (q: i64)
    requires
        b > 0,
        a > i64::MIN,
    ensures
        q == quotient_towards_zero(a as int, b as int),
{
    if a >= 0 {
        a / b
    } else {
        -((-a) / b)
    }
}

/// Keeps the low 32 bits of a number, as a signed integer.
fn wrap_to_i32(x: i64) -> (out: i32)
    ensures
        out == wrapped_i32(x as int),
{
    let out: i32 = #[verifier::truncate] (x as i32);
    assert((x - out) % 0x1_0000_0000 == 0) by (bit_vector)
        requires
            out == x as i32,
    ;
    proof {
        let q = (x - out) / 0x1_0000_0000;
        vstd::arithmetic::div_mod::lemma_fundamental_div_mod(x - out, 0x1_0000_0000);
        vstd::arithmetic::div_mod::lemma_fundamental_div_mod_converse(
            x + 0x8000_0000,
            0x1_0000_0000,
            q,
            out + 0x8000_0000,
        );
    }
    out
}

} // verus!
