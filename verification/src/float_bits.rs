//! The bit patterns of uniformly distributed IEEE-754 numbers in the unit
//! range, built from uniform words without a division.

use crate::gen32::{after, word, Gen32};
use crate::retry::{lemma_retry_enough_fuel, lemma_retry_fuel, lemma_retry_unfold, retry, retry_within, Trial};
use vstd::prelude::*;
use vstd::std_specs::bits::{u32_trailing_zeros, u64_trailing_zeros};

verus! {

/// The longest run of zero words that the exponent draw counts: with more,
/// `32` times the run no longer fits a `u32`.
pub open spec fn zero_run_limit() -> nat {
    0x800_0000
}

/// One trial of the search for a word that is not zero.
pub open spec fn nonzero_trial<G: Gen32>() -> Trial<u32, G> {
    |g: G|
        Some(
            (
                if g.output() != 0 {
                    Some(g.output())
                } else {
                    None
                },
                g.successor(),
            ),
        )
}

/// What the draw from the binary exponential distribution returns from `g`,
/// after `skipped` zero words have been counted already: 32 for each zero
/// word, and the number of trailing zero bits of the first word that is not
/// zero. `None` where `g` yields zero words for ever, or more of them in a
/// row than the limit.
pub open spec fn binary_exp_after<G: Gen32>(g: G, skipped: nat) -> Option<(u32, G)> {
    match retry(nonzero_trial::<G>(), g) {
        None => None,
        Some((word, rest, zeros)) => if skipped + zeros < zero_run_limit() {
            Some((((skipped + zeros) * 32 + u32_trailing_zeros(word)) as u32, rest))
        } else {
            None
        },
    }
}

/// What the draw from the binary exponential distribution returns from `g`,
/// and the generator that it leaves.
pub open spec fn binary_exp<G: Gen32>(g: G) -> Option<(u32, G)> {
    binary_exp_after(g, 0)
}

/// The draw counts 32 for each zero word and the trailing zero bits of the
/// first word that is not zero: where that is the word number `k` of `g`,
/// the draw is `32 * k` and its trailing zeros, and `k + 1` words are used
/// up.
pub proof fn lemma_binary_exp_is_first_nonzero<G: Gen32>(g: G, k: nat)
    requires
        word(g, k) != 0,
        forall|j: nat| j < k ==> #[trigger] word(g, j) == 0,
        k < zero_run_limit(),
    ensures
        binary_exp(g) == Some(((32 * k + u32_trailing_zeros(word(g, k))) as u32, after(g, k + 1))),
{
    lemma_nonzero_found(g, k);
}

/// The search for a word that is not zero finds the first such word, after
/// as many trials as there are zero words before it.
proof fn lemma_nonzero_found<G: Gen32>(g: G, k: nat)
    requires
        word(g, k) != 0,
        forall|j: nat| j < k ==> #[trigger] word(g, j) == 0,
    ensures
        retry(nonzero_trial::<G>(), g) == Some((word(g, k), after(g, k + 1), k)),
    decreases k,
{
    lemma_retry_unfold(nonzero_trial::<G>(), g);
    reveal_with_fuel(after, 2);
    assert(word(g, 0) == g.output());
    if k > 0 {
        assert forall|j: nat| j < k - 1 implies #[trigger] word(g.successor(), j) == 0 by {
            assert(word(g.successor(), j) == word(g, j + 1));
        }
        lemma_nonzero_found(g.successor(), (k - 1) as nat);
    }
}

/// Returns `k` with probability `2^(-k-1)`, a "binary exponential
/// distribution".
///
/// The number of trailing zero bits of the next word is taken; a word that is
/// zero counts as 32 more, and the next word is drawn.
///
/// The generator must at some point yield a word that is not zero, after
/// fewer than `2^27` zero words.
pub fn next_binary_exp_distr32<G: Gen32>(g: &mut G) -> (k: u32)
    requires
        binary_exp(*old(g)) is Some,
    ensures
        binary_exp(*old(g)) == Some((k, *final(g))),
{
    broadcast use vstd::std_specs::bits::axiom_u32_trailing_zeros;

    let ghost trial = nonzero_trial::<G>();
    let ghost mut fuel: nat = lemma_retry_fuel(trial, *g);
    let mut extra: u32 = 0;
    loop
        invariant
            trial == nonzero_trial::<G>(),
            retry_within(trial, *g, fuel) is Some,
            binary_exp_after(*g, extra as nat) == binary_exp(*old(g)),
            binary_exp_after(*g, extra as nat) is Some,
        decreases fuel,
    {
        proof {
            lemma_retry_unfold(trial, *g);
            lemma_retry_enough_fuel(trial, *g, fuel);
        }
        let r: u32 = g.next_u32();
        if r != 0 {
            return extra * 32 + r.trailing_zeros();
        }
        proof {
            fuel = (fuel - 1) as nat;
            lemma_retry_enough_fuel(trial, *g, fuel);
        }
        extra += 1;
    }
}

/// Whether `e` can be the exponent of a number in the unit range, for the
/// exponent bias `bias`.
pub open spec fn exponent_valid(e: int, bias: int) -> bool {
    -bias <= e <= 0
}

/// One trial of drawing the exponent anew: `-1`, raised by `lift`, lowered by
/// a draw from the binary exponential distribution, accepted where valid.
pub open spec fn exponent_trial<G: Gen32>(lift: int, bias: int) -> Trial<int, G> {
    |g: G|
        match binary_exp(g) {
            None => None,
            Some((k, rest)) => Some(
                (
                    if exponent_valid(-1 + lift - k, bias) {
                        Some(-1 + lift - k)
                    } else {
                        None
                    },
                    rest,
                ),
            ),
        }
}

/// The exponent that is drawn from `g`, and the generator that is left.
///
/// The exponent starts at `-1`, is raised by `lift`, and is lowered by the
/// position of the lowest set bit of `rest_bits`. Where none of these
/// `rest_width` bits is set, it is lowered by `rest_width` and by a draw from
/// the binary exponential distribution. An exponent that is not valid is
/// thrown away and drawn anew until one is valid.
pub open spec fn exponent_drawn<G: Gen32>(
    g: G,
    lift: int,
    rest_bits: u64,
    rest_width: int,
    bias: int,
) -> Option<(int, G)> {
    let first = if rest_bits > 0 {
        Some((-1 + lift - u64_trailing_zeros(rest_bits), g))
    } else {
        match binary_exp(g) {
            None => None,
            Some((k, rest)) => Some((-1 + lift - (rest_width + k), rest)),
        }
    };
    match first {
        None => None,
        Some((e, rest)) => if exponent_valid(e, bias) {
            Some((e, rest))
        } else {
            match retry(exponent_trial::<G>(lift, bias), rest) {
                None => None,
                Some((again, last, _)) => Some((again, last)),
            }
        },
    }
}

/// Draws the exponent of a number in the unit range.
fn draw_exponent<G: Gen32>(
    g: &mut G,
    lift: bool,
    rest_bits: u64,
    rest_width: u32,
    bias: i64,
) -> (e: i64)
    requires
        rest_width <= 64,
        0 <= bias <= 0xFFFF,
        exponent_drawn(
            *old(g),
            if lift { 1int } else { 0int },
            rest_bits,
            rest_width as int,
            bias as int,
        ) is Some,
    ensures
        exponent_drawn(
            *old(g),
            if lift { 1int } else { 0int },
            rest_bits,
            rest_width as int,
            bias as int,
        ) == Some((e as int, *final(g))),
        -bias <= e <= 0,
        e == 0 ==> lift,
{
    broadcast use vstd::std_specs::bits::axiom_u64_trailing_zeros;

    let lift_by: i64 = if lift { 1 } else { 0 };
    let ghost trial = exponent_trial::<G>(lift_by as int, bias as int);
    let ghost wanted = exponent_drawn(
        *g,
        lift_by as int,
        rest_bits,
        rest_width as int,
        bias as int,
    );
    let computed_rest_bits: i64 = if rest_bits > 0 {
        rest_bits.trailing_zeros() as i64
    } else {
        rest_width as i64 + next_binary_exp_distr32(g) as i64
    };
    let mut exponent: i64 = -1 + lift_by - computed_rest_bits;
    let ghost mut fuel: nat = 0;
    proof {
        if !exponent_valid(exponent as int, bias as int) {
            fuel = lemma_retry_fuel(trial, *g);
        }
    }
    // It is very unlikely that the exponent is invalid at this point, but it
    // is drawn anew until it is valid.
    while exponent < -bias || exponent > 0
        invariant
            trial == exponent_trial::<G>(lift_by as int, bias as int),
            lift_by == if lift { 1int } else { 0int },
            0 <= bias <= 0xFFFF,
            exponent <= lift_by - 1,
            exponent_valid(exponent as int, bias as int) ==> wanted == Some(
                (exponent as int, *g),
            ),
            !exponent_valid(exponent as int, bias as int) ==> {
                &&& retry_within(trial, *g, fuel) is Some
                &&& retry(trial, *g) matches Some((again, last, _)) && wanted == Some(
                    (again, last),
                )
            },
        decreases
                if exponent_valid(exponent as int, bias as int) {
                    0
                } else {
                    fuel + 1
                },
    {
        proof {
            lemma_retry_unfold(trial, *g);
            lemma_retry_enough_fuel(trial, *g, fuel);
        }
        let k: u32 = next_binary_exp_distr32(g);
        exponent = -1 + lift_by - k as i64;
        proof {
            if !exponent_valid(exponent as int, bias as int) {
                fuel = (fuel - 1) as nat;
                lemma_retry_enough_fuel(trial, *g, fuel);
            }
        }
    }
    exponent
}

/// The mantissa of the single-precision number made from the word `r`: its
/// top 23 bits.
pub open spec fn single_mantissa(r: u32) -> u32 {
    r >> 9
}

/// The sign bit in place: the lowest bit of `r` where a sign is wanted.
pub open spec fn single_sign(r: u32, signed: bool) -> u32 {
    if signed {
        r << 31
    } else {
        0
    }
}

/// Whether the exponent is raised by one: the mantissa is zero and the bit
/// that serves as a coin is set.
pub open spec fn single_lift(r: u32, signed: bool) -> bool {
    r >> 9 == 0 && if signed {
        r & 2 != 0
    } else {
        r & 1 != 0
    }
}

/// The bits between the coin and the mantissa: 7 of them where a sign is
/// wanted, else 8.
pub open spec fn single_rest(r: u32, signed: bool) -> u32 {
    if signed {
        (r >> 2) & 0x7F
    } else {
        (r >> 1) & 0xFF
    }
}

/// What is drawn from `g` as the bits of a single-precision number, and the
/// generator that is left: sign, biased exponent and mantissa, each in its
/// place.
pub open spec fn single_bits_drawn<G: Gen32>(g: G, signed: bool) -> Option<(u32, G)> {
    let r = g.output();
    match exponent_drawn(
        g.successor(),
        if single_lift(r, signed) { 1int } else { 0int },
        single_rest(r, signed) as u64,
        if signed { 7int } else { 8int },
        127,
    ) {
        None => None,
        Some((e, rest)) => Some(
            (single_sign(r, signed) | (((e + 127) as u32) << 23) | single_mantissa(r), rest),
        ),
    }
}

/// Generates the bits of an `f32` in the signed or unsigned unit range.
///
/// * signed: `[-1.0, 1.0]`
/// * unsigned: `[0.0, 1.0]`
///
/// Beside the exact bits, the result is stated to lie in the range: without
/// its sign bit the pattern is at most that of `1.0`, and where no sign is
/// wanted the sign bit is clear.
///
/// The generator must be one on which every draw of the exponent comes to an
/// end.
pub fn ieee754_random_f32_bits<G: Gen32>(g: &mut G, signed: bool) -> (bits: u32)
    requires
        single_bits_drawn(*old(g), signed) is Some,
    ensures
        single_bits_drawn(*old(g), signed) == Some((bits, *final(g))),
        bits & 0x7FFF_FFFF <= 0x3F80_0000,
        !signed ==> bits <= 0x3F80_0000,
{
    let r: u32 = g.next_u32();
    let mantissa: u32 = r >> 9;
    let sign_mask: u32;
    let rand_bit: bool;
    let rest_bits: u32;
    if signed {
        sign_mask = r << 31;
        rand_bit = (r & 2) != 0;
        rest_bits = (r >> 2) & 0x7F;
    } else {
        sign_mask = 0;
        rand_bit = (r & 1) != 0;
        rest_bits = (r >> 1) & 0xFF;
    }
    // If the mantissa is zero, half of the time the exponent is increased.
    let increment_exponent: bool = mantissa == 0 && rand_bit;
    let num_rest_bits: u32 = if signed { 7 } else { 8 };
    let exponent: i64 = draw_exponent(g, increment_exponent, rest_bits as u64, num_rest_bits, 127);
    let biased: u32 = (exponent + 127) as u32;
    let final_exponent: u32 = biased << 23;
    let bits: u32 = sign_mask | final_exponent | mantissa;
    assert((bits & 0x7FFF_FFFF) <= 0x3F80_0000 && (sign_mask == 0 ==> bits <= 0x3F80_0000))
        by (bit_vector)
        requires
            bits == sign_mask | (biased << 23) | mantissa,
            mantissa == r >> 9,
            sign_mask == r << 31 || sign_mask == 0,
            biased <= 127,
            biased == 127 ==> mantissa == 0,
    ;
    bits
}

/// The two words of a double-precision draw as one, the first being the high
/// half.
pub open spec fn double_word(first: u32, second: u32) -> u64 {
    ((first as u64) << 32) | (second as u64)
}

/// The mantissa of the double-precision number made from `r`: its top 52
/// bits.
pub open spec fn double_mantissa(r: u64) -> u64 {
    r >> 12
}

/// The sign bit in place: the lowest bit of `r` where a sign is wanted.
pub open spec fn double_sign(r: u64, signed: bool) -> u64 {
    if signed {
        r << 63
    } else {
        0
    }
}

/// Whether the exponent is raised by one.
pub open spec fn double_lift(r: u64, signed: bool) -> bool {
    r >> 12 == 0 && if signed {
        r & 2 != 0
    } else {
        r & 1 != 0
    }
}

/// The bits between the coin and the mantissa: 10 of them where a sign is
/// wanted, else 11.
pub open spec fn double_rest(r: u64, signed: bool) -> u64 {
    if signed {
        (r >> 2) & 0x3FF
    } else {
        (r >> 1) & 0x7FF
    }
}

/// What is drawn from `g` as the bits of a double-precision number, and the
/// generator that is left.
pub open spec fn double_bits_drawn<G: Gen32>(g: G, signed: bool) -> Option<(u64, G)> {
    let r = double_word(g.output(), g.successor().output());
    match exponent_drawn(
        g.successor().successor(),
        if double_lift(r, signed) { 1int } else { 0int },
        double_rest(r, signed),
        if signed { 10int } else { 11int },
        1023,
    ) {
        None => None,
        Some((e, rest)) => Some(
            (double_sign(r, signed) | (((e + 1023) as u64) << 52) | double_mantissa(r), rest),
        ),
    }
}

/// Generates the bits of an `f64` in the signed or unsigned unit range.
///
/// * signed: `[-1.0, 1.0]`
/// * unsigned: `[0.0, 1.0]`
///
/// Two words are drawn for the number itself, the first being the high half.
///
/// The generator must be one on which every draw of the exponent comes to an
/// end.
pub fn ieee754_random_f64_bits<G: Gen32>(g: &mut G, signed: bool) -> (bits: u64)
    requires
        double_bits_drawn(*old(g), signed) is Some,
    ensures
        double_bits_drawn(*old(g), signed) == Some((bits, *final(g))),
        bits & 0x7FFF_FFFF_FFFF_FFFF <= 0x3FF0_0000_0000_0000,
        !signed ==> bits <= 0x3FF0_0000_0000_0000,
{
    let first: u32 = g.next_u32();
    let second: u32 = g.next_u32();
    let r: u64 = ((first as u64) << 32) | (second as u64);
    let mantissa: u64 = r >> 12;
    let sign_mask: u64;
    let rand_bit: bool;
    let rest_bits: u64;
    if signed {
        sign_mask = r << 63;
        rand_bit = (r & 2) != 0;
        rest_bits = (r >> 2) & 0x3FF;
    } else {
        sign_mask = 0;
        rand_bit = (r & 1) != 0;
        rest_bits = (r >> 1) & 0x7FF;
    }
    // If the mantissa is zero, half of the time the exponent is increased.
    let increment_exponent: bool = mantissa == 0 && rand_bit;
    let num_rest_bits: u32 = if signed { 10 } else { 11 };
    let exponent: i64 = draw_exponent(g, increment_exponent, rest_bits, num_rest_bits, 1023);
    let biased: u64 = (exponent + 1023) as u64;
    let final_exponent: u64 = biased << 52;
    let bits: u64 = sign_mask | final_exponent | mantissa;
    assert((bits & 0x7FFF_FFFF_FFFF_FFFF) <= 0x3FF0_0000_0000_0000 && (sign_mask == 0 ==> bits
        <= 0x3FF0_0000_0000_0000)) by (bit_vector)
        requires
            bits == sign_mask | (biased << 52) | mantissa,
            mantissa == r >> 12,
            sign_mask == r << 63 || sign_mask == 0,
            biased <= 1023,
            biased == 1023 ==> mantissa == 0,
    ;
    bits
}

} // verus!
