//! Linear congruential steps, jump-ahead and output permutations.

use crate::modular::{
    lemma_affine_mod, lemma_regroup, lemma_wrapped_sum, modulus128, modulus32, modulus64,
};
use vstd::arithmetic::div_mod::{lemma_mod_bound, lemma_small_mod};
use vstd::prelude::*;

verus! {

/// The multiplier of the 64-bit generators.
pub const PCG_MUL_64: u64 = 6364136223846793005;

/// One step of a linear congruential generator: `state * mul + add`, reduced
/// modulo `modulus`.
pub open spec fn lcg_step(modulus: int, mul: int, add: int, state: int) -> int {
    (state * mul + add) % modulus
}

/// The state reached from `state` by `n` steps, one after the other.
pub open spec fn lcg_steps(modulus: int, mul: int, add: int, state: int, n: nat) -> int
    decreases n,
{
    if n == 0 {
        state
    } else {
        lcg_step(modulus, mul, add, lcg_steps(modulus, mul, add, state, (n - 1) as nat))
    }
}

/// The factor of the affine map that `n` steps amount to.
pub open spec fn jump_mul(modulus: int, mul: int, n: nat) -> int
    decreases n,
{
    if n == 0 {
        1int % modulus
    } else {
        (jump_mul(modulus, mul, (n - 1) as nat) * mul) % modulus
    }
}

/// The summand of the affine map that `n` steps amount to.
pub open spec fn jump_add(modulus: int, mul: int, add: int, n: nat) -> int
    decreases n,
{
    if n == 0 {
        0
    } else {
        (jump_add(modulus, mul, add, (n - 1) as nat) * mul + add) % modulus
    }
}

/// Both coefficients are remainders modulo `modulus`.
pub proof fn lemma_jump_coefficients_bounded(modulus: int, mul: int, add: int, n: nat)
    requires
        0 < modulus,
    ensures
        0 <= jump_mul(modulus, mul, n) < modulus,
        0 <= jump_add(modulus, mul, add, n) < modulus,
{
    if n == 0 {
        lemma_mod_bound(1, modulus);
    } else {
        lemma_mod_bound(jump_mul(modulus, mul, (n - 1) as nat) * mul, modulus);
        lemma_mod_bound(jump_add(modulus, mul, add, (n - 1) as nat) * mul + add, modulus);
    }
}

/// `n` steps are one affine map: `state * jump_mul(n) + jump_add(n)`.
pub proof fn lemma_steps_are_affine(modulus: int, mul: int, add: int, state: int, n: nat)
    requires
        0 < modulus,
        0 <= state < modulus,
    ensures
        lcg_steps(modulus, mul, add, state, n) == (state * jump_mul(modulus, mul, n) + jump_add(
            modulus,
            mul,
            add,
            n,
        )) % modulus,
    decreases n,
{
    if n == 0 {
        lemma_affine_mod(state, 1, 0, modulus);
        lemma_small_mod(state as nat, modulus as nat);
    } else {
        let before = (n - 1) as nat;
        let jm = jump_mul(modulus, mul, before);
        let ja = jump_add(modulus, mul, add, before);
        lemma_steps_are_affine(modulus, mul, add, state, before);
        // ((state * jm + ja) % m) * mul + add  ==  state * (jm * mul) + (ja * mul + add)
        lemma_affine_mod(state * jm + ja, mul, add, modulus);
        lemma_regroup(state, jm, mul);
        lemma_regroup(state * jm, ja, mul);
        assert((state * jm + ja) * mul + add == state * (jm * mul) + (ja * mul + add));
        lemma_affine_mod(state, jm * mul, ja * mul + add, modulus);
        lemma_affine_mod(state, (jm * mul) % modulus, ja * mul + add, modulus);
    }
}

/// The map of `first + second` steps is the map of `first` steps followed by
/// the map of `second` steps.
pub proof fn lemma_jump_compose(modulus: int, mul: int, add: int, first: nat, second: nat)
    requires
        0 < modulus,
    ensures
        jump_mul(modulus, mul, first + second) == (jump_mul(modulus, mul, first) * jump_mul(
            modulus,
            mul,
            second,
        )) % modulus,
        jump_add(modulus, mul, add, first + second) == (jump_add(modulus, mul, add, first)
            * jump_mul(modulus, mul, second) + jump_add(modulus, mul, add, second)) % modulus,
    decreases second,
{
    let fm = jump_mul(modulus, mul, first);
    let fa = jump_add(modulus, mul, add, first);
    lemma_jump_coefficients_bounded(modulus, mul, add, first);
    if second == 0 {
        lemma_affine_mod(fm, 1, 0, modulus);
        lemma_affine_mod(fa, 1, 0, modulus);
        lemma_small_mod(fm as nat, modulus as nat);
        lemma_small_mod(fa as nat, modulus as nat);
    } else {
        let before = (second - 1) as nat;
        let tm = jump_mul(modulus, mul, before);
        let ta = jump_add(modulus, mul, add, before);
        lemma_jump_compose(modulus, mul, add, first, before);
        assert(first + second - 1 == first + before);
        // factor
        lemma_affine_mod(fm * tm, mul, 0, modulus);
        lemma_regroup(fm, tm, mul);
        lemma_affine_mod(fm, tm * mul, 0, modulus);
        // summand
        lemma_affine_mod(fa * tm + ta, mul, add, modulus);
        lemma_regroup(fa, tm, mul);
        lemma_regroup(fa * tm, ta, mul);
        assert((fa * tm + ta) * mul + add == fa * (tm * mul) + (ta * mul + add));
        lemma_affine_mod(fa, tm * mul, ta * mul + add, modulus);
        lemma_affine_mod(fa, (tm * mul) % modulus, ta * mul + add, modulus);
    }
}

/// The states that steps reach are remainders modulo `modulus`.
pub proof fn lemma_steps_bounded(modulus: int, mul: int, add: int, state: int, n: nat)
    requires
        0 < modulus,
        0 <= state < modulus,
    ensures
        0 <= lcg_steps(modulus, mul, add, state, n) < modulus,
{
    if n > 0 {
        lemma_mod_bound(
            lcg_steps(modulus, mul, add, state, (n - 1) as nat) * mul + add,
            modulus,
        );
    }
}

/// Jumping ahead composes: `first` steps followed by `second` steps reach the state
/// that `first + second` steps reach.
pub proof fn lemma_jump_composes(
    modulus: int,
    mul: int,
    add: int,
    state: int,
    first: nat,
    second: nat,
)
    ensures
        lcg_steps(modulus, mul, add, lcg_steps(modulus, mul, add, state, first), second)
            == lcg_steps(modulus, mul, add, state, first + second),
    decreases second,
{
    if second > 0 {
        lemma_jump_composes(modulus, mul, add, state, first, (second - 1) as nat);
        assert(first + second - 1 == first + (second - 1) as nat);
    }
}

/// A jump by one is one step.
pub proof fn lemma_jump_by_one_is_step(modulus: int, mul: int, add: int, state: int)
    ensures
        lcg_steps(modulus, mul, add, state, 1) == lcg_step(modulus, mul, add, state),
{
    assert(lcg_steps(modulus, mul, add, state, 0) == state);
}

/// What one round of the jump loop computes, for any modulus: the map of the
/// steps done so far is extended by the map of `span` steps, and the map of
/// `span` steps is doubled.
proof fn lemma_jump_round(modulus: int, mul: int, add: int, done: nat, span: nat)
    requires
        0 < modulus,
    ensures
        jump_mul(modulus, mul, done + span) == (jump_mul(modulus, mul, done) * jump_mul(
            modulus,
            mul,
            span,
        )) % modulus,
        jump_add(modulus, mul, add, done + span) == ((jump_add(modulus, mul, add, done)
            * jump_mul(modulus, mul, span)) % modulus + jump_add(modulus, mul, add, span))
            % modulus,
        jump_mul(modulus, mul, span + span) == (jump_mul(modulus, mul, span) * jump_mul(
            modulus,
            mul,
            span,
        )) % modulus,
        jump_add(modulus, mul, add, span + span) == (((jump_mul(modulus, mul, span) + 1)
            % modulus) * jump_add(modulus, mul, add, span)) % modulus,
{
    let dm = jump_mul(modulus, mul, done);
    let da = jump_add(modulus, mul, add, done);
    let sm = jump_mul(modulus, mul, span);
    let sa = jump_add(modulus, mul, add, span);
    lemma_jump_compose(modulus, mul, add, done, span);
    lemma_jump_compose(modulus, mul, add, span, span);
    lemma_affine_mod(da, sm, sa, modulus);
    lemma_affine_mod(sm + 1, sa, 0, modulus);
    lemma_regroup(sm, 1, sa);
    assert((sm + 1) * sa == sa * sm + sa) by (nonlinear_arith);
}

/// Advance a 32-bit LCG's state.
pub fn lcg32_step(mul: u32, add: u32, state: u32) -> (next: u32)
    ensures
        next == lcg_step(modulus32(), mul as int, add as int, state as int),
{
    let next: u32 = state.wrapping_mul(mul).wrapping_add(add);
    proof {
        let m = modulus32();
        lemma_mod_bound(state as int * mul as int, m);
        lemma_wrapped_sum((state as int * mul as int) % m, add as int, m);
        lemma_affine_mod(state as int, mul as int, add as int, m);
    }
    next
}

/// Advance a 32-bit LCG by `delta` steps in `log2(delta)` time.
pub fn lcg32_jump(mul: u32, add: u32, state: u32, delta: u32) -> (reached: u32)
    ensures
        reached == lcg_steps(modulus32(), mul as int, add as int, state as int, delta as nat),
{
    let ghost m = modulus32();
    let mut delta: u32 = delta;
    let ghost whole: nat = delta as nat;
    let ghost done: nat = 0;
    let ghost span: nat = 1;
    let mut cur_mult: u32 = mul;
    let mut cur_plus: u32 = add;
    let mut acc_mult: u32 = 1;
    let mut acc_plus: u32 = 0;
    proof {
        assert(jump_mul(m, mul as int, 0) == 1);
        assert(jump_mul(m, mul as int, 1) == (1 * mul as int) % m);
        assert(jump_add(m, mul as int, add as int, 0) == 0);
        assert(jump_add(m, mul as int, add as int, 1) == (0 * mul as int + add as int) % m);
        lemma_small_mod(mul as nat, m as nat);
        lemma_small_mod(add as nat, m as nat);
    }
    while delta > 0
        invariant
            m == modulus32(),
            done + span * delta == whole,
            acc_mult == jump_mul(m, mul as int, done),
            acc_plus == jump_add(m, mul as int, add as int, done),
            cur_mult == jump_mul(m, mul as int, span),
            cur_plus == jump_add(m, mul as int, add as int, span),
        decreases delta,
    {
        proof {
            lemma_jump_round(m, mul as int, add as int, done, span);
            lemma_mod_bound(acc_plus as int * cur_mult as int, m);
            lemma_wrapped_sum((acc_plus as int * cur_mult as int) % m, cur_plus as int, m);
            lemma_wrapped_sum(cur_mult as int, 1, m);
            assert(delta & 1 == delta % 2) by (bit_vector);
            assert(done + span * delta == if delta % 2 == 1 {
                (done + span) + (span + span) * (delta / 2)
            } else {
                done + (span + span) * (delta / 2)
            }) by (nonlinear_arith);
        }
        if (delta & 1) > 0 {
            acc_mult = acc_mult.wrapping_mul(cur_mult);
            acc_plus = acc_plus.wrapping_mul(cur_mult).wrapping_add(cur_plus);
            proof {
                done = done + span;
            }
        }
        cur_plus = cur_mult.wrapping_add(1).wrapping_mul(cur_plus);
        cur_mult = cur_mult.wrapping_mul(cur_mult);
        delta = delta / 2;
        proof {
            span = span + span;
        }
    }
    let reached: u32 = state.wrapping_mul(acc_mult).wrapping_add(acc_plus);
    proof {
        assert(done == whole) by (nonlinear_arith)
            requires
                done + span * delta == whole,
                delta == 0,
        ;
        lemma_steps_are_affine(m, mul as int, add as int, state as int, whole);
        lemma_mod_bound(state as int * acc_mult as int, m);
        lemma_wrapped_sum((state as int * acc_mult as int) % m, acc_plus as int, m);
        lemma_affine_mod(state as int, acc_mult as int, acc_plus as int, m);
    }
    reached
}

/// Advance a 64-bit LCG's state.
pub fn lcg64_step(mul: u64, add: u64, state: u64) -> (next: u64)
    ensures
        next == lcg_step(modulus64(), mul as int, add as int, state as int),
{
    let next: u64 = state.wrapping_mul(mul).wrapping_add(add);
    proof {
        let m = modulus64();
        lemma_mod_bound(state as int * mul as int, m);
        lemma_wrapped_sum((state as int * mul as int) % m, add as int, m);
        lemma_affine_mod(state as int, mul as int, add as int, m);
    }
    next
}

/// Advance a 64-bit LCG by `delta` steps in `log2(delta)` time.
pub fn lcg64_jump(mul: u64, add: u64, state: u64, delta: u64) -> (reached: u64)
    ensures
        reached == lcg_steps(modulus64(), mul as int, add as int, state as int, delta as nat),
{
    let ghost m = modulus64();
    let mut delta: u64 = delta;
    let ghost whole: nat = delta as nat;
    let ghost done: nat = 0;
    let ghost span: nat = 1;
    let mut cur_mult: u64 = mul;
    let mut cur_plus: u64 = add;
    let mut acc_mult: u64 = 1;
    let mut acc_plus: u64 = 0;
    proof {
        assert(jump_mul(m, mul as int, 0) == 1);
        assert(jump_mul(m, mul as int, 1) == (1 * mul as int) % m);
        assert(jump_add(m, mul as int, add as int, 0) == 0);
        assert(jump_add(m, mul as int, add as int, 1) == (0 * mul as int + add as int) % m);
        lemma_small_mod(mul as nat, m as nat);
        lemma_small_mod(add as nat, m as nat);
    }
    while delta > 0
        invariant
            m == modulus64(),
            done + span * delta == whole,
            acc_mult == jump_mul(m, mul as int, done),
            acc_plus == jump_add(m, mul as int, add as int, done),
            cur_mult == jump_mul(m, mul as int, span),
            cur_plus == jump_add(m, mul as int, add as int, span),
        decreases delta,
    {
        proof {
            lemma_jump_round(m, mul as int, add as int, done, span);
            lemma_mod_bound(acc_plus as int * cur_mult as int, m);
            lemma_wrapped_sum((acc_plus as int * cur_mult as int) % m, cur_plus as int, m);
            lemma_wrapped_sum(cur_mult as int, 1, m);
            assert(delta & 1 == delta % 2) by (bit_vector);
            assert(done + span * delta == if delta % 2 == 1 {
                (done + span) + (span + span) * (delta / 2)
            } else {
                done + (span + span) * (delta / 2)
            }) by (nonlinear_arith);
        }
        if (delta & 1) > 0 {
            acc_mult = acc_mult.wrapping_mul(cur_mult);
            acc_plus = acc_plus.wrapping_mul(cur_mult).wrapping_add(cur_plus);
            proof {
                done = done + span;
            }
        }
        cur_plus = cur_mult.wrapping_add(1).wrapping_mul(cur_plus);
        cur_mult = cur_mult.wrapping_mul(cur_mult);
        delta = delta / 2;
        proof {
            span = span + span;
        }
    }
    let reached: u64 = state.wrapping_mul(acc_mult).wrapping_add(acc_plus);
    proof {
        assert(done == whole) by (nonlinear_arith)
            requires
                done + span * delta == whole,
                delta == 0,
        ;
        lemma_steps_are_affine(m, mul as int, add as int, state as int, whole);
        lemma_mod_bound(state as int * acc_mult as int, m);
        lemma_wrapped_sum((state as int * acc_mult as int) % m, acc_plus as int, m);
        lemma_affine_mod(state as int, acc_mult as int, acc_plus as int, m);
    }
    reached
}

/// Advance a 128-bit LCG's state.
pub fn lcg128_step(mul: u128, add: u128, state: u128) -> (next: u128)
    ensures
        next == lcg_step(modulus128(), mul as int, add as int, state as int),
{
    let next: u128 = state.wrapping_mul(mul).wrapping_add(add);
    proof {
        let m = modulus128();
        lemma_mod_bound(state as int * mul as int, m);
        lemma_wrapped_sum((state as int * mul as int) % m, add as int, m);
        lemma_affine_mod(state as int, mul as int, add as int, m);
    }
    next
}

/// Advance a 128-bit LCG by `delta` steps in `log2(delta)` time.
pub fn lcg128_jump(mul: u128, add: u128, state: u128, delta: u128) -> (reached: u128)
    ensures
        reached == lcg_steps(modulus128(), mul as int, add as int, state as int, delta as nat),
{
    let ghost m = modulus128();
    let mut delta: u128 = delta;
    let ghost whole: nat = delta as nat;
    let ghost done: nat = 0;
    let ghost span: nat = 1;
    let mut cur_mult: u128 = mul;
    let mut cur_plus: u128 = add;
    let mut acc_mult: u128 = 1;
    let mut acc_plus: u128 = 0;
    proof {
        assert(jump_mul(m, mul as int, 0) == 1);
        assert(jump_mul(m, mul as int, 1) == (1 * mul as int) % m);
        assert(jump_add(m, mul as int, add as int, 0) == 0);
        assert(jump_add(m, mul as int, add as int, 1) == (0 * mul as int + add as int) % m);
        lemma_small_mod(mul as nat, m as nat);
        lemma_small_mod(add as nat, m as nat);
    }
    while delta > 0
        invariant
            m == modulus128(),
            done + span * delta == whole,
            acc_mult == jump_mul(m, mul as int, done),
            acc_plus == jump_add(m, mul as int, add as int, done),
            cur_mult == jump_mul(m, mul as int, span),
            cur_plus == jump_add(m, mul as int, add as int, span),
        decreases delta,
    {
        proof {
            lemma_jump_round(m, mul as int, add as int, done, span);
            lemma_mod_bound(acc_plus as int * cur_mult as int, m);
            lemma_wrapped_sum((acc_plus as int * cur_mult as int) % m, cur_plus as int, m);
            lemma_wrapped_sum(cur_mult as int, 1, m);
            assert(delta & 1 == delta % 2) by (bit_vector);
            assert(done + span * delta == if delta % 2 == 1 {
                (done + span) + (span + span) * (delta / 2)
            } else {
                done + (span + span) * (delta / 2)
            }) by (nonlinear_arith);
        }
        if (delta & 1) > 0 {
            acc_mult = acc_mult.wrapping_mul(cur_mult);
            acc_plus = acc_plus.wrapping_mul(cur_mult).wrapping_add(cur_plus);
            proof {
                done = done + span;
            }
        }
        cur_plus = cur_mult.wrapping_add(1).wrapping_mul(cur_plus);
        cur_mult = cur_mult.wrapping_mul(cur_mult);
        delta = delta / 2;
        proof {
            span = span + span;
        }
    }
    let reached: u128 = state.wrapping_mul(acc_mult).wrapping_add(acc_plus);
    proof {
        assert(done == whole) by (nonlinear_arith)
            requires
                done + span * delta == whole,
                delta == 0,
        ;
        lemma_steps_are_affine(m, mul as int, add as int, state as int, whole);
        lemma_mod_bound(state as int * acc_mult as int, m);
        lemma_wrapped_sum((state as int * acc_mult as int) % m, acc_plus as int, m);
        lemma_affine_mod(state as int, acc_mult as int, acc_plus as int, m);
    }
    reached
}

/// `x` rotated right by `r` bits (by `r` modulo 32): the low `r` bits move to
/// the top, the others move down.
pub open spec fn rotate_right32(x: u32, r: u32) -> u32 {
    if r % 32 == 0 {
        x
    } else {
        (x >> (r % 32)) | (x << ((32 - r % 32) as u32))
    }
}

/// `x` rotated right by `r` bits (by `r` modulo 64).
pub open spec fn rotate_right64(x: u64, r: u32) -> u64 {
    if r % 64 == 0 {
        x
    } else {
        (x >> (r % 64)) | (x << ((64 - r % 64) as u32))
    }
}

/// Rotates a 32-bit word to the right.
pub(crate) fn rotate_right_u32(x: u32, r: u32) -> (out: u32)
    ensures
        out == rotate_right32(x, r),
{
    let k: u32 = r % 32;
    if k == 0 {
        x
    } else {
        (x >> k) | (x << (32 - k))
    }
}

/// Rotates a 64-bit word to the right.
pub(crate) fn rotate_right_u64(x: u64, r: u32) -> (out: u64)
    ensures
        out == rotate_right64(x, r),
{
    let k: u32 = r % 64;
    if k == 0 {
        x
    } else {
        (x >> k) | (x << (64 - k))
    }
}

/// The XSH-RR permutation of a 64-bit state: the top 5 bits choose a rotation,
/// the state is folded onto itself by half of the 37 bits in play, and the 32
/// bits below the rotation selector are kept and rotated.
pub open spec fn xsh_rr(state: u64) -> u32 {
    rotate_right32(((state ^ (state >> 18)) >> 27) as u32, (state >> 59) as u32)
}

/// The XSL-RR permutation of a 128-bit state: the top 6 bits choose a
/// rotation of the two halves folded onto each other.
pub open spec fn xsl_rr(state: u128) -> u64 {
    rotate_right64((state ^ (state >> 64)) as u64, (state >> 122) as u32)
}

/// The XSL-RR-RR permutation of a 64-bit state: the folded halves, rotated by
/// the top 5 bits, become the low half; the high half, rotated by the low 5
/// bits of the new low half, stays the high half.
pub open spec fn xsl_rr_rr(state: u64) -> u64 {
    let high = (state >> 32) as u32;
    let new_low = rotate_right32(high ^ (state as u32), (state >> 59) as u32);
    let new_high = rotate_right32(high, new_low & 31);
    ((new_high as u64) << 32) | (new_low as u64)
}

/// "Xor-shift high bits" then "randomized rotate", `u64` down to `u32`.
pub fn xsh_rr_u64_to_u32(state: u64) -> (out: u32)
    ensures
        out == xsh_rr(state),
{
    let rot_amount: u32 = #[verifier::truncate] ((state >> (64 - 5)) as u32);
    let xor_shifted: u64 = state ^ (state >> ((32 + 5) / 2));
    let kept_bits: u32 = #[verifier::truncate] ((xor_shifted >> (32 - 5)) as u32);
    rotate_right_u32(kept_bits, rot_amount)
}

/// "Xor-shift low bits" then "randomized rotate", `u128` to `u64`.
pub fn xsl_rr_u128_to_u64(state: u128) -> (out: u64)
    ensures
        out == xsl_rr(state),
{
    let rot_amount: u32 = #[verifier::truncate] ((state >> (128 - 6)) as u32);
    let folded_bits: u64 = #[verifier::truncate] ((state ^ (state >> 64)) as u64);
    rotate_right_u64(folded_bits, rot_amount)
}

/// "Xor-shift low bits", then two randomized rotations, `u64` to `u64`.
pub fn xsl_rr_rr_64_64(state: u64) -> (out: u64)
    ensures
        out == xsl_rr_rr(state),
{
    let rot1: u32 = #[verifier::truncate] ((state >> 59) as u32);
    let high: u32 = #[verifier::truncate] ((state >> 32) as u32);
    let low: u32 = #[verifier::truncate] (state as u32);
    let xor_d: u32 = high ^ low;
    let new_low: u32 = rotate_right_u32(xor_d, rot1);
    let new_high: u32 = rotate_right_u32(high, new_low & 31);
    ((new_high as u64) << 32) | (new_low as u64)
}

} // verus!
