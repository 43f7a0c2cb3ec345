//! Facts about remainders that the congruential arithmetic rests on.

use vstd::arithmetic::div_mod::{
    lemma_add_mod_noop, lemma_fundamental_div_mod_converse, lemma_mod_bound,
    lemma_mul_mod_noop_general, lemma_small_mod,
};
use vstd::arithmetic::mul::{lemma_mul_is_associative, lemma_mul_is_distributive_add_other_way};
use vstd::prelude::*;

verus! {

/// `2^16`, the number of values of a 16-bit word.
pub open spec fn modulus16() -> int {
    0x1_0000int
}

/// `2^32`, the number of values of a 32-bit word.
pub open spec fn modulus32() -> int {
    0x1_0000_0000int
}

/// `2^64`, the number of values of a 64-bit word.
pub open spec fn modulus64() -> int {
    0x1_0000_0000_0000_0000int
}

/// `2^128`, the number of values of a 128-bit word.
pub open spec fn modulus128() -> int {
    0x1_0000_0000_0000_0000_0000_0000_0000_0000int
}

/// Reducing a factor or the summand first does not change `(a * b + c) mod m`.
pub proof fn lemma_affine_mod(a: int, b: int, c: int, m: int)
    requires
        0 < m,
    ensures
        ((a % m) * b + c) % m == (a * b + c) % m,
        (a * (b % m) + c) % m == (a * b + c) % m,
        (a * b + (c % m)) % m == (a * b + c) % m,
        ((a * b) % m + c) % m == (a * b + c) % m,
        ((a * b) % m + (c % m)) % m == (a * b + c) % m,
{
    lemma_mul_mod_noop_general(a, b, m);
    lemma_add_mod_noop((a % m) * b, c, m);
    lemma_add_mod_noop(a * (b % m), c, m);
    lemma_add_mod_noop(a * b, c, m);
    lemma_add_mod_noop(a * b, c % m, m);
    lemma_add_mod_noop((a * b) % m, c, m);
    lemma_mod_bound(c, m);
    lemma_mod_bound(a * b, m);
    lemma_small_mod((c % m) as nat, m as nat);
    lemma_small_mod(((a * b) % m) as nat, m as nat);
}

/// A sum of two values below `m` wraps to its remainder modulo `m`.
pub proof fn lemma_wrapped_sum(x: int, y: int, m: int)
    requires
        0 <= x < m,
        0 <= y < m,
    ensures
        (x + y) % m == if x + y >= m {
            x + y - m
        } else {
            x + y
        },
{
    if x + y >= m {
        lemma_fundamental_div_mod_converse(x + y, m, 1, x + y - m);
    } else {
        lemma_small_mod((x + y) as nat, m as nat);
    }
}

/// `(a * b) * c` and `a * (b * c)` leave the same remainder, as do the two
/// ways to write `(a + b) * c`.
pub proof fn lemma_regroup(a: int, b: int, c: int)
    ensures
        (a * b) * c == a * (b * c),
        (a + b) * c == a * c + b * c,
{
    lemma_mul_is_associative(a, b, c);
    lemma_mul_is_distributive_add_other_way(c, a, b);
}

/// The value of the 32-bit signed integer that `x` wraps to.
pub open spec fn wrapped_i32(x: int) -> int {
    (x + 0x8000_0000) % 0x1_0000_0000 - 0x8000_0000
}

/// A wrapped value is a 32-bit signed integer, and one that is in range
/// already wraps to itself.
pub proof fn lemma_wrapped_i32_range(x: int)
    ensures
        -0x8000_0000 <= wrapped_i32(x) <= 0x7FFF_FFFF,
        -0x8000_0000 <= x <= 0x7FFF_FFFF ==> wrapped_i32(x) == x,
{
    lemma_mod_bound(x + 0x8000_0000, 0x1_0000_0000);
    if -0x8000_0000 <= x <= 0x7FFF_FFFF {
        lemma_small_mod((x + 0x8000_0000) as nat, 0x1_0000_0000);
    }
}

/// Wrapping once at the end is the same as wrapping on the way.
pub proof fn lemma_wrapped_i32_absorbs(x: int, y: int)
    ensures
        wrapped_i32(wrapped_i32(x) + y) == wrapped_i32(x + y),
{
    lemma_affine_mod(x + 0x8000_0000, 1, y, 0x1_0000_0000);
}

/// The wrapping sum of two 32-bit signed integers is their sum, wrapped.
pub proof fn lemma_wrapping_add_i32(a: i32, b: i32)
    ensures
        vstd::wrapping::i32_specs::wrapping_add(a, b) == wrapped_i32(a + b),
{
    let sum = a + b;
    if sum > 0x7FFF_FFFF {
        lemma_fundamental_div_mod_converse(
            sum + 0x8000_0000,
            0x1_0000_0000,
            1,
            sum - 0x8000_0000,
        );
    } else if sum < -0x8000_0000 {
        lemma_fundamental_div_mod_converse(
            sum + 0x8000_0000,
            0x1_0000_0000,
            -1,
            sum + 0x1_8000_0000,
        );
    } else {
        lemma_wrapped_i32_range(sum);
    }
}

/// The wrapping difference of two 32-bit signed integers is their
/// difference, wrapped.
pub proof fn lemma_wrapping_sub_i32(a: i32, b: i32)
    ensures
        vstd::wrapping::i32_specs::wrapping_sub(a, b) == wrapped_i32(a - b),
{
    let diff = a - b;
    if diff > 0x7FFF_FFFF {
        lemma_fundamental_div_mod_converse(
            diff + 0x8000_0000,
            0x1_0000_0000,
            1,
            diff - 0x8000_0000,
        );
    } else if diff < -0x8000_0000 {
        lemma_fundamental_div_mod_converse(
            diff + 0x8000_0000,
            0x1_0000_0000,
            -1,
            diff + 0x1_8000_0000,
        );
    } else {
        lemma_wrapped_i32_range(diff);
    }
}

} // verus!
