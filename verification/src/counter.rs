//! A fixed-length array of 32-bit words read as one number, least significant
//! word first.

use crate::modular::modulus32;
use vstd::arithmetic::div_mod::{lemma_fundamental_div_mod_converse, lemma_small_mod};
use vstd::prelude::*;

verus! {

/// `2^(32 * n)`: the number of values that `n` words can hold.
pub open spec fn counter_modulus(n: nat) -> int
    decreases n,
{
    if n == 0 {
        1
    } else {
        modulus32() * counter_modulus((n - 1) as nat)
    }
}

/// The number that the words spell, the word at index 0 being the least
/// significant digit in base `2^32`.
pub open spec fn counter_value(digits: Seq<u32>) -> int
    decreases digits.len(),
{
    if digits.len() == 0 {
        0
    } else {
        counter_value(digits.drop_last()) + counter_modulus((digits.len() - 1) as nat)
            * digits.last()
    }
}

/// The array with one added at index `from`, the carry moving up as long as a
/// word overflows and falling off the top.
pub open spec fn counter_carried<const K: usize>(ext: [u32; K], from: nat) -> [u32; K]
    decreases K - from,
{
    if from >= K {
        ext
    } else if ext@[from as int] == u32::MAX {
        counter_carried(vstd::array::spec_array_update(ext, from as int, 0u32), from + 1)
    } else {
        vstd::array::spec_array_update(ext, from as int, (ext@[from as int] + 1) as u32)
    }
}

/// The array with `delta` added to its lowest word and the carry, if any,
/// moved up.
pub open spec fn counter_added<const K: usize>(ext: [u32; K], delta: u32) -> [u32; K] {
    if K == 0 {
        ext
    } else {
        let sum = ext@[0] + delta;
        let low = vstd::array::spec_array_update(ext, 0, (sum % modulus32()) as u32);
        if sum >= modulus32() {
            counter_carried(low, 1)
        } else {
            low
        }
    }
}

/// The modulus is positive.
pub proof fn lemma_counter_modulus_positive(n: nat)
    ensures
        0 < counter_modulus(n),
    decreases n,
{
    if n > 0 {
        lemma_counter_modulus_positive((n - 1) as nat);
        assert(0 < modulus32() * counter_modulus((n - 1) as nat)) by (nonlinear_arith)
            requires
                0 < counter_modulus((n - 1) as nat),
                modulus32() == 0x1_0000_0000,
        ;
    }
}

/// The words of a counter spell a number below the modulus of their length.
pub proof fn lemma_counter_value_bounded(digits: Seq<u32>)
    ensures
        0 <= counter_value(digits) < counter_modulus(digits.len()),
    decreases digits.len(),
{
    if digits.len() > 0 {
        let top = counter_modulus((digits.len() - 1) as nat);
        lemma_counter_value_bounded(digits.drop_last());
        lemma_counter_modulus_positive((digits.len() - 1) as nat);
        assert(0 <= top * digits.last() && top * digits.last() + top <= modulus32() * top)
            by (nonlinear_arith)
            requires
                0 < top,
                0 <= digits.last() < 0x1_0000_0000,
                modulus32() == 0x1_0000_0000,
        ;
    }
}

/// Replacing the word at `index` changes the number by the difference of the
/// words, weighted by the place.
pub proof fn lemma_counter_value_update(digits: Seq<u32>, index: int, digit: u32)
    requires
        0 <= index < digits.len(),
    ensures
        counter_value(digits.update(index, digit)) == counter_value(digits) + counter_modulus(
            index as nat,
        ) * (digit - digits[index]),
    decreases digits.len(),
{
    let changed = digits.update(index, digit);
    let place = counter_modulus(index as nat);
    if index == digits.len() - 1 {
        assert(changed.drop_last() =~= digits.drop_last());
        assert(place * digit == place * digits[index] + place * (digit - digits[index]))
            by (nonlinear_arith);
    } else {
        assert(changed.drop_last() =~= digits.drop_last().update(index, digit));
        lemma_counter_value_update(digits.drop_last(), index, digit);
    }
}

/// Adding one at a place adds the weight of that place, modulo the counter's
/// modulus: the carry that leaves the top word is dropped.
pub proof fn lemma_counter_carried_value<const K: usize>(ext: [u32; K], from: nat)
    requires
        from <= K,
    ensures
        counter_value(counter_carried(ext, from)@) == (counter_value(ext@) + counter_modulus(
            from,
        )) % counter_modulus(K as nat),
    decreases K - from,
{
    broadcast use vstd::array::group_array_axioms;

    let total = counter_modulus(K as nat);
    let place = counter_modulus(from);
    let value = counter_value(ext@);
    lemma_counter_value_bounded(ext@);
    assert(ext@.len() == K);
    if from >= K {
        lemma_fundamental_div_mod_converse(value + place, total, 1, value);
    } else if ext@[from as int] == u32::MAX {
        let cleared = vstd::array::spec_array_update(ext, from as int, 0u32);
        lemma_counter_carried_value(cleared, from + 1);
        lemma_counter_value_update(ext@, from as int, 0u32);
        assert(counter_modulus(from + 1) == modulus32() * place);
        assert(value + place * (0 - 0xffff_ffff) + 0x1_0000_0000 * place == value + place)
            by (nonlinear_arith);
    } else {
        let digit = (ext@[from as int] + 1) as u32;
        let raised = vstd::array::spec_array_update(ext, from as int, digit);
        lemma_counter_value_update(ext@, from as int, digit);
        lemma_counter_value_bounded(raised@);
        assert(place * (digit - ext@[from as int]) == place) by (nonlinear_arith)
            requires
                digit - ext@[from as int] == 1,
        ;
        lemma_small_mod((value + place) as nat, total as nat);
    }
}

/// Adding to a counter adds to the number that it spells, modulo the
/// counter's modulus.
pub proof fn lemma_counter_added_value<const K: usize>(ext: [u32; K], delta: u32)
    ensures
        counter_value(counter_added(ext, delta)@) == (counter_value(ext@) + delta)
            % counter_modulus(K as nat),
{
    broadcast use vstd::array::group_array_axioms;

    let total = counter_modulus(K as nat);
    let value = counter_value(ext@);
    lemma_counter_value_bounded(ext@);
    assert(ext@.len() == K);
    if K == 0 {
        assert(ext@.len() == 0);
        assert((0 + delta) % 1 == 0);
    } else {
        let sum = ext@[0] + delta;
        let digit = (sum % modulus32()) as u32;
        let low = vstd::array::spec_array_update(ext, 0, digit);
        lemma_counter_value_update(ext@, 0, digit);
        assert(counter_modulus(0) == 1);
        assert(counter_modulus(1) == modulus32() * counter_modulus(0));
        assert(counter_value(low@) == value + (digit - ext@[0]));
        if sum >= modulus32() {
            lemma_fundamental_div_mod_converse(sum, modulus32(), 1, sum - modulus32());
            lemma_counter_carried_value(low, 1);
        } else {
            lemma_small_mod(sum as nat, modulus32() as nat);
            lemma_counter_value_bounded(low@);
            lemma_small_mod((value + delta) as nat, total as nat);
        }
    }
}

} // verus!
