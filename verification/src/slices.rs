//! Picking from a slice and shuffling it.

use crate::bounded_rand::sampled;
use crate::gen32::{next_bounded, Gen32};
use vstd::prelude::*;

verus! {

/// The contract of the standard library's `<[T]>::swap`: the elements at `a`
/// and `b` change places, and nothing else changes. Its documentation says
/// that it panics where `a` or `b` is out of bounds, so both must be within.
pub assume_specification<Elem>[ <[Elem]>::swap ](slice: &mut [Elem], a: usize, b: usize)
    requires
        a < old(slice)@.len(),
        b < old(slice)@.len(),
    ensures
        final(slice)@ == swapped(old(slice)@, a as int, b as int),
;

/// The sequence with the elements at `a` and `b` in each other's place.
pub open spec fn swapped<T>(items: Seq<T>, a: int, b: int) -> Seq<T> {
    items.update(a, items[b]).update(b, items[a])
}

/// The number of elements to choose from in a slice of `len` elements: all
/// of them, as far as a `u32` can count.
pub open spec fn choices(len: nat) -> u32 {
    if len > u32::MAX {
        u32::MAX
    } else {
        len as u32
    }
}

/// A length as a `u32`, or `u32::MAX` where it is larger.
pub fn saturating_usize_as_u32(val: usize) -> (out: u32)
    ensures
        out == choices(val as nat),
{
    if val > u32::MAX as usize {
        u32::MAX
    } else {
        val as u32
    }
}

/// Gets a value out of the slice given (by copy).
///
/// * This will not pick past index `u32::MAX`.
///
/// The slice must not be empty, and the generator must at some point yield a
/// word that the sampler accepts.
pub fn pick<T: Copy, G: Gen32>(g: &mut G, buf: &[T]) -> (out: T)
    requires
        buf@.len() > 0,
        sampled(choices(buf@.len()), *old(g)) is Some,
    ensures
        sampled(choices(buf@.len()), *old(g)) matches Some((index, rest)) && index < buf@.len()
            && out == buf@[index as int] && *final(g) == rest,
{
    let end: u32 = saturating_usize_as_u32(buf.len());
    let index: u32 = next_bounded(g, end);
    buf[index as usize]
}

/// Gets a value out of the slice given (by shared ref).
///
/// * This will not pick past index `u32::MAX`.
///
/// The slice must not be empty, and the generator must at some point yield a
/// word that the sampler accepts.
pub fn pick_ref<'b, T, G: Gen32>(g: &mut G, buf: &'b [T]) -> (out: &'b T)
    requires
        buf@.len() > 0,
        sampled(choices(buf@.len()), *old(g)) is Some,
    ensures
        sampled(choices(buf@.len()), *old(g)) matches Some((index, rest)) && index < buf@.len()
            && *out == buf@[index as int] && *final(g) == rest,
{
    let end: u32 = saturating_usize_as_u32(buf.len());
    let index: u32 = next_bounded(g, end);
    &buf[index as usize]
}

/// Gets a value out of the slice given (by unique ref).
///
/// * This will not pick past index `u32::MAX`.
///
/// The slice must not be empty, and the generator must at some point yield a
/// word that the sampler accepts.
pub fn pick_mut<'b, T, G: Gen32>(g: &mut G, buf: &'b mut [T]) -> (out: &'b mut T)
    requires
        old(buf)@.len() > 0,
        sampled(choices(old(buf)@.len()), *old(g)) is Some,
    ensures
        sampled(choices(old(buf)@.len()), *old(g)) matches Some((index, rest)) && index < old(
            buf,
        )@.len() && *out == old(buf)@[index as int] && final(buf)@ == old(buf)@.update(
            index as int,
            *final(out),
        ) && *final(g) == rest,
{
    let end: u32 = saturating_usize_as_u32(buf.len());
    let index: u32 = next_bounded(g, end);
    &mut buf[index as usize]
}

/// What shuffling `items` from the index `from` on returns on `g`, and the
/// generator that is left: at each index but the last, an offset is sampled
/// among the elements from there on, and the element at the index changes
/// places with the one at that offset from it.
pub open spec fn shuffled_from<T, G: Gen32>(items: Seq<T>, g: G, from: nat) -> Option<(Seq<T>, G)>
    decreases items.len() - from,
{
    if from + 1 >= items.len() {
        Some((items, g))
    } else {
        match sampled((items.len() - from) as u32, g) {
            Some((offset, rest)) if from + offset < items.len() => shuffled_from(
                swapped(items, from as int, from + offset),
                rest,
                from + 1,
            ),
            _ => None,
        }
    }
}

/// A sequence with two of its elements swapped holds what it held.
pub proof fn lemma_swapped_holds_the_same<T>(items: Seq<T>, a: int, b: int)
    requires
        0 <= a < items.len(),
        0 <= b < items.len(),
    ensures
        swapped(items, a, b).to_multiset() == items.to_multiset(),
        swapped(items, a, b).len() == items.len(),
{
    broadcast use {
        vstd::seq::group_seq_axioms,
        vstd::seq_lib::to_multiset_contains,
        vstd::multiset::group_multiset_axioms,
    };

    let held = items.to_multiset();
    let half = items.update(a, items[b]);
    vstd::seq_lib::to_multiset_update(items, a, items[b]);
    vstd::seq_lib::to_multiset_update(half, b, items[a]);
    assert(half[b] == items[b]);
    assert(items.contains(items[a]));
    assert(items.contains(items[b]));
    assert(held.insert(items[b]).remove(items[a]).insert(items[a]).remove(items[b]) =~= held);
}

/// Shuffles a slice in `O(len)` time.
///
/// The slice must hold an element and no more than `u32::MAX` of them, and
/// the generator must be one on which each sampling comes to an end.
pub fn shuffle<T, G: Gen32>(g: &mut G, buf: &mut [T])
    requires
        0 < old(buf)@.len() <= u32::MAX,
        shuffled_from(old(buf)@, *old(g), 0) is Some,
    ensures
        shuffled_from(old(buf)@, *old(g), 0) == Some((final(buf)@, *final(g))),
        final(buf)@.to_multiset() == old(buf)@.to_multiset(),
        final(buf)@.len() == old(buf)@.len(),
{
    // The "standard" Fisher-Yates shuffle goes backward from the end of the
    // slice, but this version accesses memory forward from the start to the
    // end.
    let ghost wanted = shuffled_from(buf@, *g, 0);
    let mut possibility_count: u32 = saturating_usize_as_u32(buf.len());
    let mut this_index: usize = 0;
    let end: usize = buf.len() - 1;
    while this_index < end
        invariant
            buf@.len() == old(buf)@.len(),
            0 < buf@.len() <= u32::MAX,
            end == buf@.len() - 1,
            this_index <= end,
            possibility_count == buf@.len() - this_index,
            shuffled_from(buf@, *g, this_index as nat) == wanted,
            wanted is Some,
            buf@.to_multiset() == old(buf)@.to_multiset(),
        decreases end - this_index,
    {
        let offset: usize = next_bounded(g, possibility_count) as usize;
        proof {
            lemma_swapped_holds_the_same(buf@, this_index as int, this_index + offset);
        }
        buf.swap(this_index, this_index + offset);
        possibility_count -= 1;
        this_index += 1;
    }
}

} // verus!
