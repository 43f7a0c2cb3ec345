//! Repeating a trial until it is accepted.
//!
//! A sampler that rejects some of what it draws runs a loop whose length
//! depends on the generator. This module says what such a loop returns, for
//! any generator state, without running it: the value of the first accepted
//! trial, the state that is left, and the number of trials rejected before.

use vstd::prelude::*;

verus! {

/// A trial from a state of type `G`: `None` where the trial itself never
/// ends; otherwise the accepted value, or `None` for a rejection, with the
/// state that the trial leaves.
pub type Trial<T, G> = spec_fn(G) -> Option<(Option<T>, G)>;

/// The outcome of repeating `trial` from `g`, as far as at most `fuel`
/// rejections allow: the first accepted value, the state it leaves, and the
/// number of rejections before it.
pub open spec fn retry_within<T, G>(trial: Trial<T, G>, g: G, fuel: nat) -> Option<(T, G, nat)>
    decreases fuel,
{
    match trial(g) {
        None => None,
        Some((Some(value), rest)) => Some((value, rest, 0nat)),
        Some((None, rest)) => if fuel == 0 {
            None
        } else {
            match retry_within(trial, rest, (fuel - 1) as nat) {
                None => None,
                Some((value, last, rejected)) => Some((value, last, rejected + 1)),
            }
        },
    }
}

/// Whether repeating `trial` from `g` comes to an accepted value at all.
pub open spec fn retry_ends<T, G>(trial: Trial<T, G>, g: G) -> bool {
    exists|fuel: nat| (#[trigger] retry_within(trial, g, fuel)) is Some
}

/// The outcome of repeating `trial` from `g` until it is accepted; `None`
/// where that never happens.
pub open spec fn retry<T, G>(trial: Trial<T, G>, g: G) -> Option<(T, G, nat)> {
    if retry_ends(trial, g) {
        retry_within(trial, g, choose|fuel: nat| (#[trigger] retry_within(trial, g, fuel)) is Some)
    } else {
        None
    }
}

/// More fuel than needed changes nothing.
pub proof fn lemma_retry_more_fuel<T, G>(trial: Trial<T, G>, g: G, fuel: nat, more: nat)
    requires
        retry_within(trial, g, fuel) is Some,
        fuel <= more,
    ensures
        retry_within(trial, g, more) == retry_within(trial, g, fuel),
    decreases fuel,
{
    match trial(g) {
        Some((None, rest)) => {
            lemma_retry_more_fuel(trial, rest, (fuel - 1) as nat, (more - 1) as nat);
        },
        _ => {},
    }
}

/// Any fuel that is enough gives the outcome.
pub proof fn lemma_retry_enough_fuel<T, G>(trial: Trial<T, G>, g: G, fuel: nat)
    requires
        retry_within(trial, g, fuel) is Some,
    ensures
        retry(trial, g) == retry_within(trial, g, fuel),
{
    let chosen = choose|f: nat| (#[trigger] retry_within(trial, g, f)) is Some;
    if chosen <= fuel {
        lemma_retry_more_fuel(trial, g, chosen, fuel);
    } else {
        lemma_retry_more_fuel(trial, g, fuel, chosen);
    }
}

/// The outcome of the loop in terms of its first trial: an accepted value
/// ends it, a rejection leaves the outcome of the loop from the next state,
/// with one rejection more.
pub proof fn lemma_retry_unfold<T, G>(trial: Trial<T, G>, g: G)
    ensures
        retry(trial, g) == match trial(g) {
            None => None,
            Some((Some(value), rest)) => Some((value, rest, 0nat)),
            Some((None, rest)) => match retry(trial, rest) {
                None => None,
                Some((value, last, rejected)) => Some((value, last, rejected + 1)),
            },
        },
{
    match trial(g) {
        None => {
            assert forall|fuel: nat| (#[trigger] retry_within(trial, g, fuel)) is None by {}
        },
        Some((Some(value), rest)) => {
            lemma_retry_enough_fuel(trial, g, 0);
        },
        Some((None, rest)) => {
            if retry_ends(trial, rest) {
                let fuel = choose|f: nat| (#[trigger] retry_within(trial, rest, f)) is Some;
                lemma_retry_enough_fuel(trial, rest, fuel);
                assert(retry_within(trial, g, fuel + 1) is Some);
                lemma_retry_enough_fuel(trial, g, fuel + 1);
            } else {
                assert forall|fuel: nat| (#[trigger] retry_within(trial, g, fuel)) is None by {
                    if fuel > 0 {
                        assert(retry_within(trial, rest, (fuel - 1) as nat) is None);
                    }
                }
            }
        },
    }
}

/// Fuel that is enough for the loop, where the loop ends.
pub proof fn lemma_retry_fuel<T, G>(trial: Trial<T, G>, g: G) -> (fuel: nat)
    requires
        retry(trial, g) is Some,
    ensures
        retry_within(trial, g, fuel) == retry(trial, g),
{
    choose|f: nat| (#[trigger] retry_within(trial, g, f)) is Some
}

} // verus!
