//! The engine's only sources of randomness, behind trusted wrappers.
use rand::thread_rng;
use rand_distr::{Bernoulli, Distribution, WeightedIndex};
use vstd::prelude::*;

verus! {

/// One Bernoulli trial with probability `numerator / denominator`.
///
/// Relies on `rand_distr::Bernoulli::from_ratio` (re-exported from
/// `rand::distributions`) and its `Distribution::sample` with
/// `rand::thread_rng`: construction succeeds whenever
/// `0 < denominator` and `numerator <= denominator`; a ratio of one always
/// samples `true` and a ratio of zero always samples `false`.
#[verifier::external_body]
pub(crate) fn bernoulli_trial(numerator: u32, denominator: u32) -> (r: bool)
    requires
        0 < denominator,
        numerator <= denominator,
    ensures
        numerator == denominator ==> r,
        numerator == 0 ==> !r,
{
    let d = Bernoulli::from_ratio(numerator, denominator).unwrap();
    d.sample(&mut thread_rng())
}

/// One weighted draw over a list of weights: the index of a randomly
/// selected entry, with probability proportional to its weight.
///
/// Relies on `rand_distr::WeightedIndex::new` (re-exported from
/// `rand::distributions`) and its `Distribution::sample` with
/// `rand::thread_rng`: construction succeeds whenever the list is non-empty
/// with a positive total (the weights are widened to `u128`, so the total
/// cannot overflow), and sampling returns an index of the list, never one
/// whose weight is zero.
#[verifier::external_body]
pub(crate) fn sample_weighted_index(weights: &Vec<u32>) -> (r: usize)
    requires
        exists|i: int| 0 <= i < weights@.len() && weights@[i] > 0,
    ensures
        r < weights@.len(),
        weights@[r as int] > 0,
{
    let ws: Vec<u128> = weights.iter().map(|w| *w as u128).collect();
    let dist = WeightedIndex::new(&ws).unwrap();
    dist.sample(&mut thread_rng())
}

} // verus!
