use vstd::prelude::*;
use rand::distributions::Distribution;
use rand::distributions::WeightedIndex;
use rand::rngs::StdRng;

verus! {

/// The generator of `rand` that routing draws from; a seeded one makes a run
/// repeatable.
#[verifier::external_type_specification]
#[verifier::external_body]
pub struct ExStdRng(StdRng);

/// Sum of a list of weights.
pub open spec fn total_weight(weights: Seq<u32>) -> int
    decreases weights.len(),
{
    if weights.len() == 0 {
        0
    } else {
        total_weight(weights.drop_last()) + weights.last()
    }
}

/// Draws an index with `rand`'s `WeightedIndex::new(weights)` and its
/// `sample(rng)`. Building the distribution fails on an empty list, on a sum
/// of zero and on a sum that leaves `u32`; the `requires` leaves those out.
/// The draw is an index into the list, and never one whose weight is zero.
/// How often each index comes is `rand`'s business and is not stated.
#[verifier::external_body]
pub(crate) fn sample_weighted(weights: &Vec<u32>, rng: &mut StdRng) -> (idx: usize)
    requires
        weights@.len() > 0,
        0 < total_weight(weights@) <= u32::MAX,
    ensures
        idx < weights@.len(),
        weights@[idx as int] > 0,
{
    WeightedIndex::new(weights).unwrap().sample(rng)
}

} // verus!
