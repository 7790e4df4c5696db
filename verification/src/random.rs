//! The random draws the drill needs, made by the `rand` crate. Nothing here is
//! proved: each item states of `rand` what its source shows, and the rest of
//! the library is verified against these statements for every outcome of a
//! draw.

use rand::distributions::Distribution;
use rand::distributions::WeightedError;
use rand::distributions::WeightedIndex;
use rand::rngs::ThreadRng;
use rand::seq::IteratorRandom;
use rand::seq::SliceRandom;
use vstd::prelude::*;

verus! {

/// The thread-local generator of `rand`, carried through as an opaque value.
#[verifier::external_type_specification]
#[verifier::external_body]
pub struct ExThreadRng(ThreadRng);

/// The error of `WeightedIndex::new`, carried through as an opaque value.
#[verifier::external_type_specification]
#[verifier::external_body]
pub struct ExWeightedError(WeightedError);

/// A `rand::distributions::WeightedIndex` over `u64` weights: a distribution
/// over the positions of a list of weights. Verus sees nothing inside; what it
/// was built from is named by `dist_weights`.
#[verifier::external_body]
pub struct WeightedDist {
    inner: WeightedIndex<u64>,
}

/// The weights that a distribution was built from, in their order.
pub uninterp spec fn dist_weights(dist: WeightedDist) -> Seq<u64>;

/// The sum of a list of weights.
pub open spec fn total_weight(w: Seq<u64>) -> int
    decreases w.len(),
{
    if w.len() == 0 {
        0
    } else {
        total_weight(w.drop_last()) + w.last()
    }
}

/// `rand::thread_rng` hands out the calling thread's generator. Nothing is
/// claimed of it.
pub assume_specification[ rand::thread_rng ]() -> (rng: ThreadRng);

/// Calls `WeightedIndex::new`. Trusted: it sums the weights in the weight type
/// without a check, so the sum has to fit; it fails exactly when there is no
/// weight or when all weights are zero (an unsigned weight is never negative);
/// and the distribution it returns is over the positions of these weights.
#[verifier::external_body]
pub(crate) fn weighted_index(weights: &Vec<u64>) -> (r: Result<WeightedDist, WeightedError>)
    requires
        total_weight(weights@) <= u64::MAX,
    ensures
        r is Ok <==> (weights.len() > 0 && total_weight(weights@) > 0),
        match r {
            Ok(d) => dist_weights(d) == weights@,
            Err(_) => true,
        },
{
    match WeightedIndex::new(weights) {
        Ok(inner) => Ok(WeightedDist { inner }),
        Err(e) => Err(e),
    }
}

/// Calls `Distribution::sample` on a weighted index. Trusted: it draws a number
/// below the total weight and returns the position whose span of the running
/// sum holds that number, so the position is in range and its weight is not
/// zero. Which position comes out is left open.
#[verifier::external_body]
pub(crate) fn sample_index(dist: &WeightedDist, rng: &mut ThreadRng) -> (i: usize)
    ensures
        i < dist_weights(*dist).len(),
        dist_weights(*dist)[i as int] > 0,
{
    dist.inner.sample(rng)
}

/// Calls `SliceRandom::choose`. Trusted: an empty slice gives nothing, any
/// other gives one of its elements. Which element comes out is left open.
#[verifier::external_body]
pub(crate) fn choose_element<'a, T>(items: &'a Vec<T>, rng: &mut ThreadRng) -> (r: Option<&'a T>)
    ensures
        items.len() == 0 ==> r is None,
        items.len() > 0 ==> r is Some && items@.contains(*r->Some_0),
{
    items.choose(rng)
}

/// Calls `IteratorRandom::choose` on the items of a vector. Trusted: no item
/// gives nothing, otherwise one of the items comes out. Which one is left
/// open.
#[verifier::external_body]
pub(crate) fn choose_item<T>(items: Vec<T>, rng: &mut ThreadRng) -> (r: Option<T>)
    ensures
        items.len() == 0 ==> r is None,
        items.len() > 0 ==> r is Some && items@.contains(r->Some_0),
{
    items.into_iter().choose(rng)
}

/// Calls `SliceRandom::shuffle`. Trusted: it only swaps elements, so the
/// vector holds the same elements as before, each as often as before. Their
/// order is left open.
#[verifier::external_body]
pub(crate) fn shuffle(v: &mut Vec<usize>, rng: &mut ThreadRng)
    ensures
        final(v)@.to_multiset() == old(v)@.to_multiset(),
{
    v.shuffle(rng)
}

} // verus!
