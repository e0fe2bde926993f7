//! The weighted draw, made by the `rand` crate.

use vstd::prelude::*;
use rand::distributions::WeightedError;
use rand::rngs::ThreadRng;
use rand::seq::SliceRandom;

verus! {

/// The generator of random numbers that each thread has, of the `rand` crate.
#[verifier::external_type_specification]
#[verifier::external_body]
pub struct ExThreadRng(rand::rngs::ThreadRng);

/// Why `rand` made no weighted draw.
#[verifier::external_type_specification]
#[verifier::external_body]
pub struct ExWeightedError(rand::distributions::WeightedError);

/// `rand::thread_rng` hands out the thread's generator. Nothing is claimed of
/// it.
pub assume_specification[ rand::thread_rng ]() -> (rng: ThreadRng)
;

/// The sum of the weights, the second parts, of `weights`.
pub open spec fn total_weight(weights: Seq<(usize, u128)>) -> int
    decreases weights.len(),
{
    if weights.len() == 0 {
        0
    } else {
        total_weight(weights.drop_last()) + weights.last().1
    }
}

/// Whether some weight of `weights` is above zero.
pub open spec fn some_weight(weights: Seq<(usize, u128)>) -> bool {
    exists|j: int| 0 <= j < weights.len() && (#[trigger] weights[j]).1 > 0
}

/// Whether `weights` holds the label `label` with a weight above zero.
pub open spec fn may_draw(weights: Seq<(usize, u128)>, label: usize) -> bool {
    exists|j: int|
        0 <= j < weights.len() && (#[trigger] weights[j]).0 == label && weights[j].1 > 0
}

/// `SliceRandom::choose_weighted` of `rand`, on pairs of a label and a
/// weight: it draws one pair, each with a chance in proportion to its weight,
/// and the label of that pair is handed back.
///
/// Claimed of it: a draw is made exactly if some weight is above zero, and the
/// pair drawn has a weight above zero. Which pair is drawn is left open. The
/// weights are summed up in 128 bits, so the sum has to fit.
#[verifier::external_body]
pub(crate) fn choose_weighted(rng: &mut ThreadRng, weights: &Vec<(usize, u128)>) -> (drawn: Result<
    usize,
    WeightedError,
>)
    requires
        total_weight(weights@) <= u128::MAX,
    ensures
        drawn is Ok <==> some_weight(weights@),
        drawn matches Ok(label) ==> may_draw(weights@, label),
{
    weights.choose_weighted(rng, |pair| pair.1).map(|pair| pair.0)
}

/// A sum of `n` weights of 64 bits stays below `n` times what 64 bits hold.
pub proof fn lemma_total_weight_bound(weights: Seq<(usize, u128)>)
    requires
        forall|j: int| 0 <= j < weights.len() ==> (#[trigger] weights[j]).1 <= u64::MAX,
    ensures
        0 <= total_weight(weights) <= weights.len() * u64::MAX,
    decreases weights.len(),
{
    if weights.len() > 0 {
        lemma_total_weight_bound(weights.drop_last());
        assert(weights.last().1 <= u64::MAX);
        assert((weights.len() - 1) * u64::MAX + u64::MAX == weights.len() * u64::MAX)
            by (nonlinear_arith);
    }
}

} // verus!
