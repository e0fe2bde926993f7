//! The draw of one trait from a pool: which candidates may be drawn under the
//! values required and the values shut out, and the weighted draw among them.

use vstd::prelude::*;
use crate::draw::{choose_weighted, lemma_total_weight_bound, may_draw, some_weight, total_weight};
use crate::layer::{traits_view, LayerTrait, LayerTraitView, SelectError};
use crate::rules::strings_view;

verus! {

/// The values that an optional list of strings holds.
pub open spec fn listed(values: Option<&Vec<String>>) -> Option<Seq<Seq<char>>> {
    match values {
        Some(values) => Some(strings_view(values@)),
        None => None,
    }
}

/// Whether a trait value passes both lists: it stands in `require`, where
/// there is such a list, and does not stand in `exclude`, where there is one.
pub open spec fn admits(
    exclude: Option<Seq<Seq<char>>>,
    require: Option<Seq<Seq<char>>>,
    value: Seq<char>,
) -> bool {
    &&& (require matches Some(allowed) ==> allowed.contains(value))
    &&& (exclude matches Some(barred) ==> !barred.contains(value))
}

/// Whether a candidate can be drawn: its value passes both lists, and the
/// weight that counts for it is above zero.
pub open spec fn drawable(
    candidate: LayerTraitView,
    exclude: Option<Seq<Seq<char>>>,
    require: Option<Seq<Seq<char>>>,
) -> bool {
    admits(exclude, require, candidate.value) && candidate.weight() > 0
}

/// The candidates of `pool` that can be drawn, in their order.
pub open spec fn eligible(
    pool: Seq<LayerTraitView>,
    exclude: Option<Seq<Seq<char>>>,
    require: Option<Seq<Seq<char>>>,
) -> Seq<LayerTraitView>
    decreases pool.len(),
{
    if pool.len() == 0 {
        Seq::empty()
    } else if drawable(pool.last(), exclude, require) {
        eligible(pool.drop_last(), exclude, require).push(pool.last())
    } else {
        eligible(pool.drop_last(), exclude, require)
    }
}

/// A candidate is eligible exactly if it stands in the pool and can be drawn.
pub proof fn lemma_eligible(
    pool: Seq<LayerTraitView>,
    exclude: Option<Seq<Seq<char>>>,
    require: Option<Seq<Seq<char>>>,
    candidate: LayerTraitView,
)
    ensures
        eligible(pool, exclude, require).contains(candidate) <==> pool.contains(candidate)
            && drawable(candidate, exclude, require),
    decreases pool.len(),
{
    let open = eligible(pool, exclude, require);
    if pool.len() > 0 {
        let rest = pool.drop_last();
        let before = eligible(rest, exclude, require);
        lemma_eligible(rest, exclude, require, candidate);
        if open.contains(candidate) {
            let k = choose|k: int| 0 <= k < open.len() && open[k] == candidate;
            if k < before.len() {
                assert(before[k] == candidate);
                assert(before.contains(candidate));
                let i = choose|i: int| 0 <= i < rest.len() && rest[i] == candidate;
                assert(pool[i] == candidate);
            } else {
                assert(pool[pool.len() - 1] == candidate);
            }
        }
        if pool.contains(candidate) && drawable(candidate, exclude, require) {
            let i = choose|i: int| 0 <= i < pool.len() && pool[i] == candidate;
            if i < rest.len() {
                assert(rest[i] == candidate);
                assert(rest.contains(candidate));
                let k = choose|k: int| 0 <= k < before.len() && before[k] == candidate;
                assert(open[k] == candidate);
            } else {
                assert(open[open.len() - 1] == candidate);
            }
        }
    }
}

/// What a draw from `pool` may give: any candidate of it that can be drawn,
/// and exhaustion only where none can.
pub open spec fn may_select(
    pool: Seq<LayerTraitView>,
    exclude: Option<Seq<Seq<char>>>,
    require: Option<Seq<Seq<char>>>,
    outcome: Result<LayerTraitView, SelectError>,
) -> bool {
    match outcome {
        Ok(candidate) => eligible(pool, exclude, require).contains(candidate),
        Err(e) => e == SelectError::PoolExhausted && eligible(pool, exclude, require).len() == 0,
    }
}

/// What a choice holds.
pub open spec fn choice_view(chosen: Result<LayerTrait, SelectError>) -> Result<
    LayerTraitView,
    SelectError,
> {
    match chosen {
        Ok(candidate) => Ok(candidate@),
        Err(e) => Err(e),
    }
}

/// Whether `value` stands in `values`.
pub fn is_listed(values: &Vec<String>, value: &String) -> (found: bool)
    ensures
        found == strings_view(values@).contains(value@),
{
    let mut i: usize = 0;
    while i < values.len()
        invariant
            i <= values@.len(),
            forall|j: int| 0 <= j < i ==> strings_view(values@)[j] != value@,
        decreases values@.len() - i,
    {
        if values[i] == *value {
            assert(strings_view(values@)[i as int] == value@);
            return true;
        }
        i += 1;
    }
    false
}

/// Whether a trait value passes both lists.
pub fn is_admitted(exclude: Option<&Vec<String>>, require: Option<&Vec<String>>, value: &String) -> (yes:
    bool)
    ensures
        yes == admits(listed(exclude), listed(require), value@),
{
    let allowed: bool = match require {
        Some(values) => is_listed(values, value),
        None => true,
    };
    let barred: bool = match exclude {
        Some(values) => is_listed(values, value),
        None => false,
    };
    allowed && !barred
}

/// For each candidate of `pool` that passes both lists, in their order, its
/// index in `pool` and the weight that counts for it.
pub open spec fn weights_of(
    pool: Seq<LayerTraitView>,
    exclude: Option<Seq<Seq<char>>>,
    require: Option<Seq<Seq<char>>>,
) -> Seq<(usize, u128)>
    decreases pool.len(),
{
    if pool.len() == 0 {
        Seq::empty()
    } else if admits(exclude, require, pool.last().value) {
        weights_of(pool.drop_last(), exclude, require).push(
            ((pool.len() - 1) as usize, pool.last().weight() as u128),
        )
    } else {
        weights_of(pool.drop_last(), exclude, require)
    }
}

/// The weights listed for a pool are those of candidates that pass both
/// lists, each under its index, and every candidate that can be drawn is
/// among them.
pub proof fn lemma_weights_of(
    pool: Seq<LayerTraitView>,
    exclude: Option<Seq<Seq<char>>>,
    require: Option<Seq<Seq<char>>>,
)
    requires
        pool.len() <= usize::MAX,
    ensures
        weights_of(pool, exclude, require).len() <= pool.len(),
        forall|j: int|
            0 <= j < weights_of(pool, exclude, require).len() ==> {
                let pair = #[trigger] weights_of(pool, exclude, require)[j];
                &&& pair.0 < pool.len()
                &&& admits(exclude, require, pool[pair.0 as int].value)
                &&& pair.1 == pool[pair.0 as int].weight()
            },
        forall|i: int|
            0 <= i < pool.len() && drawable(#[trigger] pool[i], exclude, require) ==> may_draw(
                weights_of(pool, exclude, require),
                i as usize,
            ),
    decreases pool.len(),
{
    if pool.len() > 0 {
        let rest = pool.drop_last();
        let before = weights_of(rest, exclude, require);
        let all = weights_of(pool, exclude, require);
        lemma_weights_of(rest, exclude, require);
        assert forall|j: int| 0 <= j < all.len() implies {
            let pair = #[trigger] all[j];
            &&& pair.0 < pool.len()
            &&& admits(exclude, require, pool[pair.0 as int].value)
            &&& pair.1 == pool[pair.0 as int].weight()
        } by {
            if j < before.len() {
                assert(all[j] == before[j]);
                assert(rest[before[j].0 as int] == pool[before[j].0 as int]);
            }
        }
        assert forall|i: int|
            0 <= i < pool.len() && drawable(#[trigger] pool[i], exclude, require) implies may_draw(
            all,
            i as usize,
        ) by {
            if i < rest.len() {
                assert(rest[i] == pool[i]);
                let j = choose|j: int|
                    0 <= j < before.len() && (#[trigger] before[j]).0 == i as usize && before[j].1
                        > 0;
                assert(all[j] == before[j]);
            } else {
                assert(all[all.len() - 1].0 == i as usize);
            }
        }
    }
}

/// For each candidate that passes both lists, in their order, its index in
/// `candidates` and the weight that counts for it.
pub fn draw_weights(
    candidates: &Vec<LayerTrait>,
    exclude: Option<&Vec<String>>,
    require: Option<&Vec<String>>,
) -> (weights: Vec<(usize, u128)>)
    ensures
        weights@ == weights_of(traits_view(candidates@), listed(exclude), listed(require)),
        total_weight(weights@) <= u128::MAX,
{
    let ghost pool = traits_view(candidates@);
    let mut weights: Vec<(usize, u128)> = Vec::new();
    let mut i: usize = 0;
    assert(weights@ =~= weights_of(pool.take(0), listed(exclude), listed(require)));
    while i < candidates.len()
        invariant
            i <= candidates@.len(),
            pool == traits_view(candidates@),
            weights@ == weights_of(pool.take(i as int), listed(exclude), listed(require)),
        decreases candidates@.len() - i,
    {
        assert(pool.take(i + 1).drop_last() =~= pool.take(i as int));
        assert(pool.take(i + 1).last() == candidates@[i as int]@);
        if is_admitted(exclude, require, &candidates[i].value) {
            let weight: u64 = candidates[i].weight();
            weights.push((i, weight as u128));
        }
        i += 1;
    }
    proof {
        assert(pool.take(i as int) =~= pool);
        lemma_weights_of(pool, listed(exclude), listed(require));
        lemma_total_weight_bound(weights@);
        assert(weights@.len() * u64::MAX <= usize::MAX * u64::MAX) by (nonlinear_arith)
            requires
                weights@.len() <= usize::MAX,
        ;
        assert(usize::MAX * u64::MAX <= u128::MAX) by (nonlinear_arith)
            requires
                usize::MAX <= 0xffff_ffff_ffff_ffff,
                u64::MAX == 0xffff_ffff_ffff_ffff,
                u128::MAX == 0xffff_ffff_ffff_ffff_ffff_ffff_ffff_ffff,
        ;
    }
    weights
}

/// The candidate at the index that was drawn; without a draw, the pool is
/// exhausted. An index beyond the candidates counts as no draw.
pub fn take_drawn(candidates: Vec<LayerTrait>, drawn: Option<usize>) -> (taken: Result<
    LayerTrait,
    SelectError,
>)
    ensures
        match drawn {
            Some(index) if index < candidates@.len() => taken == Ok::<LayerTrait, SelectError>(
                candidates@[index as int],
            ),
            _ => taken == Err::<LayerTrait, SelectError>(SelectError::PoolExhausted),
        },
{
    let mut candidates = candidates;
    match drawn {
        Some(index) => {
            if index < candidates.len() {
                Ok(candidates.swap_remove(index))
            } else {
                Err(SelectError::PoolExhausted)
            }
        },
        None => Err(SelectError::PoolExhausted),
    }
}

/// Draws one of `candidates`, each with a chance in proportion to the weight
/// that counts for it, among those whose value stands in `require` (where
/// there is such a list) and not in `exclude` (where there is one). A
/// candidate of weight zero is never drawn.
///
/// The candidate drawn is handed back as it is. Where none can be drawn, the
/// pool is exhausted.
pub fn select(
    candidates: Vec<LayerTrait>,
    exclude: Option<&Vec<String>>,
    require: Option<&Vec<String>>,
) -> (drawn: Result<LayerTrait, SelectError>)
    ensures
        may_select(
            traits_view(candidates@),
            listed(exclude),
            listed(require),
            choice_view(drawn),
        ),
        drawn matches Ok(candidate) ==> exists|i: int|
            0 <= i < candidates@.len() && candidate == candidates@[i],
{
    let weights: Vec<(usize, u128)> = draw_weights(&candidates, exclude, require);
    let mut rng = rand::thread_rng();
    let drawn: Option<usize> = match choose_weighted(&mut rng, &weights) {
        Ok(index) => Some(index),
        Err(_) => None,
    };
    proof {
        let pool = traits_view(candidates@);
        assert(candidates.len() <= usize::MAX);
        lemma_weights_of(pool, listed(exclude), listed(require));
        match drawn {
            Some(index) => {
                let j = choose|j: int|
                    0 <= j < weights@.len() && (#[trigger] weights@[j]).0 == index && weights@[j].1
                        > 0;
                assert(pool[index as int] == candidates@[index as int]@);
                assert(pool.contains(candidates@[index as int]@));
                lemma_eligible(pool, listed(exclude), listed(require), candidates@[index as int]@);
            },
            None => {
                let open = eligible(pool, listed(exclude), listed(require));
                if open.len() > 0 {
                    assert(open.contains(open[0]));
                    lemma_eligible(pool, listed(exclude), listed(require), open[0]);
                    let i = choose|i: int| 0 <= i < pool.len() && pool[i] == open[0];
                    assert(candidates@[i]@ == open[0]);
                    assert(may_draw(weights@, i as usize));
                    let j = choose|j: int|
                        0 <= j < weights@.len() && (#[trigger] weights@[j]).0 == i as usize
                            && weights@[j].1 > 0;
                    assert(some_weight(weights@));
                }
            },
        }
    }
    take_drawn(candidates, drawn)
}

} // verus!
