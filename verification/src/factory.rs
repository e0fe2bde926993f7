//! The factory: one pass over the layers for each item, and the order in
//! which the items are made.

use vstd::prelude::*;
use crate::layer::{
    may_choose, traits_view, Layer, LayerTrait, LayerTraitView, PoolEntry, SelectError,
};
use crate::rules::{Constraints, ConstraintsView};
use crate::select::{choice_view, listed};

verus! {

/// How many items to make, from which layers, and where to put them.
#[derive(Debug, Clone, PartialEq, Eq)]
pub struct NFTFactory {
    pub count: i64,
    pub layers: Vec<Layer>,
    pub build_path: String,
}

/// The part of the making of an item at which it broke.
#[derive(Debug, Clone, Copy, PartialEq, Eq, Structural)]
pub enum Stage {
    /// The image: opening the assets, stacking them, writing the image.
    Image,
    /// The record: writing it out.
    Record,
}

/// What has happened last in a run.
#[derive(Debug, Clone, Copy, PartialEq, Eq, Structural)]
pub enum Event {
    /// Nothing yet: the run begins.
    Started,
    /// The image and the record of this item were written.
    Written(i64),
    /// This item broke at this stage.
    Broken(i64, Stage),
}

/// What a run does next.
#[derive(Debug, Clone, Copy, PartialEq, Eq, Structural)]
pub enum Step {
    /// Make this item.
    Generate(i64),
    /// All items are made.
    Finish,
    /// Give up: this item broke at this stage.
    Abort(i64, Stage),
}

/// What a run of `count` items does after `event`: it begins with the item
/// 0, goes from each item written to the next one as long as there is one,
/// and gives up at the first item that breaks.
pub open spec fn next_step(count: i64, event: Event) -> Step {
    match event {
        Event::Started => if 0 < count {
            Step::Generate(0)
        } else {
            Step::Finish
        },
        Event::Written(id) => if id + 1 < count {
            Step::Generate((id + 1) as i64)
        } else {
            Step::Finish
        },
        Event::Broken(id, stage) => Step::Abort(id, stage),
    }
}

/// What a run of `count` items does once `done` items are written, none of
/// which broke.
pub open spec fn step_after(count: i64, done: nat) -> Step
    decreases done,
{
    if done == 0 {
        next_step(count, Event::Started)
    } else {
        match step_after(count, (done - 1) as nat) {
            Step::Generate(id) => next_step(count, Event::Written(id)),
            Step::Finish => Step::Finish,
            Step::Abort(id, stage) => Step::Abort(id, stage),
        }
    }
}

/// A run in which nothing breaks makes the items 0, 1, 2 and so on, each
/// once and in this order, up to the last one below `count`, and then
/// finishes.
pub proof fn law_run_in_order(count: i64, done: nat)
    ensures
        step_after(count, done) == if done < count {
            Step::Generate(done as i64)
        } else {
            Step::Finish
        },
    decreases done,
{
    if done > 0 {
        law_run_in_order(count, (done - 1) as nat);
    }
}

/// What a pass over the layers holds, layer by layer.
pub open spec fn outcomes_view(outcomes: Seq<Result<LayerTrait, SelectError>>) -> Seq<
    Result<LayerTraitView, SelectError>,
> {
    Seq::new(outcomes.len(), |i: int| choice_view(outcomes[i]))
}

/// The constraints that hold after the given outcomes: the conflicts and
/// forces of every trait chosen, taken together. A layer that gave no trait
/// leaves them as they were.
pub open spec fn constraints_after(
    outcomes: Seq<Result<LayerTraitView, SelectError>>,
) -> ConstraintsView
    decreases outcomes.len(),
{
    if outcomes.len() == 0 {
        ConstraintsView::empty()
    } else {
        let before = constraints_after(outcomes.drop_last());
        match outcomes.last() {
            Ok(chosen) => before.with(chosen.conflicts, chosen.forces),
            Err(_) => before,
        }
    }
}

/// What the directory of the layer at `k` holds; nothing where `pools` is
/// too short.
pub open spec fn entries_at(pools: Seq<Vec<PoolEntry>>, k: int) -> Seq<PoolEntry> {
    if 0 <= k < pools.len() {
        pools[k]@
    } else {
        Seq::empty()
    }
}

/// Whether `outcome` may follow the outcomes `before` at `layer`: it is a
/// choice from the layer's entries under the constraints that `before` has
/// laid on the layer's source.
pub open spec fn may_follow(
    layer: Layer,
    entries: Seq<PoolEntry>,
    before: Seq<Result<LayerTraitView, SelectError>>,
    outcome: Result<LayerTraitView, SelectError>,
) -> bool {
    may_choose(
        layer,
        entries,
        None,
        constraints_after(before).excluded_for(layer.source_directory@),
        constraints_after(before).required_for(layer.source_directory@),
        outcome,
    )
}

/// Whether `outcomes` is a pass over `layers`: one outcome for each layer, in
/// their order, each of which may follow those before it.
pub open spec fn may_run(
    layers: Seq<Layer>,
    pools: Seq<Vec<PoolEntry>>,
    outcomes: Seq<Result<LayerTraitView, SelectError>>,
) -> bool {
    &&& outcomes.len() == layers.len()
    &&& forall|k: int|
        0 <= k < layers.len() ==> may_follow(
            layers[k],
            entries_at(pools, k),
            outcomes.take(k),
            #[trigger] outcomes[k],
        )
}

/// The traits chosen in `outcomes`, in their order.
pub open spec fn successes(outcomes: Seq<Result<LayerTraitView, SelectError>>) -> Seq<
    LayerTraitView,
>
    decreases outcomes.len(),
{
    if outcomes.len() == 0 {
        Seq::empty()
    } else {
        match outcomes.last() {
            Ok(chosen) => successes(outcomes.drop_last()).push(chosen),
            Err(_) => successes(outcomes.drop_last()),
        }
    }
}

/// The list behind an optional list.
pub(crate) fn borrowed(values: &Option<Vec<String>>) -> (list: Option<&Vec<String>>)
    ensures
        match list {
            Some(list) => *values == Some(*list),
            None => *values is None,
        },
{
    match values {
        Some(list) => Some(list),
        None => None,
    }
}

/// The traits chosen in `outcomes`, in their order.
pub fn chosen_traits(outcomes: &Vec<Result<LayerTrait, SelectError>>) -> (traits: Vec<LayerTrait>)
    ensures
        traits_view(traits@) == successes(outcomes_view(outcomes@)),
{
    let ghost all = outcomes_view(outcomes@);
    let mut traits: Vec<LayerTrait> = Vec::new();
    let mut i: usize = 0;
    assert(traits_view(traits@) =~= successes(all.take(0)));
    while i < outcomes.len()
        invariant
            i <= outcomes@.len(),
            all == outcomes_view(outcomes@),
            traits_view(traits@) == successes(all.take(i as int)),
        decreases outcomes@.len() - i,
    {
        assert(all.take(i + 1).drop_last() =~= all.take(i as int));
        assert(all.take(i + 1).last() == choice_view(outcomes@[i as int]));
        match &outcomes[i] {
            Ok(chosen) => {
                let ghost before = traits_view(traits@);
                traits.push(chosen.copy());
                assert(traits_view(traits@) =~= before.push(chosen@));
            },
            Err(_) => {},
        }
        i += 1;
    }
    assert(all.take(i as int) =~= all);
    traits
}

impl Default for NFTFactory {
    /// A factory that makes nothing.
    fn default() -> (factory: NFTFactory)
        ensures
            factory.count == 0,
            factory.layers@.len() == 0,
            factory.build_path@.len() == 0,
    {
        NFTFactory { count: 0, layers: Vec::new(), build_path: String::new() }
    }
}

impl NFTFactory {
    pub fn new(count: i64, layers: Vec<Layer>, build_path: String) -> (factory: NFTFactory)
        ensures
            factory.count == count,
            factory.layers == layers,
            factory.build_path == build_path,
    {
        NFTFactory { count, layers, build_path }
    }

    /// One pass over the layers, in their order. `pools` holds, layer by
    /// layer, what the layer's directory holds; a layer without one has
    /// nothing to choose from.
    ///
    /// For each layer one trait is chosen from its pool, under the constraints
    /// that the traits chosen before have laid on the layer's source; the
    /// conflicts and forces of the chosen trait then join the constraints. A
    /// layer whose choice fails gives its reason in place of a trait, and
    /// leaves the constraints as they were.
    pub fn sequence(&self, pools: &Vec<Vec<PoolEntry>>) -> (outcomes: Vec<
        Result<LayerTrait, SelectError>,
    >)
        ensures
            may_run(self.layers@, pools@, outcomes_view(outcomes@)),
    {
        let mut constraints: Constraints = Constraints::new();
        let mut outcomes: Vec<Result<LayerTrait, SelectError>> = Vec::new();
        let nothing: Vec<PoolEntry> = Vec::new();
        let mut k: usize = 0;
        while k < self.layers.len()
            invariant
                k <= self.layers@.len(),
                outcomes@.len() == k,
                nothing@.len() == 0,
                constraints@ == constraints_after(outcomes_view(outcomes@)),
                forall|j: int|
                    0 <= j < k ==> may_follow(
                        self.layers@[j],
                        entries_at(pools@, j),
                        outcomes_view(outcomes@).take(j),
                        #[trigger] outcomes_view(outcomes@)[j],
                    ),
            decreases self.layers@.len() - k,
        {
            let ghost before = outcomes_view(outcomes@);
            let layer: &Layer = &self.layers[k];
            let entries: &Vec<PoolEntry> = if k < pools.len() {
                &pools[k]
            } else {
                &nothing
            };
            assert(entries@ =~= entries_at(pools@, k as int));
            let exclude: Option<Vec<String>> = constraints.excluded_for(&layer.source_directory);
            let require: Option<Vec<String>> = constraints.required_for(&layer.source_directory);
            let barred: Option<&Vec<String>> = borrowed(&exclude);
            let allowed: Option<&Vec<String>> = borrowed(&require);
            assert(listed(barred) == constraints@.excluded_for(layer.source_directory@));
            assert(listed(allowed) == constraints@.required_for(layer.source_directory@));
            let chosen: Result<LayerTrait, SelectError> = layer.choose_trait(
                entries,
                None,
                barred,
                allowed,
            );
            match &chosen {
                Ok(candidate) => {
                    constraints.merge(&candidate.conflicts, &candidate.forces);
                },
                Err(_) => {},
            }
            outcomes.push(chosen);
            proof {
                let after = outcomes_view(outcomes@);
                assert(after.drop_last() =~= before);
                assert(after.take(k as int) =~= before);
                assert(after[k as int] == choice_view(chosen));
                assert forall|j: int| 0 <= j < k + 1 implies may_follow(
                    self.layers@[j],
                    entries_at(pools@, j),
                    after.take(j),
                    #[trigger] after[j],
                ) by {
                    if j < k {
                        assert(after.take(j) =~= before.take(j));
                        assert(after[j] == before[j]);
                    }
                }
            }
            k += 1;
        }
        outcomes
    }

    /// What the run does after `event`. The one who makes and writes the
    /// items calls this first with `Event::Started`, then with what became of
    /// each item that it was told to make, until it is told to finish or to
    /// give up.
    pub fn run(&self, event: Event) -> (step: Step)
        ensures
            step == next_step(self.count, event),
    {
        match event {
            Event::Started => if 0 < self.count {
                Step::Generate(0)
            } else {
                Step::Finish
            },
            Event::Written(id) => if id < i64::MAX && id + 1 < self.count {
                Step::Generate(id + 1)
            } else {
                Step::Finish
            },
            Event::Broken(id, stage) => Step::Abort(id, stage),
        }
    }

    /// The traits of one item: those that a pass over the layers has chosen,
    /// in the order of the layers. A layer whose choice failed has none.
    pub fn generate(&self, pools: &Vec<Vec<PoolEntry>>) -> (traits: Vec<LayerTrait>)
        ensures
            exists|outcomes: Seq<Result<LayerTraitView, SelectError>>|
                may_run(self.layers@, pools@, outcomes) && traits_view(traits@) == successes(
                    outcomes,
                ),
    {
        let outcomes = self.sequence(pools);
        chosen_traits(&outcomes)
    }
}

} // verus!
