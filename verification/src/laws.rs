//! What holds of every scan, every draw and every pass over the layers,
//! whatever the files hold and however the dice fall.

use vstd::prelude::*;
use crate::config::{record, Config};
use crate::factory::{constraints_after, entries_at, may_follow, may_run, successes};
use crate::layer::{
    directory_weight, may_choose, scan_entries, scan_entry, Layer, LayerTraitView, PoolEntry,
    SelectError,
};
use crate::rules::{gathered, lemma_rules_joined, names_source, rules_of, table_view, RuleView};
use crate::select::{lemma_eligible, may_select};
use crate::text::{split_first, split_last};
use crate::weight::{lemma_weight_fits, weight_of};

verus! {

/// A value stands in two lists put together exactly if it stands in one of
/// them.
pub proof fn lemma_joined_contains<T>(first: Seq<T>, second: Seq<T>, value: T)
    ensures
        (first + second).contains(value) <==> first.contains(value) || second.contains(value),
{
    let both = first + second;
    if first.contains(value) {
        let i = choose|i: int| 0 <= i < first.len() && first[i] == value;
        assert(both[i] == value);
    }
    if second.contains(value) {
        let i = choose|i: int| 0 <= i < second.len() && second[i] == value;
        assert(both[first.len() + i] == value);
    }
    if both.contains(value) {
        let i = choose|i: int| 0 <= i < both.len() && both[i] == value;
        if i < first.len() {
            assert(first[i] == value);
        } else {
            assert(second[i - first.len()] == value);
        }
    }
}

/// A trait that was chosen stands in the pool that the scan of the layer's
/// entries gives, and the weight that counts for it is above zero.
pub proof fn law_chosen_is_scanned(
    layer: Layer,
    entries: Seq<PoolEntry>,
    nested: Option<u64>,
    exclude: Option<Seq<Seq<char>>>,
    require: Option<Seq<Seq<char>>>,
    chosen: LayerTraitView,
)
    requires
        may_choose(layer, entries, nested, exclude, require, Ok(chosen)),
    ensures
        scan_entries(layer, entries, nested) matches Ok(pool) && pool.contains(chosen),
        chosen.weight() > 0,
{
    let pool = scan_entries(layer, entries, nested).unwrap();
    lemma_eligible(pool, exclude, require, chosen);
}

/// Every candidate of a pool belongs to the layer's category, carries the
/// rules that the layer's tables give for its value, and has a weight above
/// zero, by its file's name and by the directory it lies in, as long as the
/// scan starts under no weight or under one above zero.
pub proof fn law_scanned_candidate(
    layer: Layer,
    entries: Seq<PoolEntry>,
    nested: Option<u64>,
    candidate: LayerTraitView,
)
    requires
        nested matches Some(weight) ==> weight > 0,
        scan_entries(layer, entries, nested) matches Ok(pool) && pool.contains(candidate),
    ensures
        candidate.name == layer.trait_name@,
        candidate.conflicts == rules_of(table_view(layer.conflicts), candidate.value),
        candidate.forces == rules_of(table_view(layer.forces), candidate.value),
        candidate.percent > 0,
        candidate.nested_percent matches Some(weight) ==> weight > 0,
        candidate.weight() > 0,
    decreases entries,
{
    let pool = scan_entries(layer, entries, nested).unwrap();
    if entries.len() > 0 {
        let found = scan_entries(layer, entries.drop_last(), nested).unwrap();
        let more = scan_entry(layer, entries.last(), nested).unwrap();
        lemma_joined_contains(found, more, candidate);
        if found.contains(candidate) {
            law_scanned_candidate(layer, entries.drop_last(), nested, candidate);
        } else {
            match entries.last() {
                PoolEntry::Unreadable => {},
                PoolEntry::File { name, path } => {
                    assert(more[0] == candidate);
                    let parts = split_first(name@, layer.percent_symbol@).unwrap();
                    let rate = split_last(parts.1, seq!['.']).unwrap();
                    lemma_weight_fits(rate.0);
                },
                PoolEntry::Directory { name, path, entries: inner } => {
                    let parts = split_last(name@, layer.percent_symbol@).unwrap();
                    lemma_weight_fits(parts.1);
                    let weight = directory_weight(layer.percent_symbol@, name@).unwrap().unwrap();
                    law_scanned_candidate(layer, inner@, Some(weight), candidate);
                },
            }
        }
    }
}

/// Where no layer fails, the traits of the item are the outcomes of the
/// layers, one for each layer and in the order of the layers.
pub proof fn law_every_layer_listed(outcomes: Seq<Result<LayerTraitView, SelectError>>)
    requires
        forall|k: int| 0 <= k < outcomes.len() ==> (#[trigger] outcomes[k]) is Ok,
    ensures
        successes(outcomes).len() == outcomes.len(),
        forall|k: int|
            0 <= k < outcomes.len() ==> Ok::<LayerTraitView, SelectError>(
                #[trigger] successes(outcomes)[k],
            ) == outcomes[k],
    decreases outcomes.len(),
{
    if outcomes.len() > 0 {
        let rest = outcomes.drop_last();
        assert forall|k: int| 0 <= k < rest.len() implies (#[trigger] rest[k]) is Ok by {
            assert(rest[k] == outcomes[k]);
        }
        law_every_layer_listed(rest);
        assert forall|k: int| 0 <= k < outcomes.len() implies Ok::<LayerTraitView, SelectError>(
            #[trigger] successes(outcomes)[k],
        ) == outcomes[k] by {
            if k < rest.len() {
                assert(successes(outcomes)[k] == successes(rest)[k]);
                assert(rest[k] == outcomes[k]);
            }
        }
    }
}

/// The traits of an item are never more than the layers.
pub proof fn law_at_most_one_trait_each(outcomes: Seq<Result<LayerTraitView, SelectError>>)
    ensures
        successes(outcomes).len() <= outcomes.len(),
    decreases outcomes.len(),
{
    if outcomes.len() > 0 {
        law_at_most_one_trait_each(outcomes.drop_last());
    }
}

/// Two scans, one after the other: no pool where either gives none, else the
/// two pools in a row.
pub open spec fn joined(
    first: Result<Seq<LayerTraitView>, SelectError>,
    second: Result<Seq<LayerTraitView>, SelectError>,
) -> Result<Seq<LayerTraitView>, SelectError> {
    match first {
        Err(e) => Err(e),
        Ok(found) => match second {
            Err(e) => Err(e),
            Ok(more) => Ok(found + more),
        },
    }
}

/// The scan of entries in a row is the scan of the first, then the scan of
/// the rest.
pub proof fn lemma_scan_joined(
    layer: Layer,
    first: Seq<PoolEntry>,
    second: Seq<PoolEntry>,
    nested: Option<u64>,
)
    ensures
        scan_entries(layer, first + second, nested) == joined(
            scan_entries(layer, first, nested),
            scan_entries(layer, second, nested),
        ),
    decreases second.len(),
{
    if second.len() == 0 {
        assert(first + second =~= first);
        match scan_entries(layer, first, nested) {
            Ok(found) => {
                assert(found + Seq::<LayerTraitView>::empty() =~= found);
            },
            Err(_) => {},
        }
    } else {
        let both = first + second;
        assert(both.drop_last() =~= first + second.drop_last());
        assert(both.last() == second.last());
        lemma_scan_joined(layer, first, second.drop_last(), nested);
        match scan_entries(layer, first, nested) {
            Ok(found) => {
                match scan_entries(layer, second.drop_last(), nested) {
                    Ok(middle) => {
                        match scan_entry(layer, second.last(), nested) {
                            Ok(more) => {
                                assert((found + middle) + more =~= found + (middle + more));
                            },
                            Err(_) => {},
                        }
                    },
                    Err(_) => {},
                }
            },
            Err(_) => {},
        }
    }
}

/// A directory whose weight is not above zero counts for nothing, whatever
/// lies in it: the scan gives what it gives without that directory.
pub proof fn law_disabled_directory(
    layer: Layer,
    entries: Seq<PoolEntry>,
    at: int,
    nested: Option<u64>,
)
    requires
        0 <= at < entries.len(),
        entries[at] matches PoolEntry::Directory { name, .. } && split_last(
            name@,
            layer.percent_symbol@,
        ) matches Some(parts) && weight_of(parts.1) matches Some(weight) && weight <= 0,
    ensures
        scan_entries(layer, entries, nested) == scan_entries(layer, entries.remove(at), nested),
{
    let before = entries.take(at);
    let this = seq![entries[at]];
    let after = entries.skip(at + 1);
    assert(entries =~= before + (this + after));
    assert(entries.remove(at) =~= before + after);
    lemma_scan_joined(layer, before, this + after, nested);
    lemma_scan_joined(layer, this, after, nested);
    lemma_scan_joined(layer, before, after, nested);
    let nothing = Seq::<LayerTraitView>::empty();
    assert(this.drop_last() =~= Seq::<PoolEntry>::empty());
    assert(this.last() == entries[at]);
    assert(scan_entry(layer, entries[at], nested) == Ok::<Seq<LayerTraitView>, SelectError>(
        nothing,
    ));
    assert(nothing + nothing =~= nothing);
    assert(scan_entries(layer, Seq::<PoolEntry>::empty(), nested) == Ok::<
        Seq<LayerTraitView>,
        SelectError,
    >(nothing));
    assert(scan_entries(layer, this, nested) == Ok::<Seq<LayerTraitView>, SelectError>(nothing));
    match scan_entries(layer, before, nested) {
        Ok(found) => {
            match scan_entries(layer, after, nested) {
                Ok(more) => {
                    assert(nothing + more =~= more);
                },
                Err(_) => {},
            }
        },
        Err(_) => {},
    }
}

/// A candidate that was drawn stands in the pool, has a weight above zero,
/// stands in the list of required values where there is one, and does not
/// stand in the list of excluded values where there is one.
pub proof fn law_drawn_passes_lists(
    pool: Seq<LayerTraitView>,
    exclude: Option<Seq<Seq<char>>>,
    require: Option<Seq<Seq<char>>>,
    drawn: LayerTraitView,
)
    requires
        may_select(pool, exclude, require, Ok(drawn)),
    ensures
        pool.contains(drawn),
        drawn.weight() > 0,
        require matches Some(allowed) ==> allowed.contains(drawn.value),
        exclude matches Some(barred) ==> !barred.contains(drawn.value),
{
    lemma_eligible(pool, exclude, require, drawn);
}

/// Where some value is both required and excluded, the draw fails, the pool
/// being exhausted, unless the pool holds a candidate of a weight above zero
/// whose value is required and not excluded.
pub proof fn law_required_and_excluded(
    pool: Seq<LayerTraitView>,
    barred: Seq<Seq<char>>,
    allowed: Seq<Seq<char>>,
    outcome: Result<LayerTraitView, SelectError>,
)
    requires
        exists|value: Seq<char>| allowed.contains(value) && barred.contains(value),
        forall|candidate: LayerTraitView|
            pool.contains(candidate) && candidate.weight() > 0 && allowed.contains(
                candidate.value,
            ) ==> barred.contains(candidate.value),
        may_select(pool, Some(barred), Some(allowed), outcome),
    ensures
        outcome == Err::<LayerTraitView, SelectError>(SelectError::PoolExhausted),
{
    match outcome {
        Ok(drawn) => {
            lemma_eligible(pool, Some(barred), Some(allowed), drawn);
        },
        Err(_) => {},
    }
}

/// Whether the outcome at `j` is a trait whose forces name `source`.
pub open spec fn forces_at(
    outcomes: Seq<Result<LayerTraitView, SelectError>>,
    j: int,
    source: Seq<char>,
) -> bool {
    outcomes[j] matches Ok(chosen) && names_source(chosen.forces, source)
}

/// Whether the outcome at `j` is a trait whose forces list `value` for
/// `source`.
pub open spec fn forced_at(
    outcomes: Seq<Result<LayerTraitView, SelectError>>,
    j: int,
    source: Seq<char>,
    value: Seq<char>,
) -> bool {
    outcomes[j] matches Ok(chosen) && gathered(chosen.forces, source).contains(value)
}

/// Whether the outcome at `j` is a trait whose conflicts name `source`.
pub open spec fn conflicts_at(
    outcomes: Seq<Result<LayerTraitView, SelectError>>,
    j: int,
    source: Seq<char>,
) -> bool {
    outcomes[j] matches Ok(chosen) && names_source(chosen.conflicts, source)
}

/// Whether the outcome at `j` is a trait whose conflicts list `value` for
/// `source`.
pub open spec fn barred_at(
    outcomes: Seq<Result<LayerTraitView, SelectError>>,
    j: int,
    source: Seq<char>,
    value: Seq<char>,
) -> bool {
    outcomes[j] matches Ok(chosen) && gathered(chosen.conflicts, source).contains(value)
}

/// The constraints after some outcomes hold what the traits chosen in them
/// carry, and nothing else: a layer is held to a list exactly if the forces
/// of some chosen trait name it, a value is required of it exactly if some of
/// them list it, and likewise for conflicts and the values shut out.
pub proof fn law_constraints_gather(
    outcomes: Seq<Result<LayerTraitView, SelectError>>,
    source: Seq<char>,
    value: Seq<char>,
)
    ensures
        names_source(constraints_after(outcomes).required, source) <==> exists|j: int|
            0 <= j < outcomes.len() && #[trigger] forces_at(outcomes, j, source),
        gathered(constraints_after(outcomes).required, source).contains(value) <==> exists|j: int|
            0 <= j < outcomes.len() && #[trigger] forced_at(outcomes, j, source, value),
        names_source(constraints_after(outcomes).excluded, source) <==> exists|j: int|
            0 <= j < outcomes.len() && #[trigger] conflicts_at(outcomes, j, source),
        gathered(constraints_after(outcomes).excluded, source).contains(value) <==> exists|j: int|
            0 <= j < outcomes.len() && #[trigger] barred_at(outcomes, j, source, value),
    decreases outcomes.len(),
{
    if outcomes.len() == 0 {
        assert(!names_source(Seq::<RuleView>::empty(), source));
    } else {
        let rest = outcomes.drop_last();
        let last = outcomes.len() - 1;
        let before = constraints_after(rest);
        law_constraints_gather(rest, source, value);
        assert forall|j: int| 0 <= j < rest.len() implies forces_at(rest, j, source) == forces_at(
            outcomes,
            j,
            source,
        ) && forced_at(rest, j, source, value) == forced_at(outcomes, j, source, value)
            && conflicts_at(rest, j, source) == conflicts_at(outcomes, j, source) && barred_at(
            rest,
            j,
            source,
            value,
        ) == barred_at(outcomes, j, source, value) by {
            assert(rest[j] == outcomes[j]);
        }
        match outcomes.last() {
            Ok(chosen) => {
                lemma_rules_joined(before.required, chosen.forces, source);
                lemma_rules_joined(before.excluded, chosen.conflicts, source);
                lemma_joined_contains(
                    gathered(before.required, source),
                    gathered(chosen.forces, source),
                    value,
                );
                lemma_joined_contains(
                    gathered(before.excluded, source),
                    gathered(chosen.conflicts, source),
                    value,
                );
            },
            Err(_) => {},
        }
        let after = constraints_after(outcomes);
        if names_source(after.required, source) {
            if names_source(before.required, source) {
                let j = choose|j: int| 0 <= j < rest.len() && #[trigger] forces_at(rest, j, source);
                assert(forces_at(outcomes, j, source));
            } else {
                assert(forces_at(outcomes, last, source));
            }
        }
        if exists|j: int| 0 <= j < outcomes.len() && #[trigger] forces_at(outcomes, j, source) {
            let j = choose|j: int|
                0 <= j < outcomes.len() && #[trigger] forces_at(outcomes, j, source);
            if j < last {
                assert(forces_at(rest, j, source));
            }
        }
        if gathered(after.required, source).contains(value) {
            if gathered(before.required, source).contains(value) {
                let j = choose|j: int|
                    0 <= j < rest.len() && #[trigger] forced_at(rest, j, source, value);
                assert(forced_at(outcomes, j, source, value));
            } else {
                assert(forced_at(outcomes, last, source, value));
            }
        }
        if exists|j: int|
            0 <= j < outcomes.len() && #[trigger] forced_at(outcomes, j, source, value) {
            let j = choose|j: int|
                0 <= j < outcomes.len() && #[trigger] forced_at(outcomes, j, source, value);
            if j < last {
                assert(forced_at(rest, j, source, value));
            }
        }
        if names_source(after.excluded, source) {
            if names_source(before.excluded, source) {
                let j = choose|j: int|
                    0 <= j < rest.len() && #[trigger] conflicts_at(rest, j, source);
                assert(conflicts_at(outcomes, j, source));
            } else {
                assert(conflicts_at(outcomes, last, source));
            }
        }
        if exists|j: int| 0 <= j < outcomes.len() && #[trigger] conflicts_at(outcomes, j, source) {
            let j = choose|j: int|
                0 <= j < outcomes.len() && #[trigger] conflicts_at(outcomes, j, source);
            if j < last {
                assert(conflicts_at(rest, j, source));
            }
        }
        if gathered(after.excluded, source).contains(value) {
            if gathered(before.excluded, source).contains(value) {
                let j = choose|j: int|
                    0 <= j < rest.len() && #[trigger] barred_at(rest, j, source, value);
                assert(barred_at(outcomes, j, source, value));
            } else {
                assert(barred_at(outcomes, last, source, value));
            }
        }
        if exists|j: int|
            0 <= j < outcomes.len() && #[trigger] barred_at(outcomes, j, source, value) {
            let j = choose|j: int|
                0 <= j < outcomes.len() && #[trigger] barred_at(outcomes, j, source, value);
            if j < last {
                assert(barred_at(rest, j, source, value));
            }
        }
    }
}

/// A trait chosen for a later layer takes no value that the conflicts of a
/// trait chosen before it list for that layer.
pub proof fn law_conflicts_bind(
    layers: Seq<Layer>,
    pools: Seq<Vec<PoolEntry>>,
    outcomes: Seq<Result<LayerTraitView, SelectError>>,
    a: int,
    b: int,
)
    requires
        may_run(layers, pools, outcomes),
        0 <= a < b < layers.len(),
        outcomes[a] is Ok,
        outcomes[b] is Ok,
    ensures
        !gathered(outcomes[a].unwrap().conflicts, layers[b].source_directory@).contains(
            outcomes[b].unwrap().value,
        ),
{
    let source = layers[b].source_directory@;
    let first = outcomes[a].unwrap();
    let second = outcomes[b].unwrap();
    let before = outcomes.take(b);
    assert(may_follow(layers[b], entries_at(pools, b), before, outcomes[b]));
    let pool = scan_entries(layers[b], entries_at(pools, b), None).unwrap();
    let exclude = constraints_after(before).excluded_for(source);
    let require = constraints_after(before).required_for(source);
    lemma_eligible(pool, exclude, require, second);
    law_constraints_gather(before, source, second.value);
    if gathered(first.conflicts, source).contains(second.value) {
        assert(before[a] == outcomes[a]);
        assert(barred_at(before, a, source, second.value));
        crate::rules::lemma_gathered_contains(first.conflicts, source, second.value);
        assert(names_source(first.conflicts, source));
        assert(conflicts_at(before, a, source));
    }
}

/// Whether `candidate` stands in the pool of `layer`.
pub open spec fn in_pool(layer: Layer, entries: Seq<PoolEntry>, candidate: LayerTraitView) -> bool {
    scan_entries(layer, entries, None) matches Ok(pool) && pool.contains(candidate)
}

/// Whether the trait chosen at `a` is the only one, among those chosen before
/// the layer at `b`, that counts for what is required of that layer: whatever
/// value of a candidate of its pool another one requires, the one at `a`
/// lists too.
pub open spec fn forces_alone(
    layers: Seq<Layer>,
    pools: Seq<Vec<PoolEntry>>,
    outcomes: Seq<Result<LayerTraitView, SelectError>>,
    a: int,
    b: int,
) -> bool {
    forall|j: int, candidate: LayerTraitView|
        0 <= j < b && j != a && #[trigger] forced_at(
            outcomes,
            j,
            layers[b].source_directory@,
            candidate.value,
        ) && in_pool(layers[b], entries_at(pools, b), candidate) ==> gathered(
            outcomes[a].unwrap().forces,
            layers[b].source_directory@,
        ).contains(candidate.value)
}

/// Where the forces of a trait chosen for one layer name a later layer, the
/// later layer takes none but the values that those forces list for it; and
/// where its pool holds no candidate of such a value, it gives no trait: its
/// pool is exhausted. This holds as long as no other trait chosen before the
/// later layer requires of it a value of its pool that the first does not
/// list.
pub proof fn law_forces_bind(
    layers: Seq<Layer>,
    pools: Seq<Vec<PoolEntry>>,
    outcomes: Seq<Result<LayerTraitView, SelectError>>,
    a: int,
    b: int,
)
    requires
        may_run(layers, pools, outcomes),
        0 <= a < b < layers.len(),
        forces_at(outcomes, a, layers[b].source_directory@),
        forces_alone(layers, pools, outcomes, a, b),
    ensures
        outcomes[b] matches Ok(second) ==> gathered(
            outcomes[a].unwrap().forces,
            layers[b].source_directory@,
        ).contains(second.value),
        (scan_entries(layers[b], entries_at(pools, b), None) matches Ok(pool) && forall|
            candidate: LayerTraitView,
        |
            pool.contains(candidate) ==> !gathered(
                outcomes[a].unwrap().forces,
                layers[b].source_directory@,
            ).contains(candidate.value)) ==> outcomes[b] == Err::<LayerTraitView, SelectError>(
            SelectError::PoolExhausted,
        ),
{
    let source = layers[b].source_directory@;
    let first = outcomes[a].unwrap();
    let before = outcomes.take(b);
    assert(may_follow(layers[b], entries_at(pools, b), before, outcomes[b]));
    let exclude = constraints_after(before).excluded_for(source);
    let require = constraints_after(before).required_for(source);
    assert(before[a] == outcomes[a]);
    assert(forces_at(before, a, source));
    law_constraints_gather(before, source, Seq::empty());
    assert(require is Some);
    match outcomes[b] {
        Ok(second) => {
            let pool = scan_entries(layers[b], entries_at(pools, b), None).unwrap();
            lemma_eligible(pool, exclude, require, second);
            law_constraints_gather(before, source, second.value);
            let j = choose|j: int|
                0 <= j < before.len() && #[trigger] forced_at(before, j, source, second.value);
            assert(before[j] == outcomes[j]);
            assert(forced_at(outcomes, j, source, second.value));
            assert(in_pool(layers[b], entries_at(pools, b), second));
        },
        Err(_) => {},
    }
}

/// Two records of the same item, made at different times, differ in their
/// date and in nothing else.
pub proof fn law_record_but_for_date(
    config: Config,
    id: int,
    traits: Seq<LayerTraitView>,
    image_hash: Seq<char>,
    first: u128,
    second: u128,
)
    ensures
        record(config, id, traits, image_hash, first).dated(second) == record(
            config,
            id,
            traits,
            image_hash,
            second,
        ),
{
}

} // verus!
