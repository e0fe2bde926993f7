//! What the assembly of an item's image needs to know: which assets to stack,
//! in which order, and under which names the item's files go.

use vstd::prelude::*;
use crate::config::{is_marker, is_none_marker};
use crate::layer::{traits_view, LayerTrait, LayerTraitView};
use crate::utils::{decimal, decimal_string};

verus! {

/// The side of the square that every asset is fitted into, in pixels.
pub const CANVAS: u32 = 350;

/// Whether the asset of a trait goes into the image: always, but for a trait
/// that stands for "no trait" and has no asset.
pub open spec fn is_stacked(chosen: LayerTraitView) -> bool {
    !((is_marker(chosen.name) || is_marker(chosen.value)) && chosen.path.len() == 0)
}

/// The assets of the traits that go into the image, in the order of the
/// traits.
pub open spec fn assets(traits: Seq<LayerTraitView>) -> Seq<Seq<char>>
    decreases traits.len(),
{
    if traits.len() == 0 {
        Seq::empty()
    } else if is_stacked(traits.last()) {
        assets(traits.drop_last()).push(traits.last().path)
    } else {
        assets(traits.drop_last())
    }
}

/// The order in which assets are stacked, lowest first: the last one is the
/// ground, and the others go on top of it in their order.
pub open spec fn stacked(paths: Seq<Seq<char>>) -> Seq<Seq<char>> {
    if paths.len() == 0 {
        Seq::empty()
    } else {
        seq![paths.last()] + paths.drop_last()
    }
}

/// What a list of strings holds.
pub open spec fn paths_view(paths: Seq<String>) -> Seq<Seq<char>> {
    Seq::new(paths.len(), |i: int| paths[i]@)
}

/// The assets to stack for an item with the traits `traits`, lowest first.
/// There is nothing to stack exactly if the list is empty.
pub fn stacking_order(traits: &Vec<LayerTrait>) -> (order: Vec<String>)
    ensures
        paths_view(order@) == stacked(assets(traits_view(traits@))),
{
    let ghost all = traits_view(traits@);
    let mut paths: Vec<String> = Vec::new();
    let mut i: usize = 0;
    assert(paths_view(paths@) =~= assets(all.take(0)));
    while i < traits.len()
        invariant
            i <= traits@.len(),
            all == traits_view(traits@),
            paths_view(paths@) == assets(all.take(i as int)),
        decreases traits@.len() - i,
    {
        assert(all.take(i + 1).drop_last() =~= all.take(i as int));
        assert(all.take(i + 1).last() == traits@[i as int]@);
        let marked: bool = is_none_marker(&traits[i].name) || is_none_marker(&traits[i].value);
        if !(marked && traits[i].path.as_str().unicode_len() == 0) {
            let ghost before = paths_view(paths@);
            paths.push(traits[i].path.clone());
            assert(paths_view(paths@) =~= before.push(traits@[i as int]@.path));
        }
        i += 1;
    }
    assert(all.take(i as int) =~= all);
    let ghost found = paths_view(paths@);
    let mut order: Vec<String> = Vec::new();
    match paths.pop() {
        None => {
            assert(paths_view(order@) =~= stacked(found));
        },
        Some(ground) => {
            let ghost others = paths_view(paths@);
            assert(others =~= found.drop_last());
            order.push(ground);
            order.append(&mut paths);
            assert(paths_view(order@) =~= seq![found.last()] + others);
        },
    }
    order
}

/// The name of the image of the item `id`, below the build directory.
pub open spec fn image_name(id: int) -> Seq<char> {
    "images/"@ + decimal(id) + ".png"@
}

/// The name of the record of the item `id`, below the build directory.
pub open spec fn record_name(id: int) -> Seq<char> {
    "json/"@ + decimal(id) + ".json"@
}

/// The name of the image of the item `id`, below the build directory.
pub fn image_file(id: i64) -> (name: String)
    ensures
        name@ == image_name(id as int),
{
    let mut name: String = String::from_str("images/");
    name.append(decimal_string(id).as_str());
    name.append(".png");
    name
}

/// The name of the record of the item `id`, below the build directory.
pub fn record_file(id: i64) -> (name: String)
    ensures
        name@ == record_name(id as int),
{
    let mut name: String = String::from_str("json/");
    name.append(decimal_string(id).as_str());
    name.append(".json");
    name
}

} // verus!
