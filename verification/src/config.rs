//! What a run is configured with, and the record that it gives each item.

use vstd::prelude::*;
use crate::factory::NFTFactory;
use crate::layer::{traits_view, LayerTrait, LayerTraitView};
use crate::nft::{NFTView, NFT};
use crate::utils::{decimal, decimal_string};

verus! {

/// What a run is configured with.
#[derive(Debug, Clone, PartialEq, Eq)]
pub struct Config {
    /// The address under which the images will be found.
    pub ipfs: String,
    pub description: String,
    pub external_url: Option<String>,
    pub name: String,
    pub edition: i32,
    pub factory: NFTFactory,
}

/// Whether `text` is the marker that stands for "no trait".
pub open spec fn is_marker(text: Seq<char>) -> bool {
    text == "!None"@
}

/// Whether a trait is listed among the attributes of a record: neither its
/// category nor its value is the marker for "no trait".
pub open spec fn is_attribute(chosen: LayerTraitView) -> bool {
    !is_marker(chosen.name) && !is_marker(chosen.value)
}

/// The traits that a record lists, in their order.
pub open spec fn attributes(traits: Seq<LayerTraitView>) -> Seq<LayerTraitView>
    decreases traits.len(),
{
    if traits.len() == 0 {
        Seq::empty()
    } else if is_attribute(traits.last()) {
        attributes(traits.drop_last()).push(traits.last())
    } else {
        attributes(traits.drop_last())
    }
}

/// The name of the item `id`: the name of the collection, ` #`, and the
/// number.
pub open spec fn item_name(name: Seq<char>, id: int) -> Seq<char> {
    name + " #"@ + decimal(id)
}

/// Where the image of the item `id` will be found.
pub open spec fn image_uri(ipfs: Seq<char>, id: int) -> Seq<char> {
    "ipfs://"@ + ipfs + "/"@ + decimal(id) + ".png"@
}

/// The page of the item `id`, where the collection has one.
pub open spec fn item_url(external_url: Option<String>, id: int) -> Option<Seq<char>> {
    match external_url {
        Some(url) => Some(url@ + "/"@ + decimal(id)),
        None => None,
    }
}

/// The record of the item `id` with the traits `traits`, whose image has the
/// fingerprint `image_hash`, made at `date`.
pub open spec fn record(
    config: Config,
    id: int,
    traits: Seq<LayerTraitView>,
    image_hash: Seq<char>,
    date: u128,
) -> NFTView {
    NFTView {
        name: item_name(config.name@, id),
        description: config.description@,
        external_url: item_url(config.external_url, id),
        background_color: None,
        animation_url: None,
        youtube_url: None,
        image: image_uri(config.ipfs@, id),
        image_hash: image_hash,
        edition: config.edition,
        date: date,
        attributes: attributes(traits),
    }
}

/// Whether `text` is the marker that stands for "no trait".
pub fn is_none_marker(text: &String) -> (yes: bool)
    ensures
        yes == is_marker(text@),
{
    let marker: String = String::from_str("!None");
    *text == marker
}

/// Copies of the traits that a record lists, in their order.
pub fn listed_traits(traits: &Vec<LayerTrait>) -> (kept: Vec<LayerTrait>)
    ensures
        traits_view(kept@) == attributes(traits_view(traits@)),
{
    let ghost all = traits_view(traits@);
    let mut kept: Vec<LayerTrait> = Vec::new();
    let mut i: usize = 0;
    assert(traits_view(kept@) =~= attributes(all.take(0)));
    while i < traits.len()
        invariant
            i <= traits@.len(),
            all == traits_view(traits@),
            traits_view(kept@) == attributes(all.take(i as int)),
        decreases traits@.len() - i,
    {
        assert(all.take(i + 1).drop_last() =~= all.take(i as int));
        assert(all.take(i + 1).last() == traits@[i as int]@);
        if !is_none_marker(&traits[i].name) && !is_none_marker(&traits[i].value) {
            let ghost before = traits_view(kept@);
            kept.push(traits[i].copy());
            assert(traits_view(kept@) =~= before.push(traits@[i as int]@));
        }
        i += 1;
    }
    assert(all.take(i as int) =~= all);
    kept
}

impl Config {
    /// The record of the item `id` with the traits `traits`, whose image has
    /// the fingerprint `image_hash`. It is dated with the time of day.
    pub fn describe(&self, id: i64, traits: &Vec<LayerTrait>, image_hash: String) -> (nft: NFT)
        ensures
            nft@ == record(*self, id as int, traits_view(traits@), image_hash@, nft.date),
    {
        let number: String = decimal_string(id);
        let mut name: String = self.name.clone();
        name.append(" #");
        name.append(number.as_str());
        let mut image: String = String::from_str("ipfs://");
        image.append(self.ipfs.as_str());
        image.append("/");
        image.append(number.as_str());
        image.append(".png");
        let external_url: Option<String> = match &self.external_url {
            Some(url) => {
                let mut page: String = url.clone();
                page.append("/");
                page.append(number.as_str());
                Some(page)
            },
            None => None,
        };
        NFT::new(
            name,
            self.description.clone(),
            image,
            image_hash,
            self.edition,
            listed_traits(traits),
            external_url,
            None,
            None,
            None,
        )
    }
}

} // verus!
