//! The metadata record of one item.

use vstd::prelude::*;
use crate::layer::{traits_view, LayerTrait, LayerTraitView};
use crate::utils::timestamp;

verus! {

/// The record that is written beside the image of an item.
#[derive(Debug, Clone, PartialEq, Eq)]
pub struct NFT {
    pub name: String,
    pub description: String,
    pub external_url: Option<String>,
    pub background_color: Option<String>,
    pub animation_url: Option<String>,
    pub youtube_url: Option<String>,
    /// Where the image is to be found.
    pub image: String,
    /// The fingerprint of the image, in hexadecimal.
    pub image_hash: String,
    pub edition: i32,
    /// When the record was made, in milliseconds since the Unix epoch.
    pub date: u128,
    /// The traits of the item, in the order of the layers.
    pub attributes: Vec<LayerTrait>,
}

pub struct NFTView {
    pub name: Seq<char>,
    pub description: Seq<char>,
    pub external_url: Option<Seq<char>>,
    pub background_color: Option<Seq<char>>,
    pub animation_url: Option<Seq<char>>,
    pub youtube_url: Option<Seq<char>>,
    pub image: Seq<char>,
    pub image_hash: Seq<char>,
    pub edition: i32,
    pub date: u128,
    pub attributes: Seq<LayerTraitView>,
}

/// What an optional text holds.
pub open spec fn text_view(text: Option<String>) -> Option<Seq<char>> {
    match text {
        Some(text) => Some(text@),
        None => None,
    }
}

impl View for NFT {
    type V = NFTView;

    open spec fn view(&self) -> NFTView {
        NFTView {
            name: self.name@,
            description: self.description@,
            external_url: text_view(self.external_url),
            background_color: text_view(self.background_color),
            animation_url: text_view(self.animation_url),
            youtube_url: text_view(self.youtube_url),
            image: self.image@,
            image_hash: self.image_hash@,
            edition: self.edition,
            date: self.date,
            attributes: traits_view(self.attributes@),
        }
    }
}

impl NFTView {
    /// The record with another date.
    pub open spec fn dated(self, date: u128) -> NFTView {
        NFTView { date: date, ..self }
    }
}

impl NFT {
    /// A record of the given parts, dated with the time of day.
    pub fn new(
        name: String,
        description: String,
        image_url: String,
        image_hash: String,
        edition: i32,
        traits: Vec<LayerTrait>,
        external_url: Option<String>,
        background_color: Option<String>,
        animation_url: Option<String>,
        youtube_url: Option<String>,
    ) -> (nft: NFT)
        ensures
            nft.name == name,
            nft.description == description,
            nft.image == image_url,
            nft.image_hash == image_hash,
            nft.edition == edition,
            nft.attributes == traits,
            nft.external_url == external_url,
            nft.background_color == background_color,
            nft.animation_url == animation_url,
            nft.youtube_url == youtube_url,
    {
        NFT {
            name,
            description,
            edition,
            image_hash,
            image: image_url,
            date: timestamp(),
            attributes: traits,
            external_url,
            background_color,
            animation_url,
            youtube_url,
        }
    }
}

} // verus!
