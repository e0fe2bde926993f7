//! Trait selection for generated art collections: weighted pools read from
//! named files, cross-layer conflict and force rules, and the metadata record
//! of each generated item.

pub mod assemble;
pub mod config;
pub mod draw;
pub mod factory;
pub mod laws;
pub mod layer;
pub mod nft;
pub mod rules;
pub mod select;
pub mod text;
pub mod utils;
pub mod weight;
