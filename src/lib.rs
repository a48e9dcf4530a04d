//! Decoder for the layered tilemap format used by KKnD 2 level data.
//!
//! The decoder turns the un-wrapped map bytes into a [`LevelMap`]: an ordered
//! list of layers, each holding its grid of tile keys and the RGBA images of
//! the tiles that the grid refers to, decoded through the embedded palette.
//! Each distinct tile is decoded once per layer. The [`view`] module holds
//! the decisions of a viewer that scrolls over a decoded map.
use vstd::prelude::*;

pub mod bytes;
pub mod entry;
pub mod map;
pub mod palette;
pub mod tile;
pub mod view;

pub use entry::{decode_extracted, decode_self_contained, find_map_entry};
pub use map::{parse_map, read_layer, read_raw_tile, LevelMap, MapError, MapLayer};
pub use palette::Colour;
pub use tile::{create_tile_from_raw, BadPaletteIndex, Tile};
pub use view::{MapViewEvent, Panning, ViewKey, VisibleArea};

verus! {

} // verus!
