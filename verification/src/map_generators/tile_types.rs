//! The terrain classification carried by every generated tile.

use vstd::prelude::*;

verus! {

/// The kind of terrain a generated tile holds.
#[derive(Debug, PartialEq, Eq, Structural, Clone, Copy)]
pub enum TileType {
    Water,
    Grassland,
}

impl Default for TileType {
    fn default() -> (t: Self)
        ensures
            t == TileType::Water,
    {
        TileType::Water
    }
}

impl TileType {
    /// The index of this terrain's sprite in the display layer's tile atlas.
    pub fn to_atlas_index(&self) -> (idx: u32)
        ensures
            idx == match self {
                TileType::Grassland => 0u32,
                TileType::Water => 1u32,
            },
    {
        match self {
            Self::Grassland => 0,
            Self::Water => 1,
        }
    }
}

} // verus!
