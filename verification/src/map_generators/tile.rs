//! The output tile and the row-major grid the generators fill.

use vstd::prelude::*;
use crate::map_generators::tile_types::TileType;

verus! {

/// One output grid cell: a terrain classification and an elevation in the
/// producing generator's fixed-point scale (0 where the generator assigns
/// none).
#[derive(Debug, PartialEq, Eq, Structural, Clone, Copy)]
pub struct Tile {
    pub terrain: TileType,
    pub elevation: i64,
}

impl Tile {
    pub fn new(terrain: TileType, elevation: i64) -> (t: Tile)
        ensures
            t == (Tile { terrain, elevation }),
    {
        Tile { terrain, elevation }
    }

    pub fn terrain(&self) -> (t: TileType)
        ensures
            t == self.terrain,
    {
        self.terrain
    }

    pub fn elevation(&self) -> (e: i64)
        ensures
            e == self.elevation,
    {
        self.elevation
    }
}

/// A rectangular grid of tiles stored row-major.
#[derive(Debug)]
pub struct TileGrid {
    pub rows: usize,
    pub cols: usize,
    pub tiles: Vec<Tile>,
}

impl TileGrid {
    /// The backing vector holds exactly one tile per coordinate.
    pub open spec fn wf(self) -> bool {
        self.tiles.len() == self.rows * self.cols
    }

    /// The tile stored at a coordinate.
    pub open spec fn tile_at(self, row: int, col: int) -> Tile {
        self.tiles[row * self.cols + col]
    }

    pub fn get(&self, row: usize, col: usize) -> (t: Tile)
        requires
            self.wf(),
            row < self.rows,
            col < self.cols,
        ensures
            t == self.tile_at(row as int, col as int),
    {
        proof {
            assert(row * self.cols + col < self.rows * self.cols) by (nonlinear_arith)
                requires
                    row < self.rows,
                    col < self.cols,
            ;
        }
        self.tiles[row * self.cols + col]
    }
}

} // verus!
