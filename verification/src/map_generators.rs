//! The terrain-generation strategies and their shared building blocks.

pub mod noise_map;
pub mod selection;
pub mod tile;
pub mod tile_types;
pub mod voronoi_continents;
pub mod voronoi_heightmap;
