//! Procedural 2D world-terrain generation, driven by a reproducible seed.
//!
//! The generators work on a planar cell partition with integer coordinates
//! (`diagram`), so every geometric decision — distances, polygon areas,
//! containment — is exact and carries a proof.  Three strategies produce
//! terrain: continents grown through the neighbor graph and rasterized with
//! noise-perturbed nearest-site queries, a breadth-first heightmap with
//! decaying heights, and a standalone fractal-noise map.  Floating-point
//! concerns — placing random sites, building the partition, sampling noise
//! fields — belong to the caller, who hands their results in as plain
//! integer values.

pub mod diagram;
pub mod map_generators;
pub mod math_helpers;
pub mod rng;
