use std::collections::HashSet;
use rand_pcg::{Pcg64, Pcg64Mcg};
use rand_seeder::Seeder;
use worldgen::diagram::{BoundingBox, Cell, Diagram, Point};
use worldgen::map_generators::noise_map::{noise_map, NoiseMapOptions};
use worldgen::map_generators::tile_types::TileType;
use worldgen::map_generators::voronoi_continents::{
    make_continent_cells, rasterize_continents, ContinentOptions, VoronoiContinentError,
};
use worldgen::map_generators::voronoi_heightmap::{
    diagram_to_heightmap, propagate_heights, record_height, HeightMapOptions, MapCell,
    VoronoiError,
};
use worldgen::math_helpers::{is_cell_in_box, land_box, shoelace_area_of_cell};

/// A 3 x 3 grid of square cells with 10-unit spacing in a 30 x 30 box
/// centered on the origin; cell (i, j) has index 3 * i + j.
fn grid_diagram() -> Diagram {
    let mut cells = Vec::new();
    for i in 0..3i64 {
        for j in 0..3i64 {
            let cx = 10 * i - 10;
            let cy = 10 * j - 10;
            let mut neighbors = Vec::new();
            for (di, dj) in [(-1i64, 0i64), (1, 0), (0, -1), (0, 1)] {
                let (ni, nj) = (i + di, j + dj);
                if (0..3).contains(&ni) && (0..3).contains(&nj) {
                    neighbors.push((3 * ni + nj) as usize);
                }
            }
            let vertices = vec![
                Point { x: cx - 5, y: cy - 5 },
                Point { x: cx - 5, y: cy + 5 },
                Point { x: cx + 5, y: cy + 5 },
                Point { x: cx + 5, y: cy - 5 },
            ];
            cells.push(Cell { site: Point { x: cx, y: cy }, neighbors, vertices });
        }
    }
    let bounding_box = BoundingBox { center: Point { x: 0, y: 0 }, width: 30, height: 30 };
    Diagram::new(cells, bounding_box).expect("Failed to create a voronoi diagram")
}

/// A 2 x 2 symmetric layout of 50 x 50 square cells in a 100 x 100 box.
fn two_by_two_diagram() -> Diagram {
    let mut cells = Vec::new();
    let sites = [(-25i64, -25i64), (-25, 25), (25, -25), (25, 25)];
    for (i, (cx, cy)) in sites.iter().enumerate() {
        let neighbors: Vec<usize> = (0..sites.len()).filter(|j| *j != i).collect();
        let vertices = vec![
            Point { x: cx - 25, y: cy - 25 },
            Point { x: cx - 25, y: cy + 25 },
            Point { x: cx + 25, y: cy + 25 },
            Point { x: cx + 25, y: cy - 25 },
        ];
        cells.push(Cell { site: Point { x: *cx, y: *cy }, neighbors, vertices });
    }
    let bounding_box = BoundingBox { center: Point { x: 0, y: 0 }, width: 100, height: 100 };
    Diagram::new(cells, bounding_box).expect("Failed to create a voronoi diagram")
}

#[test]
fn test_continents_reach_area_target() {
    let diagram = grid_diagram();
    let options = ContinentOptions::new(900, 30, 2, 0);
    let mut rng: Pcg64 = Seeder::from("Initial Seed").make_rng();
    let continents = make_continent_cells(&diagram, &options, &mut rng).expect("growth failed");

    // each cell has doubled area 200; the loop exits the first time the
    // cumulative area passes 30 percent of 900
    assert_eq!(continents.all_continent_cells.len(), 3);
    assert!(continents.all_continent_cells.len() <= 9);
    let area2: u64 = 200 * continents.all_continent_cells.len() as u64;
    assert!(area2 * 100 > 2 * 900 * 30);
    // the overshoot is bounded by the last-added cell
    assert!((area2 - 200) * 100 <= 2 * 900 * 30);
    assert_eq!(continents.initial_cells.len(), 2);
}

#[test]
fn test_continents_partition_land_cells() {
    let diagram = grid_diagram();
    let options = ContinentOptions::new(900, 60, 3, 0);
    let mut rng: Pcg64 = Seeder::from("partition").make_rng();
    let continents = make_continent_cells(&diagram, &options, &mut rng).expect("growth failed");

    let all: HashSet<usize> = continents.all_continent_cells.iter().copied().collect();
    assert_eq!(all.len(), continents.all_continent_cells.len(), "land cells repeat");

    let mut union: HashSet<usize> = HashSet::new();
    for (p, continent) in continents.continents.iter().enumerate() {
        assert!(!continent.is_empty());
        for cell in continent {
            assert!(union.insert(*cell), "continent {} re-claims cell {}", p, cell);
        }
    }
    assert_eq!(union, all);
    assert_eq!(continents.continents.len(), 3);

    for seed in &continents.initial_cells {
        assert!(all.contains(seed));
    }

    // each continent is connected: every member after the seed entered as a
    // neighbor of an earlier member
    for continent in &continents.continents {
        for (k, cell) in continent.iter().enumerate().skip(1) {
            let linked = continent[..k]
                .iter()
                .any(|earlier| diagram.cells[*earlier].neighbors.contains(cell));
            assert!(linked, "cell {} is not adjacent to an earlier member", cell);
        }
    }
}

#[test]
fn test_continents_error_when_land_box_empty() {
    let diagram = grid_diagram();
    // full water padding leaves a zero-sized land box: no eligible cell
    let options = ContinentOptions::new(900, 30, 2, 100);
    let mut rng: Pcg64 = Seeder::from("Initial Seed").make_rng();
    let result = make_continent_cells(&diagram, &options, &mut rng);
    assert_eq!(result.unwrap_err(), VoronoiContinentError::DiagramChooseError);
}

#[test]
fn test_continents_stall_when_target_unreachable() {
    // a single cell with no neighbors cannot reach a 100 percent target
    let cells = vec![Cell {
        site: Point { x: 0, y: 0 },
        neighbors: Vec::new(),
        vertices: vec![
            Point { x: -5, y: -5 },
            Point { x: -5, y: 5 },
            Point { x: 5, y: 5 },
            Point { x: 5, y: -5 },
        ],
    }];
    let bounding_box = BoundingBox { center: Point { x: 0, y: 0 }, width: 30, height: 30 };
    let diagram = Diagram::new(cells, bounding_box).unwrap();
    let options = ContinentOptions::new(900, 100, 1, 0);
    let mut rng: Pcg64 = Seeder::from("Initial Seed").make_rng();
    let result = make_continent_cells(&diagram, &options, &mut rng);
    assert_eq!(result.unwrap_err(), VoronoiContinentError::GrowthStalled);
}

#[test]
fn test_heightmap_water_cells_are_flat() {
    let diagram = grid_diagram();
    // 10 percent water padding leaves only the center cell fully inside
    let options = HeightMapOptions::new(1_000_000, 800, None, 10, 1);
    assert_eq!(options.keep_percent, 90);
    let mut rng: Pcg64Mcg = Seeder::from("Initial Seed").make_rng();
    let cells = diagram_to_heightmap(&diagram, &mut rng, options).expect("propagation failed");

    assert_eq!(cells.len(), 9);
    for (i, cell) in cells.iter().enumerate() {
        assert_eq!(cell.cell_index, i);
        assert!(cell.height <= 1_000_000);
    }
    assert_eq!(cells[4].height, 1_000_000, "the only seed keeps the maximum height");
    for (i, cell) in cells.iter().enumerate() {
        if i != 4 {
            assert_eq!(cell.height, 0, "cell {} lies outside the land box", i);
        }
    }
}

#[test]
fn test_heightmap_seeds_keep_maximum_height() {
    let diagram = grid_diagram();
    let lb = land_box(&diagram.bounding_box, 100);
    let seeds = vec![0usize, 8];
    let options = HeightMapOptions::new(1_000_000, 500, None, 0, 2);
    let mut rng: Pcg64Mcg = Seeder::from("Initial Seed").make_rng();
    let cells: Vec<MapCell> =
        propagate_heights(&diagram, &lb, &seeds, &mut rng, &options).expect("propagation failed");

    assert_eq!(cells.len(), 9);
    assert_eq!(cells[0].height, 1_000_000);
    assert_eq!(cells[8].height, 1_000_000);
    let at_max = cells.iter().filter(|c| c.height == 1_000_000).count();
    assert_eq!(at_max, 2, "only the seeds stay at the maximum");
    for cell in &cells {
        assert!(cell.height <= 1_000_000);
    }
}

#[test]
fn test_heightmap_error_when_land_box_empty() {
    let diagram = grid_diagram();
    let options = HeightMapOptions::new(1_000_000, 800, None, 100, 1);
    let mut rng: Pcg64Mcg = Seeder::from("Initial Seed").make_rng();
    let result = diagram_to_heightmap(&diagram, &mut rng, options);
    assert_eq!(result.unwrap_err(), VoronoiError::DiagramChooseError);
}

#[test]
fn test_heightmap_stalls_on_disconnected_cells() {
    let cells = vec![
        Cell {
            site: Point { x: -10, y: 0 },
            neighbors: Vec::new(),
            vertices: Vec::new(),
        },
        Cell {
            site: Point { x: 10, y: 0 },
            neighbors: Vec::new(),
            vertices: Vec::new(),
        },
    ];
    let bounding_box = BoundingBox { center: Point { x: 0, y: 0 }, width: 30, height: 30 };
    let diagram = Diagram::new(cells, bounding_box).unwrap();
    let options = HeightMapOptions::new(1_000_000, 800, None, 0, 1);
    let mut rng: Pcg64Mcg = Seeder::from("Initial Seed").make_rng();
    let result = diagram_to_heightmap(&diagram, &mut rng, options);
    assert_eq!(result.unwrap_err(), VoronoiError::PropagationStalled);
}

#[test]
fn test_heightmap_variance_band() {
    let diagram = grid_diagram();
    // step 0.5 with a 0.2 variance band can never overshoot the maximum
    let options = HeightMapOptions::new(1_000_000, 500, Some(200), 0, 2);
    let mut rng: Pcg64Mcg = Seeder::from("rugged").make_rng();
    let cells = diagram_to_heightmap(&diagram, &mut rng, options).expect("propagation failed");
    assert_eq!(cells.len(), 9);
    for cell in &cells {
        assert!(cell.height <= 1_000_000);
    }
    let at_max = cells.iter().filter(|c| c.height == 1_000_000).count();
    assert_eq!(at_max, 2);
}

#[test]
fn test_rasterizer_matches_membership_at_sites() {
    let diagram = two_by_two_diagram();
    let options = ContinentOptions::new(10_000, 30, 1, 0);
    let mut rng: Pcg64 = Seeder::from("Initial Seed").make_rng();
    let continents = make_continent_cells(&diagram, &options, &mut rng).expect("growth failed");

    let zeros = vec![0i64; 100 * 100];
    let grid = rasterize_continents(&diagram, &continents, 100, 100, 1, &zeros, &zeros);
    assert_eq!(grid.rows, 100);
    assert_eq!(grid.cols, 100);
    assert_eq!(grid.tiles.len(), 100 * 100);

    let land: HashSet<usize> = continents.all_continent_cells.iter().copied().collect();
    let sites = [(-25i64, -25i64), (-25, 25), (25, -25), (25, 25)];
    for (index, (sx, sy)) in sites.iter().enumerate() {
        // the tile whose query point is exactly the site
        let row = (sx + 50) as usize;
        let col = (sy + 50) as usize;
        let tile = grid.get(row, col);
        let expected = if land.contains(&index) {
            TileType::Grassland
        } else {
            TileType::Water
        };
        assert_eq!(tile.terrain(), expected, "site {} misclassified", index);
        assert_eq!(tile.elevation(), 0);
    }
}

#[test]
fn test_noise_map_blends_and_classifies() {
    let options = NoiseMapOptions::new(2, 2, 7);
    // pixel (1, 1) of a 2 x 2 map is the exact center of the falloff
    let samples = vec![0i64, 0, 0, -2_000_000];
    let grid = noise_map(&options, &samples);
    assert_eq!(grid.rows, 2);
    assert_eq!(grid.cols, 2);

    // at the center the falloff is 0, so the blend of a -2.0 sample is -0.5
    let center = grid.get(1, 1);
    assert_eq!(center.terrain(), TileType::Water);
    assert_eq!(center.elevation(), -500_000);

    // at the corner the falloff is 1, so a 0.0 sample blends to exactly 0
    let corner = grid.get(0, 0);
    assert_eq!(corner.terrain(), TileType::Grassland);
    assert_eq!(corner.elevation(), 0);
}

#[test]
fn test_noise_map_small_negative_blend_is_water() {
    let options = NoiseMapOptions::new(2, 2, 7);
    // at the corner the falloff is 1, so a -1e-6 sample blends to -5e-7:
    // still water, and the stored elevation keeps the negative sign
    let samples = vec![-1i64, 0, 0, 0];
    let grid = noise_map(&options, &samples);
    let corner = grid.get(0, 0);
    assert_eq!(corner.terrain(), TileType::Water);
    assert_eq!(corner.elevation(), -1);
    assert!(corner.elevation() < 0);
}

#[test]
fn test_noise_map_options_default() {
    let options = NoiseMapOptions::default();
    assert_eq!(options.map_width, 1920);
    assert_eq!(options.map_height, 1080);
    let again = NoiseMapOptions::default();
    assert_eq!(options.seed, again.seed, "the default seed string is fixed");
}

#[test]
fn test_cell_containment_checks_site_and_vertices() {
    let diagram = grid_diagram();
    let lb = land_box(&diagram.bounding_box, 90);
    // the center cell's square lies fully inside the shrunk box
    assert!(is_cell_in_box(&diagram, 4, &lb));
    // an edge cell's outer vertices poke out of it
    assert!(!is_cell_in_box(&diagram, 0, &lb));
    assert!(!is_cell_in_box(&diagram, 5, &lb));
}

#[test]
fn test_cell_area() {
    let diagram = grid_diagram();
    // every cell is a 10 x 10 square
    for index in 0..9 {
        assert_eq!(shoelace_area_of_cell(&diagram, index) as f64 / 2.0, 100.0);
    }
}

#[test]
fn test_record_height_is_monotonic_max() {
    let mut heights = vec![0u64, 0, 0];
    let mut assigned = vec![false, false, false];
    let mut used_count = 0usize;

    record_height(&mut heights, &mut assigned, &mut used_count, 1, 700);
    assert_eq!(heights, vec![0, 700, 0]);
    assert_eq!(used_count, 1);

    // a lower height for the same cell never lowers the stored one
    record_height(&mut heights, &mut assigned, &mut used_count, 1, 300);
    assert_eq!(heights, vec![0, 700, 0]);
    assert_eq!(used_count, 1);

    // only a strictly greater height replaces it
    record_height(&mut heights, &mut assigned, &mut used_count, 1, 900);
    assert_eq!(heights, vec![0, 900, 0]);
    assert_eq!(used_count, 1);

    record_height(&mut heights, &mut assigned, &mut used_count, 0, 900);
    assert_eq!(heights, vec![900, 900, 0]);
    assert_eq!(used_count, 2);
}

#[test]
fn test_atlas_indices() {
    assert_eq!(TileType::Grassland.to_atlas_index(), 0);
    assert_eq!(TileType::Water.to_atlas_index(), 1);
    assert_eq!(TileType::default(), TileType::Water);
}
