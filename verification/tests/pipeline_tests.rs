use fastnoise_lite::{FastNoiseLite, FractalType, NoiseType};
use rand::Rng;
use rand_pcg::Pcg64;
use rand_seeder::Seeder;
use worldgen::diagram::{BoundingBox, Cell, Diagram, Point};
use worldgen::map_generators::tile::TileGrid;
use worldgen::map_generators::voronoi_continents::{make_continent_cells, rasterize_continents, ContinentOptions};
use worldgen::math_helpers::create_new_seed32;

const SCALE: f64 = 1000.0;

/// Builds the planar partition with voronoice from random sites and converts
/// it into the library's integer-coordinate diagram.
fn build_diagram(map_size_x: usize, map_size_y: usize, rng: &mut Pcg64, cell_count: usize) -> Diagram {
    let half_x = map_size_x as f64 / 2.0;
    let half_y = map_size_y as f64 / 2.0;
    let x_range = rand::distributions::Uniform::new(-half_x, half_x);
    let y_range = rand::distributions::Uniform::new(-half_y, half_y);
    let sites: Vec<voronoice::Point> = (0..cell_count)
        .map(|_| voronoice::Point { x: rng.sample(x_range), y: rng.sample(y_range) })
        .collect();

    let voronoi_diagram = voronoice::VoronoiBuilder::default()
        .set_sites(sites)
        .set_bounding_box(voronoice::BoundingBox::new_centered(
            map_size_x as f64,
            map_size_y as f64,
        ))
        .set_lloyd_relaxation_iterations(30)
        .build()
        .expect("Failed to create a voronoi diagram");

    let mut cells = Vec::new();
    for cell in voronoi_diagram.iter_cells() {
        let site = cell.site_position();
        let site = Point { x: (site.x * SCALE).round() as i64, y: (site.y * SCALE).round() as i64 };
        let neighbors: Vec<usize> = cell.iter_neighbors().collect();
        let vertices: Vec<Point> = cell
            .iter_vertices()
            .map(|v| Point { x: (v.x * SCALE).round() as i64, y: (v.y * SCALE).round() as i64 })
            .collect();
        cells.push(Cell { site, neighbors, vertices });
    }
    let bounding_box = BoundingBox {
        center: Point { x: 0, y: 0 },
        width: (map_size_x as f64 * SCALE) as u64,
        height: (map_size_y as f64 * SCALE) as u64,
    };
    Diagram::new(cells, bounding_box).expect("Failed to create a voronoi diagram")
}

/// One full continents run: seeded sites, voronoice partition, growth, and
/// the noise-perturbed rasterization.
fn generate_continents(map_size_x: usize, map_size_y: usize, seed: &str, cell_count: usize) -> (TileGrid, Vec<usize>) {
    let mut seeder = Seeder::from(seed);
    let mut rng: Pcg64 = seeder.make_rng();
    let diagram = build_diagram(map_size_x, map_size_y, &mut rng, cell_count);

    let total_area = ((map_size_x as f64 * SCALE) * (map_size_y as f64 * SCALE)) as usize;
    let options = ContinentOptions::new(total_area, 29, 8, 7);
    let continents = make_continent_cells(&diagram, &options, &mut rng).expect("growth failed");

    let noise_x_seed = create_new_seed32(&mut seeder);
    let mut noise_x = FastNoiseLite::with_seed(noise_x_seed as i32);
    noise_x.set_noise_type(Some(NoiseType::OpenSimplex2));
    noise_x.set_fractal_type(Some(FractalType::FBm));
    noise_x.set_fractal_octaves(Some(2));

    let noise_y_seed = create_new_seed32(&mut seeder);
    let mut noise_y = FastNoiseLite::with_seed(noise_y_seed as i32);
    noise_y.set_noise_type(Some(NoiseType::OpenSimplex2));
    noise_y.set_fractal_type(Some(FractalType::FBm));
    noise_y.set_fractal_octaves(Some(2));

    let half_x = map_size_x as f64 / 2.0;
    let half_y = map_size_y as f64 / 2.0;
    let mut offsets_x = Vec::with_capacity(map_size_x * map_size_y);
    let mut offsets_y = Vec::with_capacity(map_size_x * map_size_y);
    for row in 0..map_size_x {
        for column in 0..map_size_y {
            let row_x = row as f64 - half_x;
            let column_y = column as f64 - half_y;
            let dx = noise_x.get_noise_2d(row_x as f32, column_y as f32) as f64;
            let dy = noise_y.get_noise_2d(row_x as f32, column_y as f32) as f64;
            offsets_x.push((dx * SCALE).round() as i64);
            offsets_y.push((dy * SCALE).round() as i64);
        }
    }

    let grid = rasterize_continents(
        &diagram,
        &continents,
        map_size_x,
        map_size_y,
        SCALE as i64,
        &offsets_x,
        &offsets_y,
    );
    (grid, continents.all_continent_cells)
}

#[test]
fn test_generate_continents_is_deterministic() {
    let (grid_a, land_a) = generate_continents(40, 40, "Initial Seed", 30);
    let (grid_b, land_b) = generate_continents(40, 40, "Initial Seed", 30);
    assert_eq!(land_a, land_b);
    assert_eq!(grid_a.rows, grid_b.rows);
    assert_eq!(grid_a.cols, grid_b.cols);
    assert_eq!(grid_a.tiles, grid_b.tiles, "re-running with the same seed must reproduce the grid");
    assert_eq!(grid_a.tiles.len(), 40 * 40);
}

#[test]
fn test_generate_continents_produces_land_and_water() {
    let (grid, land) = generate_continents(40, 40, "Initial Seed", 30);
    assert!(!land.is_empty());
    let grass = grid
        .tiles
        .iter()
        .filter(|t| t.terrain() == worldgen::map_generators::tile_types::TileType::Grassland)
        .count();
    assert!(grass > 0, "some tiles must be land");
    assert!(grass < grid.tiles.len(), "some tiles must be water");
}
