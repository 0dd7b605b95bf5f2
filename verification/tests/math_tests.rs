use lerp::Lerp;
use worldgen::diagram::{BoundingBox, Cell, Diagram, Point};
use worldgen::map_generators::noise_map::distance_from_center;
use worldgen::math_helpers::{
    closest_cell, create_new_seed32, create_new_seed64, distance, land_box, shoelace_area,
    u32_from_be_bytes, u64_from_be_bytes,
};

fn two_column_diagram() -> Diagram {
    // two columns of two rows of sites in a 100 x 100 box
    let sites = [(-50, 25), (-50, -25), (50, 25), (50, -25)];
    let mut cells = Vec::new();
    for (i, (x, y)) in sites.iter().enumerate() {
        let neighbors: Vec<usize> = (0..sites.len()).filter(|j| *j != i).collect();
        cells.push(Cell { site: Point { x: *x, y: *y }, neighbors, vertices: Vec::new() });
    }
    let bounding_box = BoundingBox { center: Point { x: 0, y: 0 }, width: 100, height: 100 };
    Diagram::new(cells, bounding_box).expect("Failed to create a voronoi diagram")
}

#[test]
fn test_lerp() {
    let lerped = 0.0.lerp(1.0 - 1.0, 0.50);
    assert_eq!(lerped, 0.0);
}

#[test]
fn test_distance_from_center() {
    let width = 100;
    let height = 100;

    // Top left corner
    let (num, den) = distance_from_center(0, 0, width, height);
    assert_eq!(num as f64 / den as f64, 1.0);

    // Top right corner
    let (num, den) = distance_from_center(width, 0, width, height);
    assert_eq!(num as f64 / den as f64, 1.0);

    // center
    let (num, den) = distance_from_center(width / 2, height / 2, width, height);
    assert_eq!(num as f64 / den as f64, 0.0);

    // Bottom left corner
    let (num, den) = distance_from_center(0, height, width, height);
    assert_eq!(num as f64 / den as f64, 1.0);

    // bottom right corner
    let (num, den) = distance_from_center(width, height, width, height);
    assert_eq!(num as f64 / den as f64, 1.0);

    let (num, den) = distance_from_center(1920, 0, 1920, 1080);
    assert_eq!(num as f64 / den as f64, 1.0);
}

#[test]
fn test_simple_distance() {
    let point1 = Point { x: 0, y: 0 };
    let point2 = Point { x: 0, y: 1 };

    let distance = distance(&point1, &point2);
    assert_eq!((distance as f64).sqrt(), 1.0);
}

#[test]
fn test_shoelace_simple_square() {
    let bottom_left_point = Point { x: 0, y: 0 };
    let top_left_point = Point { x: 0, y: 1 };
    let top_right_point = Point { x: 1, y: 1 };
    let bottom_right_point = Point { x: 1, y: 0 };

    let sides = vec![
        bottom_left_point,
        top_left_point,
        top_right_point,
        bottom_right_point,
    ];
    assert_eq!(1.0, shoelace_area(&sides) as f64 / 2.0);
}

#[test]
fn test_shoelace_simple_rect() {
    let bottom_left_point = Point { x: 0, y: 0 };
    let top_left_point = Point { x: 0, y: 1 };
    let top_right_point = Point { x: 2, y: 1 };
    let bottom_right_point = Point { x: 2, y: 0 };

    let sides = vec![
        bottom_left_point,
        top_left_point,
        top_right_point,
        bottom_right_point,
    ];
    assert_eq!(2.0, shoelace_area(&sides) as f64 / 2.0);
}

#[test]
fn voronoi_test_closest_cell_site_point() {
    let diagram = two_column_diagram();

    let site_1 = Point { x: -50, y: 25 };
    let closest = closest_cell(&site_1, &diagram);
    assert_eq!(closest, 0);
    let site_2 = Point { x: -50, y: -25 };
    let closest = closest_cell(&site_2, &diagram);
    assert_eq!(closest, 1);
    let site_3 = Point { x: 50, y: 25 };
    let closest = closest_cell(&site_3, &diagram);
    assert_eq!(closest, 2);
    let site_4 = Point { x: 50, y: -25 };
    let closest = closest_cell(&site_4, &diagram);
    assert_eq!(closest, 3);

    let near_site_1 = Point { x: site_1.x + 1, y: site_1.y + 1 };
    let closest = closest_cell(&near_site_1, &diagram);
    assert_eq!(closest, 0);
}

#[test]
fn math_helpers_test_closest_cell_site_point() {
    let diagram = two_column_diagram();

    let site_0 = Point { x: -50, y: 25 };
    let site_1 = Point { x: -50, y: -25 };
    let site_2 = Point { x: 50, y: 25 };
    let site_3 = Point { x: 50, y: -25 };

    let closest = closest_cell(&site_0, &diagram);
    assert_eq!(closest, 0);
    let closest = closest_cell(&site_1, &diagram);
    assert_eq!(closest, 1);
    let closest = closest_cell(&site_2, &diagram);
    assert_eq!(closest, 2);
    let closest = closest_cell(&site_3, &diagram);
    assert_eq!(closest, 3);

    let near_site_0 = Point { x: site_0.x + 1, y: site_0.y + 1 };
    let closest = closest_cell(&near_site_0, &diagram);
    assert_eq!(closest, 0);
}

#[test]
fn test_distance_symmetric_examples() {
    let a = Point { x: -3, y: 7 };
    let b = Point { x: 11, y: -2 };
    assert_eq!(distance(&a, &b), distance(&b, &a));
    assert_eq!(distance(&a, &a), 0);
    assert_eq!(distance(&b, &b), 0);
}

#[test]
fn test_shoelace_empty_and_degenerate() {
    let empty: Vec<Point> = Vec::new();
    assert_eq!(shoelace_area(&empty), 0);
    let single = vec![Point { x: 7, y: 9 }];
    assert_eq!(shoelace_area(&single), 0);
}

#[test]
fn test_land_box_shrinks_sides() {
    let diagram_box = BoundingBox { center: Point { x: 10, y: -4 }, width: 200, height: 100 };
    let lb = land_box(&diagram_box, 93);
    assert_eq!(lb.center, Point { x: 10, y: -4 });
    assert_eq!(lb.width, 186);
    assert_eq!(lb.height, 93);
}

#[test]
fn test_u32_from_be_bytes_exact() {
    assert_eq!(u32_from_be_bytes([1, 2, 3, 4]), 0x01020304);
    assert_eq!(u32_from_be_bytes([0xff, 0, 0, 1]), 0xff000001);
}

#[test]
fn test_u64_from_be_bytes_exact() {
    assert_eq!(u64_from_be_bytes([1, 2, 3, 4, 5, 6, 7, 8]), 0x0102030405060708);
}

#[test]
fn test_seed_derivation_is_deterministic() {
    let mut seeder_a = rand_seeder::Seeder::from("Initial Seed");
    let mut seeder_b = rand_seeder::Seeder::from("Initial Seed");
    assert_eq!(create_new_seed32(&mut seeder_a), create_new_seed32(&mut seeder_b));
    assert_eq!(create_new_seed64(&mut seeder_a), create_new_seed64(&mut seeder_b));
    let mut seeder_c = rand_seeder::Seeder::from("another seed");
    let _ = create_new_seed32(&mut seeder_c);
}
