//! The standalone fractal-noise map strategy.
//!
//! Every pixel blends a fractal-noise sample with a radial center-biased
//! falloff at a fixed half-half mix and is classified water where the blend
//! is negative.  Noise samples enter as fixed-point values in units of
//! `NOISE_UNIT`, and the falloff is carried as an exact rational, so the
//! classification is exact.

use vstd::prelude::*;
use vstd::arithmetic::div_mod::{
    lemma_div_by_self, lemma_div_is_ordered, lemma_div_pos_is_pos,
    lemma_fundamental_div_mod_converse, lemma_multiply_divide_le,
};
use crate::map_generators::tile::{Tile, TileGrid};
use crate::map_generators::tile_types::TileType;

verus! {

/// The fixed-point unit of noise samples and elevations: 1.0 == `NOISE_UNIT`.
pub const NOISE_UNIT: i64 = 1_000_000;

/// Parameters of the fractal-noise map.
#[derive(Debug, PartialEq, Eq, Structural, Clone, Copy)]
pub struct NoiseMapOptions {
    pub map_width: usize,
    pub map_height: usize,
    pub seed: u32,
}

impl NoiseMapOptions {
    pub fn new(map_width: usize, map_height: usize, seed: u32) -> (o: NoiseMapOptions)
        ensures
            o == (NoiseMapOptions { map_width, map_height, seed }),
    {
        NoiseMapOptions { map_width, map_height, seed }
    }
}

impl Default for NoiseMapOptions {
    /// A full-HD map seeded from the default seed string.
    fn default() -> (o: Self)
        ensures
            o.map_width == 1920,
            o.map_height == 1080,
    {
        let mut seeder = crate::rng::seeder_from_str("Initial Seed");
        let seed = crate::math_helpers::create_new_seed32(&mut seeder);
        NoiseMapOptions { map_width: 1920, map_height: 1080, seed }
    }
}

/// The common denominator of the radial falloff at a given map size.
pub open spec fn dfc_den(width: int, height: int) -> int {
    width * width * height * height
}

/// The numerator of the radial falloff `1 - (1 - nx^2) * (1 - ny^2)` over the
/// denominator `dfc_den`, where `nx = 2 x / width - 1` and
/// `ny = 2 y / height - 1` map the coordinate into `[-1, 1] x [-1, 1]`.
pub open spec fn dfc_num(x: int, y: int, width: int, height: int) -> int {
    dfc_den(width, height) - (width * width - (2 * x - width) * (2 * x - width)) * (height * height
        - (2 * y - height) * (2 * y - height))
}

/// The distance-from-center falloff as an exact rational `(numerator,
/// denominator)`: 0 at the exact center of the rectangle, 1 at its corners.
pub fn distance_from_center(x: i64, y: i64, width: i64, height: i64) -> (r: (i128, i128))
    requires
        1 <= width <= 100_000,
        1 <= height <= 100_000,
        0 <= x <= width,
        0 <= y <= height,
    ensures
        r.0 == dfc_num(x as int, y as int, width as int, height as int),
        r.1 == dfc_den(width as int, height as int),
        0 < r.1 <= 100_000_000_000_000_000_000,
        0 <= r.0 <= r.1,
{
    let w = width as i128;
    let h = height as i128;
    let xi = x as i128;
    let yi = y as i128;
    proof {
        assert(0 <= (2 * xi - w) * (2 * xi - w) <= w * w && 0 <= (2 * yi - h) * (2 * yi - h) <= h
            * h && 0 < w * w <= 10_000_000_000 && 0 < h * h <= 10_000_000_000 && 0 < w * w * h
            <= 1_000_000_000_000_000 && 0 < w * w * h * h <= 100_000_000_000_000_000_000 && 0 <= (w * w - (2 * xi - w) * (2 * xi - w)) * (h * h
            - (2 * yi - h) * (2 * yi - h)) <= w * w * h * h)
            by (nonlinear_arith)
            requires
                1 <= w <= 100_000,
                1 <= h <= 100_000,
                0 <= xi <= w,
                0 <= yi <= h,
        ;
    }
    let nx2 = (2 * xi - w) * (2 * xi - w);
    let ny2 = (2 * yi - h) * (2 * yi - h);
    let den = w * w * h * h;
    let num = den - (w * w - nx2) * (h * h - ny2);
    (num, den)
}

/// The radial falloff is exactly 1 at all four corners of the rectangle.
pub proof fn lemma_distance_from_center_corners(w: int, h: int)
    requires
        w >= 1,
        h >= 1,
    ensures
        dfc_num(0, 0, w, h) == dfc_den(w, h),
        dfc_num(w, 0, w, h) == dfc_den(w, h),
        dfc_num(0, h, w, h) == dfc_den(w, h),
        dfc_num(w, h, w, h) == dfc_den(w, h),
{
    assert((w * w - (2 * 0 - w) * (2 * 0 - w)) == 0 && (w * w - (2 * w - w) * (2 * w - w)) == 0
        && (h * h - (2 * 0 - h) * (2 * 0 - h)) == 0 && (h * h - (2 * h - h) * (2 * h - h)) == 0)
        by (nonlinear_arith);
    assert(0 * (h * h - (2 * 0 - h) * (2 * 0 - h)) == 0 && 0 * (h * h - (2 * h - h) * (2 * h - h))
        == 0 && (w * w - (2 * 0 - w) * (2 * 0 - w)) * (h * h - (2 * 0 - h) * (2 * 0 - h)) == 0 && (
    w * w - (2 * w - w) * (2 * w - w)) * (h * h - (2 * 0 - h) * (2 * 0 - h)) == 0 && (w * w - (2 * 0
        - w) * (2 * 0 - w)) * (h * h - (2 * h - h) * (2 * h - h)) == 0 && (w * w - (2 * w - w) * (2
        * w - w)) * (h * h - (2 * h - h) * (2 * h - h)) == 0) by (nonlinear_arith);
}

/// The radial falloff is exactly 0 at the exact center of an even-sided
/// rectangle.
pub proof fn lemma_distance_from_center_center(w: int, h: int)
    requires
        w >= 1,
        h >= 1,
        w % 2 == 0,
        h % 2 == 0,
    ensures
        dfc_num(w / 2, h / 2, w, h) == 0,
{
    assert(2 * (w / 2) - w == 0 && 2 * (h / 2) - h == 0);
    assert((w * w - 0 * 0) * (h * h - 0 * 0) == w * w * h * h) by (nonlinear_arith);
}

/// The numerator of the blend of a noise sample with the inverted falloff at
/// mix weight one half, over the positive denominator `2 * dfc_den * NOISE_UNIT`.
pub open spec fn blended_num(sample: int, x: int, y: int, width: int, height: int) -> int {
    sample * dfc_den(width, height) + (dfc_den(width, height) - dfc_num(x, y, width, height))
        * NOISE_UNIT
}

/// The blended value scaled to `NOISE_UNIT` fixed point, rounded toward
/// negative infinity as the stored elevation, so the elevation keeps the
/// sign of the blend: it is negative exactly on water tiles.
pub open spec fn blended_elevation(sample: int, x: int, y: int, width: int, height: int) -> int {
    let num = blended_num(sample, x, y, width, height);
    let d2 = 2 * dfc_den(width, height);
    if num >= 0 {
        num / d2
    } else {
        -((-num + d2 - 1) / d2)
    }
}

/// The tile the fractal-noise map stores at one coordinate: water exactly
/// when the blended value is negative, with the blended value as elevation.
pub open spec fn noise_tile(sample: int, x: int, y: int, width: int, height: int) -> Tile {
    Tile {
        terrain: if blended_num(sample, x, y, width, height) < 0 {
            TileType::Water
        } else {
            TileType::Grassland
        },
        elevation: blended_elevation(sample, x, y, width, height) as i64,
    }
}

/// A noise-map tile is water exactly when its stored elevation is negative:
/// the classification threshold and the stored elevation are the same
/// blended value, and rounding toward negative infinity keeps its sign.
pub proof fn lemma_noise_tile_water_iff_negative(
    sample: int,
    x: int,
    y: int,
    width: int,
    height: int,
)
    requires
        1 <= width <= 100_000,
        1 <= height <= 100_000,
        0 <= x <= width,
        0 <= y <= height,
        -2_000_000 <= sample <= 2_000_000,
    ensures
        (noise_tile(sample, x, y, width, height).terrain == TileType::Water) <==> noise_tile(
            sample,
            x,
            y,
            width,
            height,
        ).elevation < 0,
{
    let den = dfc_den(width, height);
    let fnum = dfc_num(x, y, width, height);
    let num = blended_num(sample, x, y, width, height);
    let d2 = 2 * den;
    assert(den == width * width * height * height);
    assert(fnum == den - (width * width - (2 * x - width) * (2 * x - width)) * (height * height - (
    2 * y - height) * (2 * y - height)));
    assert(num == sample * den + (den - fnum) * 1_000_000);
    assert(0 < den <= 100_000_000_000_000_000_000 && 0 <= fnum <= den) by (nonlinear_arith)
        requires
            1 <= width <= 100_000,
            1 <= height <= 100_000,
            0 <= x <= width,
            0 <= y <= height,
            den == width * width * height * height,
            fnum == den - (width * width - (2 * x - width) * (2 * x - width)) * (height * height
                - (2 * y - height) * (2 * y - height)),
    ;
    assert(-3_000_000 * den <= num <= 3_000_000 * den) by (nonlinear_arith)
        requires
            -2_000_000 <= sample <= 2_000_000,
            0 < den,
            0 <= fnum <= den,
            num == sample * den + (den - fnum) * 1_000_000,
    ;
    if num >= 0 {
        lemma_div_pos_is_pos(num, d2);
        assert(num <= d2 * 1_500_000) by (nonlinear_arith)
            requires
                num <= 3_000_000 * den,
                d2 == 2 * den,
                0 < den,
        ;
        lemma_multiply_divide_le(num, d2, 1_500_000);
    } else {
        assert(d2 <= -num + d2 - 1 <= d2 * 1_500_001) by (nonlinear_arith)
            requires
                -3_000_000 * den <= num <= -1,
                d2 == 2 * den,
                0 < den,
        ;
        lemma_div_is_ordered(d2, -num + d2 - 1, d2);
        lemma_div_by_self(d2);
        lemma_multiply_divide_le(-num + d2 - 1, d2, 1_500_001);
    }
}

/// Classifies one pixel of the fractal-noise map.
fn classify_noise_tile(sample: i64, x: i64, y: i64, width: i64, height: i64) -> (t: Tile)
    requires
        1 <= width <= 100_000,
        1 <= height <= 100_000,
        0 <= x < width,
        0 <= y < height,
        -2_000_000 <= sample <= 2_000_000,
    ensures
        t == noise_tile(sample as int, x as int, y as int, width as int, height as int),
{
    let (num, den) = distance_from_center(x, y, width, height);
    proof {
        assert(-2_000_000 * den <= sample as i128 * den <= 2_000_000 * den && 0 <= (den - num)
            * 1_000_000 <= 1_000_000 * den && -3_000_000 * den <= sample as i128 * den + (den
            - num) * 1_000_000 <= 3_000_000 * den) by (nonlinear_arith)
            requires
                -2_000_000 <= sample <= 2_000_000,
                0 < den <= 100_000_000_000_000_000_000,
                0 <= num <= den,
        ;
    }
    let bn: i128 = sample as i128 * den + (den - num) * (NOISE_UNIT as i128);
    let terrain = if bn < 0 {
        TileType::Water
    } else {
        TileType::Grassland
    };
    let d2: i128 = 2 * den;
    let mag: u128 = if bn >= 0 {
        bn as u128
    } else {
        (-bn) as u128
    };
    proof {
        assert(mag <= (d2 as int) * 1_500_000 && mag + d2 - 1 <= (d2 as int) * 1_500_001)
            by (nonlinear_arith)
            requires
                -3_000_000 * den <= bn <= 3_000_000 * den,
                d2 == 2 * den,
                0 < den,
                mag == if bn >= 0 {
                    bn as int
                } else {
                    -bn as int
                },
        ;
        lemma_multiply_divide_le(mag as int, d2 as int, 1_500_000);
        lemma_multiply_divide_le(mag as int + d2 as int - 1, d2 as int, 1_500_001);
    }
    let elev: i64 = if bn >= 0 {
        let q: u128 = mag / (d2 as u128);
        q as i64
    } else {
        // round toward negative infinity, so the elevation stays negative
        let q: u128 = (mag + (d2 as u128) - 1) / (d2 as u128);
        -(q as i64)
    };
    Tile::new(terrain, elev)
}

/// Builds the fractal-noise map from one noise sample per pixel, row-major
/// with `map_width` columns; the sample for a pixel is the noise field read
/// at that pixel's coordinate.
pub fn noise_map(options: &NoiseMapOptions, samples: &Vec<i64>) -> (g: TileGrid)
    requires
        1 <= options.map_width <= 100_000,
        1 <= options.map_height <= 100_000,
        samples@.len() == options.map_width * options.map_height,
        forall|k: int|
            0 <= k < samples@.len() ==> -2_000_000 <= #[trigger] samples@[k] <= 2_000_000,
    ensures
        g.wf(),
        g.rows == options.map_height,
        g.cols == options.map_width,
        forall|r: int, c: int|
            0 <= r < options.map_height && 0 <= c < options.map_width ==> g.tile_at(r, c)
                == noise_tile(
                samples@[r * options.map_width + c] as int,
                c,
                r,
                options.map_width as int,
                options.map_height as int,
            ),
{
    let w = options.map_width;
    let h = options.map_height;
    let n = samples.len();
    let mut tiles: Vec<Tile> = Vec::new();
    let mut row: usize = 0;
    while row < h
        invariant
            0 <= row <= h,
            1 <= w <= 100_000,
            1 <= h <= 100_000,
            n == samples@.len(),
            samples@.len() == w * h,
            tiles@.len() <= samples@.len(),
            forall|k: int|
                0 <= k < samples@.len() ==> -2_000_000 <= #[trigger] samples@[k] <= 2_000_000,
            tiles@.len() == row * w,
            forall|k: int|
                0 <= k < tiles@.len() ==> #[trigger] tiles@[k] == noise_tile(
                    samples@[k] as int,
                    k % (w as int),
                    k / (w as int),
                    w as int,
                    h as int,
                ),
        decreases h - row,
    {
        let mut col: usize = 0;
        while col < w
            invariant
                0 <= col <= w,
                0 <= row < h,
                1 <= w <= 100_000,
                1 <= h <= 100_000,
                n == samples@.len(),
                samples@.len() == w * h,
                tiles@.len() <= samples@.len(),
                forall|k: int|
                    0 <= k < samples@.len() ==> -2_000_000 <= #[trigger] samples@[k] <= 2_000_000,
                tiles@.len() == row * w + col,
                forall|k: int|
                    0 <= k < tiles@.len() ==> #[trigger] tiles@[k] == noise_tile(
                        samples@[k] as int,
                        k % (w as int),
                        k / (w as int),
                        w as int,
                        h as int,
                    ),
            decreases w - col,
        {
            proof {
                assert(row * w + col < w * h && row * w + col == tiles@.len()) by (nonlinear_arith)
                    requires
                        0 <= row < h,
                        0 <= col < w,
                        tiles@.len() == row * w + col,
                ;
                assert(row * w + col < n);
                lemma_fundamental_div_mod_converse(
                    row * w + col,
                    w as int,
                    row as int,
                    col as int,
                );
            }
            let idx: usize = row * w + col;
            let t = classify_noise_tile(samples[idx], col as i64, row as i64, w as i64, h as i64);
            tiles.push(t);
            col += 1;
        }
        proof {
            assert((row + 1) * w == row * w + w) by (nonlinear_arith);
        }
        row += 1;
    }
    let g = TileGrid { rows: h, cols: w, tiles };
    proof {
        assert(g.tiles@.len() == h * w ==> g.tiles@.len() == h as int * w as int)
            by (nonlinear_arith);
        assert forall|r: int, c: int| 0 <= r < h && 0 <= c < w implies g.tile_at(r, c)
            == noise_tile(samples@[r * w + c] as int, c, r, w as int, h as int) by {
            assert(0 <= r * w + c < h * w && r * w + c < g.tiles@.len() && r * w + c
                < samples@.len()) by (nonlinear_arith)
                requires
                    0 <= r < h,
                    0 <= c < w,
                    g.tiles@.len() == h as int * w as int,
                    samples@.len() == w as int * h as int,
            ;
            lemma_fundamental_div_mod_converse(r * w + c, w as int, r, c);
            assert(g.tiles@[r * w + c] == noise_tile(
                samples@[r * w + c] as int,
                c,
                r,
                w as int,
                h as int,
            ));
        }
    }
    g
}

} // verus!
