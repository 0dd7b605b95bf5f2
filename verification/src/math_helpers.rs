//! Exact geometric helpers shared by the generators.
//!
//! Distances are compared through the squared Euclidean distance and polygon
//! areas are carried as twice the enclosed area; both are integers, so every
//! comparison the generators make is exact.

use vstd::prelude::*;
use crate::diagram::{BoundingBox, Diagram, Point, COORD_LIMIT, MAX_CELL_VERTICES};

verus! {

/// The squared Euclidean distance between two points.
pub open spec fn dist_sq(p1: Point, p2: Point) -> int {
    (p2.x - p1.x) * (p2.x - p1.x) + (p2.y - p1.y) * (p2.y - p1.y)
}

/// The squared Euclidean distance between two points, exactly.
///
/// The squared distance orders points exactly as the distance itself does,
/// which is all any caller in this crate compares by.
pub fn distance(point1: &Point, point2: &Point) -> (d: u128)
    requires
        point1.in_bounds(),
        point2.in_bounds(),
    ensures
        d == dist_sq(*point1, *point2),
{
    let dx: i128 = point2.x as i128 - point1.x as i128;
    let dy: i128 = point2.y as i128 - point1.y as i128;
    proof {
        assert(0 <= dx * dx <= 0x10000000000000000000 && 0 <= dy * dy
            <= 0x10000000000000000000) by (nonlinear_arith)
            requires
                -4_000_000_000 <= dx <= 4_000_000_000,
                -4_000_000_000 <= dy <= 4_000_000_000,
        ;
    }
    (dx * dx + dy * dy) as u128
}

/// One summand of the shoelace formula.
pub open spec fn cross(p: Point, q: Point) -> int {
    p.x * q.y - p.y * q.x
}

/// The signed shoelace sum over the first `i` edges of the polygon, the last
/// edge closing back to the first vertex.
pub open spec fn shoelace_prefix(points: Seq<Point>, i: int) -> int
    decreases i,
{
    if i <= 0 || i > points.len() {
        0
    } else {
        let next = if i == points.len() {
            points[0]
        } else {
            points[i]
        };
        shoelace_prefix(points, i - 1) + cross(points[i - 1], next)
    }
}

/// Twice the polygon area given by the shoelace formula, as a non-negative
/// integer; 0 for the empty polygon.
pub open spec fn shoelace_doubled(points: Seq<Point>) -> int {
    let s = shoelace_prefix(points, points.len() as int);
    if s < 0 {
        -s
    } else {
        s
    }
}

/// Twice the largest shoelace summand a pair of bounded points can produce.
pub open spec fn cross_bound() -> int {
    8_000_000_000_000_000_000
}

/// Every shoelace summand of bounded points is bounded by `cross_bound`.
pub proof fn lemma_cross_bound(p: Point, q: Point)
    requires
        p.in_bounds(),
        q.in_bounds(),
    ensures
        -cross_bound() <= cross(p, q) <= cross_bound(),
{
    assert(-cross_bound() <= p.x * q.y - p.y * q.x <= cross_bound()) by (nonlinear_arith)
        requires
            -COORD_LIMIT <= p.x <= COORD_LIMIT,
            -COORD_LIMIT <= p.y <= COORD_LIMIT,
            -COORD_LIMIT <= q.x <= COORD_LIMIT,
            -COORD_LIMIT <= q.y <= COORD_LIMIT,
            COORD_LIMIT == 2_000_000_000,
            cross_bound() == 8_000_000_000_000_000_000,
    ;
}

/// The shoelace prefix sum grows by at most `cross_bound` per edge.
pub proof fn lemma_shoelace_prefix_bound(points: Seq<Point>, i: int)
    requires
        forall|k: int| 0 <= k < points.len() ==> (#[trigger] points[k]).in_bounds(),
        0 <= i <= points.len(),
    ensures
        -(i * cross_bound()) <= shoelace_prefix(points, i) <= i * cross_bound(),
    decreases i,
{
    if i > 0 {
        lemma_shoelace_prefix_bound(points, i - 1);
        let next = if i == points.len() {
            points[0]
        } else {
            points[i]
        };
        lemma_cross_bound(points[i - 1], next);
        assert((i - 1) * cross_bound() + cross_bound() == i * cross_bound()) by (nonlinear_arith);
    }
}

/// Twice the area a polygon of bounded points can enclose at most.
pub proof fn lemma_shoelace_doubled_bound(points: Seq<Point>)
    requires
        forall|k: int| 0 <= k < points.len() ==> (#[trigger] points[k]).in_bounds(),
    ensures
        0 <= shoelace_doubled(points) <= points.len() * cross_bound(),
{
    lemma_shoelace_prefix_bound(points, points.len() as int);
}

/// Twice the area enclosed by the polygon, by the shoelace formula.
///
/// The doubled area of a polygon with integer vertices is itself an integer,
/// so the result is exact; an empty vertex list yields 0.
pub fn shoelace_area(points: &Vec<Point>) -> (area2: u128)
    requires
        forall|k: int| 0 <= k < points@.len() ==> (#[trigger] points@[k]).in_bounds(),
    ensures
        area2 == shoelace_doubled(points@),
{
    let n = points.len();
    if n == 0 {
        return 0;
    }
    let first = points[0];
    let mut acc: i128 = 0;
    let mut i: usize = 0;
    while i < n
        invariant
            0 <= i <= n,
            n == points@.len(),
            n >= 1,
            first == points@[0],
            forall|k: int| 0 <= k < points@.len() ==> (#[trigger] points@[k]).in_bounds(),
            acc == shoelace_prefix(points@, i as int),
            -(i as int * cross_bound()) <= acc <= i as int * cross_bound(),
        decreases n - i,
    {
        let point = points[i];
        let next = if i == n - 1 {
            first
        } else {
            points[i + 1]
        };
        proof {
            lemma_cross_bound(point, next);
            lemma_shoelace_prefix_bound(points@, i as int + 1);
            assert(point.x as i128 * next.y as i128 - point.y as i128 * next.x as i128 == cross(
                point,
                next,
            ) && -cross_bound() <= point.x as i128 * next.y as i128 <= cross_bound()
                && -cross_bound() <= point.y as i128 * next.x as i128 <= cross_bound())
                by (nonlinear_arith)
                requires
                    point.in_bounds(),
                    next.in_bounds(),
                    COORD_LIMIT == 2_000_000_000,
                    cross_bound() == 8_000_000_000_000_000_000,
            ;
        }
        acc = acc + (point.x as i128 * next.y as i128 - point.y as i128 * next.x as i128);
        i += 1;
    }
    if acc < 0 {
        (-acc) as u128
    } else {
        acc as u128
    }
}

/// Twice the area of the bounding polygon of one diagram cell.
pub fn shoelace_area_of_cell(diagram: &Diagram, index: usize) -> (area2: u128)
    requires
        diagram.wf(),
        index < diagram.cells@.len(),
    ensures
        area2 == shoelace_doubled(diagram.cells@[index as int].vertices@),
{
    shoelace_area(&diagram.cells[index].vertices)
}

/// The interior box left after shrinking `diagram_box` to `keep_percent`
/// percent of its side lengths; cells must fall inside it to become land.
pub fn land_box(diagram_box: &BoundingBox, keep_percent: u64) -> (b: BoundingBox)
    requires
        diagram_box.wf(),
        keep_percent <= 100,
    ensures
        b == land_box_spec(*diagram_box, keep_percent),
        b.wf(),
{
    proof {
        assert(diagram_box.width * keep_percent / 100 <= diagram_box.width
            && diagram_box.height * keep_percent / 100 <= diagram_box.height)
            by (nonlinear_arith)
            requires
                keep_percent <= 100,
        ;
    }
    BoundingBox {
        center: diagram_box.center,
        width: diagram_box.width * keep_percent / 100,
        height: diagram_box.height * keep_percent / 100,
    }
}

/// The box `land_box` computes.
pub open spec fn land_box_spec(diagram_box: BoundingBox, keep_percent: u64) -> BoundingBox {
    BoundingBox {
        center: diagram_box.center,
        width: (diagram_box.width * keep_percent / 100) as u64,
        height: (diagram_box.height * keep_percent / 100) as u64,
    }
}

/// The cell's site and every vertex of its polygon lie inside the box.
pub open spec fn cell_in_box_spec(d: Diagram, i: int, b: BoundingBox) -> bool {
    &&& b.contains_spec(d.cells[i].site)
    &&& forall|j: int|
        0 <= j < d.cells[i].vertices@.len() ==> b.contains_spec(
            #[trigger] d.cells[i].vertices@[j],
        )
}

/// Whether the cell lies entirely inside the box: its site and all of its
/// polygon vertices.
pub fn is_cell_in_box(diagram: &Diagram, index: usize, bounding_box: &BoundingBox) -> (r: bool)
    requires
        diagram.wf(),
        index < diagram.cells@.len(),
        bounding_box.wf(),
    ensures
        r == cell_in_box_spec(*diagram, index as int, *bounding_box),
{
    let cell = &diagram.cells[index];
    if !bounding_box.is_inside(&cell.site) {
        return false;
    }
    let mut j: usize = 0;
    while j < cell.vertices.len()
        invariant
            0 <= j <= cell.vertices@.len(),
            index < diagram.cells@.len(),
            *cell == diagram.cells@[index as int],
            diagram.wf(),
            bounding_box.wf(),
            forall|m: int|
                0 <= m < j ==> bounding_box.contains_spec(#[trigger] cell.vertices@[m]),
        decreases cell.vertices@.len() - j,
    {
        if !bounding_box.is_inside(&cell.vertices[j]) {
            return false;
        }
        j += 1;
    }
    true
}

/// The index of the cell whose site is nearest to `p` among the first `n`
/// cells, the earliest winning ties.
pub open spec fn first_closest_upto(d: Diagram, p: Point, n: int) -> int
    decreases n,
{
    if n <= 1 {
        0
    } else {
        let prev = first_closest_upto(d, p, n - 1);
        if dist_sq(p, d.cells[n - 1].site) < dist_sq(p, d.cells[prev].site) {
            n - 1
        } else {
            prev
        }
    }
}

/// The index of the cell whose site is nearest to `p`, the earliest winning
/// ties.
pub open spec fn first_closest(d: Diagram, p: Point) -> int {
    first_closest_upto(d, p, d.cells.len() as int)
}

proof fn lemma_first_closest_upto_min(d: Diagram, p: Point, n: int)
    requires
        1 <= n <= d.cells.len(),
    ensures
        0 <= first_closest_upto(d, p, n) < n,
        forall|j: int|
            0 <= j < n ==> dist_sq(p, (#[trigger] d.cells[j]).site) >= dist_sq(
                p,
                d.cells[first_closest_upto(d, p, n)].site,
            ),
        forall|j: int|
            0 <= j < first_closest_upto(d, p, n) ==> dist_sq(p, (#[trigger] d.cells[j]).site)
                > dist_sq(p, d.cells[first_closest_upto(d, p, n)].site),
    decreases n,
{
    if n > 1 {
        lemma_first_closest_upto_min(d, p, n - 1);
    }
}

/// The nearest site is no farther than any site, and strictly nearer than
/// every site before it.
pub proof fn lemma_first_closest_min(d: Diagram, p: Point)
    requires
        d.cells.len() > 0,
    ensures
        0 <= first_closest(d, p) < d.cells.len(),
        forall|j: int|
            0 <= j < d.cells.len() ==> dist_sq(p, (#[trigger] d.cells[j]).site) >= dist_sq(
                p,
                d.cells[first_closest(d, p)].site,
            ),
        forall|j: int|
            0 <= j < first_closest(d, p) ==> dist_sq(p, (#[trigger] d.cells[j]).site) > dist_sq(
                p,
                d.cells[first_closest(d, p)].site,
            ),
{
    lemma_first_closest_upto_min(d, p, d.cells.len() as int);
}

/// The index of the cell whose site is nearest to `point`, by a linear scan;
/// the earliest index wins ties.
pub fn closest_cell(point: &Point, diagram: &Diagram) -> (r: usize)
    requires
        diagram.wf(),
        diagram.cells@.len() > 0,
        point.in_bounds(),
    ensures
        r == first_closest(*diagram, *point),
        r < diagram.cells@.len(),
{
    let cell_count = diagram.cells.len();
    let mut best: usize = 0;
    let mut best_d: u128 = distance(point, &diagram.cells[0].site);
    let mut index: usize = 1;
    while index < cell_count
        invariant
            1 <= index <= cell_count,
            cell_count == diagram.cells@.len(),
            diagram.wf(),
            point.in_bounds(),
            0 <= best < index,
            best == first_closest_upto(*diagram, *point, index as int),
            best_d == dist_sq(*point, diagram.cells@[best as int].site),
        decreases cell_count - index,
    {
        let cell_distance = distance(point, &diagram.cells[index].site);
        if cell_distance < best_d {
            best_d = cell_distance;
            best = index;
        }
        index += 1;
    }
    best
}

/// A point is at distance zero from itself.
pub proof fn lemma_distance_self(p: Point)
    ensures
        dist_sq(p, p) == 0,
{
}

/// The distance between two points does not depend on their order.
pub proof fn lemma_distance_symmetric(a: Point, b: Point)
    ensures
        dist_sq(a, b) == dist_sq(b, a),
{
    assert((b.x - a.x) * (b.x - a.x) == (a.x - b.x) * (a.x - b.x) && (b.y - a.y) * (b.y - a.y) == (
    a.y - b.y) * (a.y - b.y)) by (nonlinear_arith);
}

/// Distinct points are at strictly positive distance.
pub proof fn lemma_distance_positive(a: Point, b: Point)
    requires
        a != b,
    ensures
        dist_sq(a, b) > 0,
{
    assert((b.x - a.x) * (b.x - a.x) + (b.y - a.y) * (b.y - a.y) > 0) by (nonlinear_arith)
        requires
            a.x != b.x || a.y != b.y,
    ;
}

/// Queried at one of its own sites, the nearest-site query returns that site,
/// as long as no other cell shares the same site position.
pub proof fn lemma_closest_at_site(d: Diagram, i: int)
    requires
        d.cells.len() > 0,
        0 <= i < d.cells.len(),
        forall|j: int|
            0 <= j < d.cells.len() && j != i ==> (#[trigger] d.cells[j]).site != d.cells[i].site,
    ensures
        first_closest(d, d.cells[i].site) == i,
{
    let p = d.cells[i].site;
    lemma_first_closest_min(d, p);
    let r = first_closest(d, p);
    lemma_distance_self(p);
    if r != i {
        lemma_distance_positive(p, d.cells[r].site);
    }
}

/// The nearest-site query is stable: any query point strictly nearer to one
/// site than to every other resolves to that site.
pub proof fn lemma_closest_stable(d: Diagram, q: Point, i: int)
    requires
        d.cells.len() > 0,
        0 <= i < d.cells.len(),
        forall|j: int|
            0 <= j < d.cells.len() && j != i ==> dist_sq(q, (#[trigger] d.cells[j]).site)
                > dist_sq(q, d.cells[i].site),
    ensures
        first_closest(d, q) == i,
{
    lemma_first_closest_min(d, q);
}

/// A 32-bit value read from four big-endian bytes.
pub fn u32_from_be_bytes(bytes: [u8; 4]) -> (r: u32)
    ensures
        r == bytes@[0] * 0x1000000 + bytes@[1] * 0x10000 + bytes@[2] * 0x100 + bytes@[3],
{
    (bytes[0] as u32) * 0x1000000 + (bytes[1] as u32) * 0x10000 + (bytes[2] as u32) * 0x100 + (
    bytes[3] as u32)
}

/// A 64-bit value read from eight big-endian bytes.
pub fn u64_from_be_bytes(bytes: [u8; 8]) -> (r: u64)
    ensures
        r == bytes@[0] * 0x100000000000000 + bytes@[1] * 0x1000000000000 + bytes@[2]
            * 0x10000000000 + bytes@[3] * 0x100000000 + bytes@[4] * 0x1000000 + bytes@[5] * 0x10000
            + bytes@[6] * 0x100 + bytes@[7],
{
    (bytes[0] as u64) * 0x100000000000000 + (bytes[1] as u64) * 0x1000000000000 + (bytes[2] as u64)
        * 0x10000000000 + (bytes[3] as u64) * 0x100000000 + (bytes[4] as u64) * 0x1000000 + (
    bytes[5] as u64) * 0x10000 + (bytes[6] as u64) * 0x100 + (bytes[7] as u64)
}

/// A fresh 32-bit sub-seed drawn from the seeder's stream.
pub fn create_new_seed32(seeder: &mut rand_seeder::Seeder) -> u32 {
    let bytes = crate::rng::seeder_make_seed4(seeder);
    u32_from_be_bytes(bytes)
}

/// A fresh 64-bit sub-seed drawn from the seeder's stream.
pub fn create_new_seed64(seeder: &mut rand_seeder::Seeder) -> u64 {
    let bytes = crate::rng::seeder_make_seed8(seeder);
    u64_from_be_bytes(bytes)
}

} // verus!
