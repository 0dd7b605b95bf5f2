//! The planar cell partition the generators consume.
//!
//! A diagram is a set of cells, each with a site position, an ordered list of
//! neighbor indices and a bounding polygon, together with the bounding box the
//! sites were placed in.  Coordinates are integers in a fixed scale chosen by
//! the caller, so every geometric predicate in this crate is exact.

use vstd::prelude::*;

verus! {

/// The largest coordinate magnitude a well-formed diagram may hold.
pub const COORD_LIMIT: i64 = 2_000_000_000;

/// The largest number of cells a well-formed diagram may hold.
pub const MAX_CELLS: usize = 1_000_000;

/// The largest number of polygon vertices a well-formed cell may hold.
pub const MAX_CELL_VERTICES: usize = 10_000;

/// A 2D coordinate in the diagram's integer scale.
#[derive(Debug, PartialEq, Eq, Structural, Clone, Copy)]
pub struct Point {
    pub x: i64,
    pub y: i64,
}

impl Point {
    /// True when both coordinates are within the magnitude every geometric
    /// operation of this crate is proved overflow-free for.
    pub open spec fn in_bounds(self) -> bool {
        -COORD_LIMIT <= self.x <= COORD_LIMIT && -COORD_LIMIT <= self.y <= COORD_LIMIT
    }

    pub fn new(x: i64, y: i64) -> (p: Point)
        ensures
            p.x == x,
            p.y == y,
    {
        Point { x, y }
    }
}

/// An axis-aligned rectangle given by its center and full side lengths.
#[derive(Debug, PartialEq, Eq, Structural, Clone, Copy)]
pub struct BoundingBox {
    pub center: Point,
    pub width: u64,
    pub height: u64,
}

impl BoundingBox {
    /// A box is well formed when its center is a bounded point and its sides
    /// are no longer than the whole coordinate range.
    pub open spec fn wf(self) -> bool {
        self.center.in_bounds() && self.width <= 2 * COORD_LIMIT && self.height <= 2 * COORD_LIMIT
    }

    /// The point lies inside the box, boundary included: its distance to the
    /// center is at most half a side, stated without the halving so it is
    /// exact for odd side lengths.
    pub open spec fn contains_spec(self, p: Point) -> bool {
        &&& -(self.width as int) <= 2 * (p.x - self.center.x) <= self.width as int
        &&& -(self.height as int) <= 2 * (p.y - self.center.y) <= self.height as int
    }

    pub fn new(center: Point, width: u64, height: u64) -> (b: BoundingBox)
        ensures
            b == (BoundingBox { center, width, height }),
    {
        BoundingBox { center, width, height }
    }

    /// Containment test, boundary included.
    pub fn is_inside(&self, p: &Point) -> (r: bool)
        requires
            self.wf(),
            p.in_bounds(),
        ensures
            r == self.contains_spec(*p),
    {
        let dx: i128 = 2 * (p.x as i128 - self.center.x as i128);
        let dy: i128 = 2 * (p.y as i128 - self.center.y as i128);
        -(self.width as i128) <= dx && dx <= self.width as i128 && -(self.height as i128) <= dy
            && dy <= self.height as i128
    }
}

/// One region of the partition: its site, the indices of the cells it shares
/// an edge with, and the ordered vertices of its bounding polygon.
#[derive(Debug)]
pub struct Cell {
    pub site: Point,
    pub neighbors: Vec<usize>,
    pub vertices: Vec<Point>,
}

/// The whole partition, read-only once constructed.
#[derive(Debug)]
pub struct Diagram {
    pub cells: Vec<Cell>,
    pub bounding_box: BoundingBox,
}

impl Diagram {
    /// Well-formedness: bounded sizes and coordinates, and every neighbor
    /// index naming an actual cell.
    pub open spec fn wf(self) -> bool {
        &&& self.bounding_box.wf()
        &&& self.cells@.len() <= MAX_CELLS
        &&& forall|i: int|
            0 <= i < self.cells@.len() ==> (#[trigger] self.cells@[i]).site.in_bounds()
        &&& forall|i: int|
            0 <= i < self.cells@.len() ==> (#[trigger] self.cells@[i]).vertices@.len()
                <= MAX_CELL_VERTICES
        &&& forall|i: int, j: int|
            0 <= i < self.cells@.len() && 0 <= j < self.cells@[i].vertices@.len()
                ==> (#[trigger] self.cells@[i].vertices@[j]).in_bounds()
        &&& forall|i: int, j: int|
            0 <= i < self.cells@.len() && 0 <= j < self.cells@[i].neighbors@.len()
                ==> (#[trigger] self.cells@[i].neighbors@[j]) < self.cells@.len()
    }

    /// Builds a diagram after checking well-formedness; `None` when the cell
    /// set cannot form a valid partition under this crate's bounds.
    pub fn new(cells: Vec<Cell>, bounding_box: BoundingBox) -> (r: Option<Diagram>)
        ensures
            match r {
                Some(d) => d.wf() && d.cells == cells && d.bounding_box == bounding_box,
                None => !(Diagram { cells, bounding_box }).wf(),
            },
    {
        let d = Diagram { cells, bounding_box };
        if d.check_wf() {
            Some(d)
        } else {
            None
        }
    }

    /// Runtime check deciding `wf` exactly.
    fn check_wf(&self) -> (r: bool)
        ensures
            r == self.wf(),
    {
        if !(self.bounding_box.center.x >= -COORD_LIMIT && self.bounding_box.center.x
            <= COORD_LIMIT && self.bounding_box.center.y >= -COORD_LIMIT
            && self.bounding_box.center.y <= COORD_LIMIT) {
            return false;
        }
        if !(self.bounding_box.width <= 4_000_000_000 && self.bounding_box.height
            <= 4_000_000_000) {
            return false;
        }
        if self.cells.len() > MAX_CELLS {
            return false;
        }
        let n = self.cells.len();
        let mut i: usize = 0;
        while i < n
            invariant
                0 <= i <= n,
                n == self.cells@.len(),
                self.bounding_box.wf(),
                n <= MAX_CELLS,
                forall|k: int| 0 <= k < i ==> (#[trigger] self.cells@[k]).site.in_bounds(),
                forall|k: int|
                    0 <= k < i ==> (#[trigger] self.cells@[k]).vertices@.len()
                        <= MAX_CELL_VERTICES,
                forall|k: int, j: int|
                    0 <= k < i && 0 <= j < self.cells@[k].vertices@.len()
                        ==> (#[trigger] self.cells@[k].vertices@[j]).in_bounds(),
                forall|k: int, j: int|
                    0 <= k < i && 0 <= j < self.cells@[k].neighbors@.len()
                        ==> (#[trigger] self.cells@[k].neighbors@[j]) < n,
            decreases n - i,
        {
            let cell = &self.cells[i];
            if !(cell.site.x >= -COORD_LIMIT && cell.site.x <= COORD_LIMIT && cell.site.y
                >= -COORD_LIMIT && cell.site.y <= COORD_LIMIT) {
                return false;
            }
            if cell.vertices.len() > MAX_CELL_VERTICES {
                return false;
            }
            let mut j: usize = 0;
            while j < cell.vertices.len()
                invariant
                    0 <= j <= cell.vertices@.len(),
                    0 <= i < self.cells@.len(),
                    *cell == self.cells@[i as int],
                    forall|m: int| 0 <= m < j ==> (#[trigger] cell.vertices@[m]).in_bounds(),
                decreases cell.vertices@.len() - j,
            {
                let v = &cell.vertices[j];
                if !(v.x >= -COORD_LIMIT && v.x <= COORD_LIMIT && v.y >= -COORD_LIMIT && v.y
                    <= COORD_LIMIT) {
                    return false;
                }
                j += 1;
            }
            let mut j: usize = 0;
            while j < cell.neighbors.len()
                invariant
                    0 <= j <= cell.neighbors@.len(),
                    n == self.cells@.len(),
                    0 <= i < self.cells@.len(),
                    *cell == self.cells@[i as int],
                    forall|m: int| 0 <= m < j ==> (#[trigger] cell.neighbors@[m]) < n,
                decreases cell.neighbors@.len() - j,
            {
                if cell.neighbors[j] >= n {
                    return false;
                }
                j += 1;
            }
            i += 1;
        }
        true
    }

    /// Number of cells (and sites) in the diagram.
    pub fn len(&self) -> (n: usize)
        ensures
            n == self.cells@.len(),
    {
        self.cells.len()
    }
}

} // verus!
