//! The continent grower.
//!
//! Continents are seeded on cells inside the land box and grown outward
//! through the neighbor graph until the cumulative polygon area of all land
//! cells passes the configured share of the total map area.  The result is a
//! partition: no two continents ever claim the same cell, and together they
//! hold exactly the land cells.

use vstd::prelude::*;
use vstd::seq_lib::group_to_multiset_ensures;
use vstd::arithmetic::div_mod::lemma_fundamental_div_mod_converse;
use crate::diagram::{BoundingBox, Diagram, Point, MAX_CELLS, MAX_CELL_VERTICES};
use crate::map_generators::selection::{
    choose_seeds, copy_indices, distinct_indices, eligible_cells, eligible_set, false_flags,
    has_eligible_cell, lemma_distinct_bounded_len,
};
use crate::map_generators::tile::{Tile, TileGrid};
use crate::map_generators::tile_types::TileType;
use crate::math_helpers::{
    cell_in_box_spec, closest_cell, cross_bound, first_closest, land_box, land_box_spec,
    lemma_shoelace_doubled_bound, shoelace_area_of_cell, shoelace_doubled,
};
use crate::rng::{rng_below, shuffle_indices};

verus! {

/// Failure kinds of the continent generator.
#[derive(Debug, PartialEq, Eq, Structural, Clone, Copy)]
pub enum VoronoiContinentError {
    /// The supplied site set could not form a valid partition.
    DiagramCreationError,
    /// No cell had positive selection weight: the land box excluded every
    /// available cell.
    DiagramChooseError,
    /// The growth loop went `STALL_RETRY_LIMIT` consecutive iterations
    /// without finding any cell to add, short of the area target.
    GrowthStalled,
}

/// Iterations without progress the growth loop tolerates before it fails
/// with `GrowthStalled` rather than looping forever.
pub const STALL_RETRY_LIMIT: u64 = 10_000;

/// Parameters of one continent-growing run.
#[derive(Debug, PartialEq, Eq, Structural, Clone, Copy)]
pub struct ContinentOptions {
    /// Total map area, in the squared distance unit of the diagram.
    pub total_area: usize,
    /// The growth loop runs until land area exceeds this share of
    /// `total_area`, in percent.
    pub land_area_percentage: u64,
    /// Number of continents to seed.
    pub num_continents: usize,
    /// Share of the bounding box kept as the land box, in percent: 100 minus
    /// the water padding.
    pub keep_percent: u64,
}

impl ContinentOptions {
    /// All percentages are in range.
    pub open spec fn wf(self) -> bool {
        self.land_area_percentage <= 100 && self.keep_percent <= 100
    }

    pub fn new(
        total_area: usize,
        land_area_percentage: u64,
        num_continents: usize,
        water_padding_percentage: u64,
    ) -> (o: ContinentOptions)
        requires
            land_area_percentage <= 100,
            water_padding_percentage <= 100,
        ensures
            o == (ContinentOptions {
                total_area,
                land_area_percentage,
                num_continents,
                keep_percent: (100 - water_padding_percentage) as u64,
            }),
            o.wf(),
    {
        ContinentOptions {
            total_area,
            land_area_percentage,
            num_continents,
            keep_percent: 100 - water_padding_percentage,
        }
    }
}

/// The grower's result: the set of all land cells, the per-continent cell
/// sets partitioning it, and the initial seed cells.
#[derive(Debug)]
pub struct Continents {
    pub all_continent_cells: Vec<usize>,
    pub continents: Vec<Vec<usize>>,
    pub initial_cells: Vec<usize>,
}

impl Continents {
    fn new(
        all_continent_cells: Vec<usize>,
        continents: Vec<Vec<usize>>,
        initial_cells: Vec<usize>,
    ) -> (c: Continents)
        ensures
            c.all_continent_cells == all_continent_cells,
            c.continents == continents,
            c.initial_cells == initial_cells,
    {
        Continents { all_continent_cells, continents, initial_cells }
    }
}

/// Some continent holds the cell.
pub open spec fn in_some_continent(conts: Seq<Vec<usize>>, x: usize) -> bool {
    exists|p: int| 0 <= p < conts.len() && (#[trigger] conts[p])@.contains(x)
}

/// No two continents hold a common cell.
pub open spec fn continents_disjoint(conts: Seq<Vec<usize>>) -> bool {
    forall|p: int, q: int, x: usize|
        0 <= p < conts.len() && 0 <= q < conts.len() && p != q && #[trigger] conts[p]@.contains(x)
            ==> !(#[trigger] conts[q]@.contains(x))
}

/// The summed doubled polygon areas of the listed cells.
pub open spec fn sum_area2(d: Diagram, cells: Seq<usize>) -> int
    decreases cells.len(),
{
    if cells.len() == 0 {
        0
    } else {
        sum_area2(d, cells.drop_last()) + shoelace_doubled(
            d.cells[cells.last() as int].vertices@,
        )
    }
}

/// The summed doubled areas of in-range cells of a well-formed diagram are
/// bounded by the per-cell maximum.
pub proof fn lemma_sum_area2_bound(d: Diagram, cells: Seq<usize>)
    requires
        d.wf(),
        forall|k: int| 0 <= k < cells.len() ==> (#[trigger] cells[k]) < d.cells.len(),
    ensures
        0 <= sum_area2(d, cells) <= cells.len() * 80_000_000_000_000_000_000_000,
    decreases cells.len(),
{
    if cells.len() > 0 {
        lemma_sum_area2_bound(d, cells.drop_last());
        let verts = d.cells[cells.last() as int].vertices@;
        lemma_shoelace_doubled_bound(verts);
        assert(verts.len() * cross_bound() <= 80_000_000_000_000_000_000_000) by (nonlinear_arith)
            requires
                0 <= verts.len() <= MAX_CELL_VERTICES,
                MAX_CELL_VERTICES == 10_000,
                cross_bound() == 8_000_000_000_000_000_000,
        ;
        assert((cells.len() - 1) * 80_000_000_000_000_000_000_000 + 80_000_000_000_000_000_000_000
            == cells.len() * 80_000_000_000_000_000_000_000) by (nonlinear_arith);
    }
}

/// The cell at position `k` of the continent entered as a neighbor of an
/// earlier member.
pub open spec fn grown_from_earlier(d: Diagram, cont: Seq<usize>, k: int) -> bool {
    exists|m: int|
        0 <= m < k && #[trigger] d.cells[cont[m] as int].neighbors@.contains(cont[k])
}

/// Every member of the continent after its seed entered as a neighbor of an
/// earlier member, so the continent is connected through the neighbor graph.
pub open spec fn continent_connected(d: Diagram, cont: Seq<usize>) -> bool {
    forall|k: int| 1 <= k < cont.len() ==> #[trigger] grown_from_earlier(d, cont, k)
}

/// The grower's state invariant: `all` lists the land cells without
/// repetition, `used` marks exactly those, every land cell's site lies inside
/// the land box, the continents partition `all` with the `p`-th continent
/// grown from the `p`-th seed, and `area2` is the summed doubled area of the
/// land cells.
pub open spec fn grower_inv(
    d: Diagram,
    lb: BoundingBox,
    used: Seq<bool>,
    all: Seq<usize>,
    conts: Seq<Vec<usize>>,
    initial: Seq<usize>,
    area2: int,
) -> bool {
    &&& used.len() == d.cells.len()
    &&& distinct_indices(all)
    &&& forall|k: int|
        0 <= k < all.len() ==> (#[trigger] all[k]) < d.cells.len() && lb.contains_spec(
            d.cells[all[k] as int].site,
        )
    &&& forall|x: int| 0 <= x < used.len() ==> ((#[trigger] used[x]) <==> all.contains(x as usize))
    &&& forall|x: usize| all.contains(x) <==> in_some_continent(conts, x)
    &&& continents_disjoint(conts)
    &&& conts.len() == initial.len()
    &&& forall|p: int|
        0 <= p < conts.len() ==> distinct_indices((#[trigger] conts[p])@) && conts[p]@.len() >= 1
            && conts[p]@[0] == initial[p]
    &&& forall|p: int| 0 <= p < conts.len() ==> continent_connected(d, (#[trigger] conts[p])@)
    &&& area2 == sum_area2(d, all)
}

/// Claims one fresh cell for continent `c`: marks it used, appends it to the
/// land list and to the continent, and adds its area.  The partition
/// invariant is preserved, and no stored cell is ever removed.
fn add_cell_to_continent(
    diagram: &Diagram,
    lb: &BoundingBox,
    used: &mut Vec<bool>,
    all: &mut Vec<usize>,
    conts: &mut Vec<Vec<usize>>,
    area2: &mut u128,
    Ghost(initial): Ghost<Seq<usize>>,
    c: usize,
    nb: usize,
)
    requires
        diagram.wf(),
        grower_inv(
            *diagram,
            *lb,
            old(used)@,
            old(all)@,
            old(conts)@,
            initial,
            *old(area2) as int,
        ),
        c < old(conts)@.len(),
        nb < diagram.cells@.len(),
        !old(used)@[nb as int],
        lb.contains_spec(diagram.cells@[nb as int].site),
        exists|m: int|
            0 <= m < old(conts)@[c as int]@.len()
                && #[trigger] diagram.cells@[old(conts)@[c as int]@[m] as int].neighbors@.contains(
                nb,
            ),
        *old(area2) <= 100_000_000_000_000_000_000_000_000_000,
    ensures
        grower_inv(
            *diagram,
            *lb,
            final(used)@,
            final(all)@,
            final(conts)@,
            initial,
            *final(area2) as int,
        ),
        final(all)@ == old(all)@.push(nb),
        final(conts)@.len() == old(conts)@.len(),
        *old(area2) <= *final(area2) <= *old(area2) + 80_000_000_000_000_000_000_000,
{
    let ghost old_all = all@;
    let ghost old_conts = conts@;
    proof {
        assert(!old_all.contains(nb));
        if in_some_continent(old_conts, nb) {
            assert(old_all.contains(nb));
        }
    }
    used.set(nb, true);
    all.push(nb);
    let cont = vstd::std_specs::vec::vec_index_mut(conts, c);
    let ghost old_inner = cont@;
    cont.push(nb);
    let a2 = shoelace_area_of_cell(diagram, nb);
    proof {
        lemma_shoelace_doubled_bound(diagram.cells@[nb as int].vertices@);
        assert(diagram.cells@[nb as int].vertices@.len() * cross_bound()
            <= 80_000_000_000_000_000_000_000) by (nonlinear_arith)
            requires
                0 <= diagram.cells@[nb as int].vertices@.len() <= MAX_CELL_VERTICES,
                MAX_CELL_VERTICES == 10_000,
                cross_bound() == 8_000_000_000_000_000_000,
        ;
    }
    *area2 = *area2 + a2;
    proof {
        let new_all = all@;
        let new_conts = conts@;
        assert(new_all == old_all.push(nb));
        assert(new_conts == old_conts.update(c as int, new_conts[c as int]));
        assert(new_conts[c as int]@ == old_inner.push(nb));
        // the new land list repeats nothing and stays inside the land box
        assert forall|x: int| 0 <= x < used@.len() implies ((#[trigger] used@[x])
            <==> new_all.contains(x as usize)) by {
            if x == nb {
                assert(new_all[new_all.len() - 1] == nb);
                assert(new_all.contains(nb));
            } else {
                if new_all.contains(x as usize) {
                    let k = choose|k: int| 0 <= k < new_all.len() && new_all[k] == x as usize;
                    assert(old_all[k] == x as usize);
                    assert(old_all.contains(x as usize));
                }
                if old_all.contains(x as usize) {
                    let k = choose|k: int| 0 <= k < old_all.len() && old_all[k] == x as usize;
                    assert(new_all[k] == x as usize);
                }
            }
        }
        // the continents still cover exactly the land list
        assert forall|x: usize| new_all.contains(x) implies in_some_continent(new_conts, x) by {
            if x == nb {
                assert(new_conts[c as int]@[new_conts[c as int]@.len() - 1] == nb);
                assert(new_conts[c as int]@.contains(nb));
            } else {
                let k = choose|k: int| 0 <= k < new_all.len() && new_all[k] == x;
                assert(old_all[k] == x);
                assert(old_all.contains(x));
                let p = choose|p: int|
                    0 <= p < old_conts.len() && (#[trigger] old_conts[p])@.contains(x);
                if p == c {
                    let k2 = choose|k2: int| 0 <= k2 < old_inner.len() && old_inner[k2] == x;
                    assert(new_conts[c as int]@[k2] == x);
                    assert(new_conts[c as int]@.contains(x));
                } else {
                    assert(new_conts[p]@.contains(x));
                }
            }
        }
        assert forall|x: usize| in_some_continent(new_conts, x) implies new_all.contains(x) by {
            let p = choose|p: int|
                0 <= p < new_conts.len() && (#[trigger] new_conts[p])@.contains(x);
            if p == c {
                let k = choose|k: int|
                    0 <= k < new_conts[c as int]@.len() && new_conts[c as int]@[k] == x;
                if k < old_inner.len() {
                    assert(old_inner[k] == x);
                    assert(old_conts[c as int]@.contains(x));
                    assert(in_some_continent(old_conts, x));
                    assert(old_all.contains(x));
                    let k2 = choose|k2: int| 0 <= k2 < old_all.len() && old_all[k2] == x;
                    assert(new_all[k2] == x);
                } else {
                    assert(x == nb);
                    assert(new_all[new_all.len() - 1] == nb);
                }
            } else {
                assert(old_conts[p]@.contains(x));
                assert(in_some_continent(old_conts, x));
                assert(old_all.contains(x));
                let k2 = choose|k2: int| 0 <= k2 < old_all.len() && old_all[k2] == x;
                assert(new_all[k2] == x);
            }
        }
        // the continents stay pairwise disjoint
        assert forall|p: int, q: int, x: usize|
            0 <= p < new_conts.len() && 0 <= q < new_conts.len() && p != q
                && #[trigger] new_conts[p]@.contains(x) implies !(#[trigger] new_conts[q]@.contains(
            x,
        )) by {
            if new_conts[q]@.contains(x) {
                // derive membership in the old continents for both, a contradiction
                let xp: usize = x;
                if p == c {
                    let k = choose|k: int|
                        0 <= k < new_conts[c as int]@.len() && new_conts[c as int]@[k] == xp;
                    if k < old_inner.len() {
                        assert(old_conts[c as int]@.contains(xp));
                        assert(!old_conts[q]@.contains(xp));
                        assert(new_conts[q]@ == old_conts[q]@);
                    } else {
                        assert(xp == nb);
                        assert(old_conts[q]@.contains(nb));
                        assert(in_some_continent(old_conts, nb));
                    }
                } else if q == c {
                    let k = choose|k: int|
                        0 <= k < new_conts[c as int]@.len() && new_conts[c as int]@[k] == xp;
                    if k < old_inner.len() {
                        assert(old_conts[c as int]@.contains(xp));
                        assert(!old_conts[p]@.contains(xp));
                        assert(new_conts[p]@ == old_conts[p]@);
                    } else {
                        assert(xp == nb);
                        assert(old_conts[p]@.contains(nb));
                        assert(in_some_continent(old_conts, nb));
                    }
                } else {
                    assert(old_conts[p]@.contains(xp) && old_conts[q]@.contains(xp));
                }
            }
        }
        // the grown continent still repeats nothing
        assert forall|p: int| 0 <= p < new_conts.len() implies distinct_indices(
            (#[trigger] new_conts[p])@,
        ) && new_conts[p]@.len() >= 1 && new_conts[p]@[0] == initial[p] by {
            if p == c {
                assert(new_conts[c as int]@[0] == old_inner[0]);
                assert forall|k1: int, k2: int|
                    0 <= k1 < k2 < new_conts[c as int]@.len() implies new_conts[c as int]@[k1]
                    != new_conts[c as int]@[k2] by {
                    if k2 == old_inner.len() {
                        if old_inner[k1] == nb {
                            assert(old_conts[c as int]@.contains(nb));
                            assert(in_some_continent(old_conts, nb));
                        }
                    }
                }
            }
        }
        // the grown continent stays connected: the new cell entered as a
        // neighbor of the member it was scanned from
        assert forall|p: int| 0 <= p < new_conts.len() implies continent_connected(
            *diagram,
            (#[trigger] new_conts[p])@,
        ) by {
            if p == c {
                let newc = new_conts[c as int]@;
                assert forall|k: int| 1 <= k < newc.len() implies grown_from_earlier(
                    *diagram,
                    newc,
                    k,
                ) by {
                    if k < old_inner.len() {
                        assert(grown_from_earlier(*diagram, old_inner, k));
                        let m = choose|m: int|
                            0 <= m < k && #[trigger] diagram.cells@[old_inner[m] as int].neighbors@.contains(
                                old_inner[k],
                            );
                        assert(newc[m] == old_inner[m] && newc[k] == old_inner[k]);
                        assert(diagram.cells@[newc[m] as int].neighbors@.contains(newc[k]));
                    } else {
                        let m = choose|m: int|
                            0 <= m < old_inner.len()
                                && #[trigger] diagram.cells@[old_inner[m] as int].neighbors@.contains(
                                nb,
                            );
                        assert(newc[m] == old_inner[m] && newc[k] == nb);
                        assert(diagram.cells@[newc[m] as int].neighbors@.contains(newc[k]));
                    }
                }
            } else {
                assert(new_conts[p] == old_conts[p]);
                assert(continent_connected(*diagram, old_conts[p]@));
            }
        }
        // the area sum extends by the area of the added cell
        assert(new_all.drop_last() =~= old_all);
        assert(sum_area2(*diagram, new_all) == sum_area2(*diagram, old_all) + shoelace_doubled(
            diagram.cells@[nb as int].vertices@,
        ));
    }
}

/// Seeds `num_continents` continents on distinct cells inside the land box
/// and grows them through the neighbor graph until the cumulative land area
/// exceeds the configured share of the total area.
///
/// On success the continents are pairwise disjoint and their union is
/// exactly `all_continent_cells`; every land cell's site lies inside the
/// land box; the land set holds no more cells than the diagram; and the
/// summed doubled land area exceeds twice the target share of the total
/// area.  The call fails with `DiagramChooseError` exactly when no cell lies
/// entirely inside the land box, and with `GrowthStalled` when
/// `STALL_RETRY_LIMIT` consecutive draws found nothing to add.
pub fn make_continent_cells(
    diagram: &Diagram,
    options: &ContinentOptions,
    rng: &mut rand_pcg::Pcg64,
) -> (r: Result<Continents, VoronoiContinentError>)
    requires
        diagram.wf(),
        options.wf(),
    ensures
        match r {
            Ok(c) => {
                let lb = land_box_spec(diagram.bounding_box, options.keep_percent);
                &&& has_eligible_cell(*diagram, lb)
                &&& distinct_indices(c.all_continent_cells@)
                &&& c.all_continent_cells@.len() <= diagram.cells@.len()
                &&& forall|k: int|
                    0 <= k < c.all_continent_cells@.len() ==> (
                    #[trigger] c.all_continent_cells@[k]) < diagram.cells@.len()
                        && lb.contains_spec(
                        diagram.cells@[c.all_continent_cells@[k] as int].site,
                    )
                &&& continents_disjoint(c.continents@)
                &&& forall|x: usize|
                    c.all_continent_cells@.contains(x) <==> in_some_continent(c.continents@, x)
                &&& sum_area2(*diagram, c.all_continent_cells@) * 100 > 2 * (
                options.total_area as int) * (options.land_area_percentage as int)
                &&& c.all_continent_cells@.len() > c.initial_cells@.len() ==> sum_area2(
                    *diagram,
                    c.all_continent_cells@.drop_last(),
                ) * 100 <= 2 * (options.total_area as int) * (
                options.land_area_percentage as int)
                &&& c.initial_cells@.len() == c.continents@.len()
                &&& 1 <= c.continents@.len() <= options.num_continents
                &&& c.continents@.len() == vstd::math::min(
                    options.num_continents as int,
                    eligible_set(*diagram, lb).len() as int,
                )
                &&& distinct_indices(c.initial_cells@)
                &&& forall|k: int|
                    0 <= k < c.initial_cells@.len() ==> cell_in_box_spec(
                        *diagram,
                        (#[trigger] c.initial_cells@[k]) as int,
                        lb,
                    ) && c.all_continent_cells@.contains(c.initial_cells@[k])
                &&& forall|p: int|
                    0 <= p < c.continents@.len() ==> (#[trigger] c.continents@[p])@.len() >= 1
                        && c.continents@[p]@[0] == c.initial_cells@[p]
                &&& forall|p: int|
                    0 <= p < c.continents@.len() ==> continent_connected(
                        *diagram,
                        (#[trigger] c.continents@[p])@,
                    )
            },
            Err(e) => {
                &&& e != VoronoiContinentError::DiagramCreationError
                &&& (e == VoronoiContinentError::DiagramChooseError <==> !has_eligible_cell(
                    *diagram,
                    land_box_spec(diagram.bounding_box, options.keep_percent),
                ))
            },
        },
{
    let lb = land_box(&diagram.bounding_box, options.keep_percent);
    let eligible = eligible_cells(diagram, &lb);
    let ghost eview = eligible@;
    if eligible.len() == 0 {
        return Err(VoronoiContinentError::DiagramChooseError);
    }
    let n = diagram.cells.len();
    let amount = if options.num_continents < eligible.len() {
        options.num_continents
    } else {
        eligible.len()
    };
    let mut draws: Vec<usize> = Vec::new();
    let mut j: usize = 0;
    while j < amount
        invariant
            0 <= j <= amount,
            amount <= eview.len(),
            eview.len() == eligible@.len(),
            draws@.len() == j,
            forall|j2: int| 0 <= j2 < draws@.len() ==> (#[trigger] draws@[j2]) < eview.len() - j2,
        decreases amount - j,
    {
        let d = rng_below(rng, eligible.len() - j);
        draws.push(d);
        j += 1;
    }
    let seeds = choose_seeds(eligible, &draws);
    proof {
        assert forall|k: int| 0 <= k < seeds@.len() implies (#[trigger] seeds@[k]) < n
            && cell_in_box_spec(*diagram, seeds@[k] as int, lb) by {
            assert(eview.contains(seeds@[k]));
            let b = choose|b: int| 0 <= b < eview.len() && eview[b] == seeds@[k];
            assert(eview[b] < diagram.cells@.len());
        }
    }
    proof {
        lemma_distinct_bounded_len(seeds@, n as int);
    }
    let initial_cells = copy_indices(&seeds);
    let mut used = false_flags(n);
    let mut all_cells: Vec<usize> = Vec::new();
    let mut conts: Vec<Vec<usize>> = Vec::new();
    let mut area2: u128 = 0;
    let mut k: usize = 0;
    while k < seeds.len()
        invariant
            0 <= k <= seeds@.len(),
            seeds@.len() <= n,
            diagram.wf(),
            n == diagram.cells@.len(),
            n <= MAX_CELLS,
            lb.wf(),
            distinct_indices(seeds@),
            forall|k2: int|
                0 <= k2 < seeds@.len() ==> (#[trigger] seeds@[k2]) < n && cell_in_box_spec(
                    *diagram,
                    seeds@[k2] as int,
                    lb,
                ),
            all_cells@ == seeds@.take(k as int),
            conts@.len() == k,
            grower_inv(*diagram, lb, used@, all_cells@, conts@, seeds@.take(k as int), area2 as int),
            area2 <= k * 80_000_000_000_000_000_000_000,
        decreases seeds@.len() - k,
    {
        let s = seeds[k];
        let ghost old_all = all_cells@;
        let ghost old_conts = conts@;
        proof {
            assert(!old_all.contains(s)) by {
                if old_all.contains(s) {
                    let b = choose|b: int| 0 <= b < old_all.len() && old_all[b] == s;
                    assert(seeds@[b] == seeds@[k as int] && b < k);
                }
            }
        }
        used.set(s, true);
        all_cells.push(s);
        let mut c0: Vec<usize> = Vec::new();
        c0.push(s);
        conts.push(c0);
        let a2 = shoelace_area_of_cell(diagram, s);
        proof {
            lemma_shoelace_doubled_bound(diagram.cells@[s as int].vertices@);
            assert(diagram.cells@[s as int].vertices@.len() * cross_bound()
                <= 80_000_000_000_000_000_000_000) by (nonlinear_arith)
                requires
                    0 <= diagram.cells@[s as int].vertices@.len() <= MAX_CELL_VERTICES,
                    MAX_CELL_VERTICES == 10_000,
                    cross_bound() == 8_000_000_000_000_000_000,
            ;
            assert(k * 80_000_000_000_000_000_000_000 + 80_000_000_000_000_000_000_000 == (k + 1)
                * 80_000_000_000_000_000_000_000 && (k + 1) * 80_000_000_000_000_000_000_000 <= (
            MAX_CELLS as int) * 80_000_000_000_000_000_000_000) by (nonlinear_arith)
                requires
                    0 <= k,
                    k + 1 <= MAX_CELLS,
            ;
        }
        area2 = area2 + a2;
        proof {
            let new_all = all_cells@;
            let new_conts = conts@;
            let new_initial = seeds@.take(k + 1);
            assert(new_all =~= new_initial);
            assert(new_conts[k as int]@ =~= seq![s]);
            // the used flags keep matching the land list
            assert forall|x: int| 0 <= x < used@.len() implies ((#[trigger] used@[x])
                <==> new_all.contains(x as usize)) by {
                if x == s {
                    assert(new_all[new_all.len() - 1] == s);
                } else {
                    if new_all.contains(x as usize) {
                        let b = choose|b: int| 0 <= b < new_all.len() && new_all[b] == x as usize;
                        assert(old_all[b] == x as usize);
                        assert(old_all.contains(x as usize));
                    }
                    if old_all.contains(x as usize) {
                        let b = choose|b: int| 0 <= b < old_all.len() && old_all[b] == x as usize;
                        assert(new_all[b] == x as usize);
                    }
                }
            }
            // the new singleton continent extends the partition
            assert forall|x: usize| new_all.contains(x) implies in_some_continent(
                new_conts,
                x,
            ) by {
                if x == s {
                    assert(new_conts[k as int]@[0] == s);
                    assert(new_conts[k as int]@.contains(s));
                } else {
                    let b = choose|b: int| 0 <= b < new_all.len() && new_all[b] == x;
                    assert(old_all[b] == x);
                    assert(old_all.contains(x));
                    let p = choose|p: int|
                        0 <= p < old_conts.len() && (#[trigger] old_conts[p])@.contains(x);
                    assert(new_conts[p]@.contains(x));
                }
            }
            assert forall|x: usize| in_some_continent(new_conts, x) implies new_all.contains(
                x,
            ) by {
                let p = choose|p: int|
                    0 <= p < new_conts.len() && (#[trigger] new_conts[p])@.contains(x);
                if p == k {
                    assert(new_conts[k as int]@[0] == s);
                    assert(x == s);
                    assert(new_all[new_all.len() - 1] == s);
                } else {
                    assert(old_conts[p]@.contains(x));
                    assert(in_some_continent(old_conts, x));
                    assert(old_all.contains(x));
                    let b = choose|b: int| 0 <= b < old_all.len() && old_all[b] == x;
                    assert(new_all[b] == x);
                }
            }
            assert forall|p: int, q: int, x: usize|
                0 <= p < new_conts.len() && 0 <= q < new_conts.len() && p != q
                    && #[trigger] new_conts[p]@.contains(x) implies !(
            #[trigger] new_conts[q]@.contains(x)) by {
                if new_conts[q]@.contains(x) {
                    if p == k {
                        assert(x == s);
                        assert(old_conts[q]@.contains(s));
                        assert(in_some_continent(old_conts, s));
                        assert(old_all.contains(s));
                    } else if q == k {
                        assert(x == s);
                        assert(old_conts[p]@.contains(s));
                        assert(in_some_continent(old_conts, s));
                        assert(old_all.contains(s));
                    } else {
                        assert(old_conts[p]@.contains(x) && old_conts[q]@.contains(x));
                    }
                }
            }
            assert forall|p: int| 0 <= p < new_conts.len() implies distinct_indices(
                (#[trigger] new_conts[p])@,
            ) && new_conts[p]@.len() >= 1 && new_conts[p]@[0] == new_initial[p] by {
                if p < k {
                    assert(new_conts[p] == old_conts[p]);
                    assert(new_initial[p] == seeds@.take(k as int)[p]);
                }
            }
            assert forall|p: int| 0 <= p < new_conts.len() implies continent_connected(
                *diagram,
                (#[trigger] new_conts[p])@,
            ) by {
                if p < k {
                    assert(new_conts[p] == old_conts[p]);
                    assert(continent_connected(*diagram, old_conts[p]@));
                } else {
                    assert(new_conts[k as int]@.len() == 1);
                }
            }
            assert(new_all.drop_last() =~= old_all);
        }
        k += 1;
    }
    if conts.len() == 0 {
        return Err(VoronoiContinentError::GrowthStalled);
    }
    proof {
        assert(seeds@.take(seeds@.len() as int) =~= seeds@);
        assert(has_eligible_cell(*diagram, lb)) by {
            assert(cell_in_box_spec(*diagram, seeds@[0] as int, lb));
        }
        assert forall|k2: int| 0 <= k2 < seeds@.len() implies all_cells@.contains(
            #[trigger] seeds@[k2],
        ) by {
            assert(all_cells@[k2] == seeds@[k2]);
        }
        assert((MAX_CELLS as int) * 80_000_000_000_000_000_000_000
            == 80_000_000_000_000_000_000_000_000_000) by (nonlinear_arith)
            requires
                MAX_CELLS == 1_000_000,
        ;
    }
    let rhs_a: u128 = 2 * (options.total_area as u128);
    proof {
        assert(rhs_a * options.land_area_percentage <= rhs_a * 100 && rhs_a * 100
            < 0xffffffffffffffffffffffffffffffff) by (nonlinear_arith)
            requires
                options.land_area_percentage <= 100,
                rhs_a <= 0xffffffffffffffffffffffffffffff,
        ;
    }
    let rhs: u128 = rhs_a * (options.land_area_percentage as u128);
    let mut stall_budget: u64 = STALL_RETRY_LIMIT;
    while area2 * 100 <= rhs
        invariant
            diagram.wf(),
            options.wf(),
            n == diagram.cells@.len(),
            n <= MAX_CELLS,
            lb.wf(),
            lb == land_box_spec(diagram.bounding_box, options.keep_percent),
            has_eligible_cell(*diagram, lb),
            grower_inv(*diagram, lb, used@, all_cells@, conts@, seeds@, area2 as int),
            1 <= conts@.len() <= options.num_continents,
            conts@.len() == vstd::math::min(
                options.num_continents as int,
                eligible_set(*diagram, lb).len() as int,
            ),
            distinct_indices(seeds@),
            forall|k2: int|
                0 <= k2 < seeds@.len() ==> (#[trigger] seeds@[k2]) < n && cell_in_box_spec(
                    *diagram,
                    seeds@[k2] as int,
                    lb,
                ) && all_cells@.contains(seeds@[k2]),
            initial_cells@ == seeds@,
            rhs == 2 * (options.total_area as int) * (options.land_area_percentage as int),
            all_cells@.len() > seeds@.len() ==> sum_area2(*diagram, all_cells@.drop_last()) * 100
                <= 2 * (options.total_area as int) * (options.land_area_percentage as int),
            stall_budget <= STALL_RETRY_LIMIT,
            area2 <= 80_000_000_000_000_000_000_000_000_000,
        decreases n - all_cells@.len(), stall_budget,
    {
        let ghost entry_all = all_cells@;
        let c = rng_below(rng, conts.len());
        let m = rng_below(rng, conts[c].len());
        let cell_idx = conts[c][m];
        proof {
            assert(conts@[c as int]@.contains(conts@[c as int]@[m as int]));
            assert(in_some_continent(conts@, cell_idx));
            assert(all_cells@.contains(cell_idx));
            let b = choose|b: int| 0 <= b < all_cells@.len() && all_cells@[b] == cell_idx;
            assert(all_cells@[b] < n);
        }
        let mut neighbors = copy_indices(&diagram.cells[cell_idx].neighbors);
        shuffle_indices(rng, &mut neighbors);
        proof {
            broadcast use group_to_multiset_ensures;

            assert forall|t: int| 0 <= t < neighbors@.len() implies (#[trigger] neighbors@[t])
                < n && diagram.cells@[cell_idx as int].neighbors@.contains(neighbors@[t]) by {
                let orig = diagram.cells@[cell_idx as int].neighbors@;
                assert(neighbors@.contains(neighbors@[t]));
                assert(neighbors@.to_multiset().count(neighbors@[t]) > 0);
                assert(orig.to_multiset().count(neighbors@[t]) > 0);
                assert(orig.contains(neighbors@[t]));
                let b = choose|b: int| 0 <= b < orig.len() && orig[b] == neighbors@[t];
                assert(orig[b] < n);
            }
        }
        let mut added = false;
        let mut t: usize = 0;
        while t < neighbors.len() && !added
            invariant
                0 <= t <= neighbors@.len(),
                diagram.wf(),
                n == diagram.cells@.len(),
                n <= MAX_CELLS,
                lb.wf(),
                c < conts@.len(),
                cell_idx < n,
                forall|t2: int|
                    0 <= t2 < neighbors@.len() ==> (#[trigger] neighbors@[t2]) < n
                        && diagram.cells@[cell_idx as int].neighbors@.contains(neighbors@[t2]),
                !added ==> m < conts@[c as int]@.len() && conts@[c as int]@[m as int] == cell_idx,
                grower_inv(*diagram, lb, used@, all_cells@, conts@, seeds@, area2 as int),
                if added {
                    all_cells@ == entry_all.push(all_cells@.last())
                } else {
                    all_cells@ == entry_all
                },
                sum_area2(*diagram, entry_all) * 100 <= 2 * (options.total_area as int) * (
                options.land_area_percentage as int),
                all_cells@.len() > seeds@.len() ==> sum_area2(*diagram, all_cells@.drop_last())
                    * 100 <= 2 * (options.total_area as int) * (
                options.land_area_percentage as int),
                conts@.len() >= 1,
                added ==> area2 <= 80_000_000_000_000_000_000_000_000_000
                    + 80_000_000_000_000_000_000_000,
                !added ==> area2 <= 80_000_000_000_000_000_000_000_000_000,
            decreases neighbors@.len() - t,
        {
            let nb = neighbors[t];
            if !used[nb] {
                let in_land = lb.is_inside(&diagram.cells[nb].site);
                if in_land {
                    proof {
                        // the scanned member links the new cell to its continent
                        assert(diagram.cells@[conts@[c as int]@[m as int] as int].neighbors@.contains(
                            nb,
                        ));
                    }
                    add_cell_to_continent(
                        diagram,
                        &lb,
                        &mut used,
                        &mut all_cells,
                        &mut conts,
                        &mut area2,
                        Ghost(seeds@),
                        c,
                        nb,
                    );
                    added = true;
                    proof {
                        assert(all_cells@.drop_last() =~= entry_all);
                    }
                }
            }
            t += 1;
        }
        proof {
            lemma_distinct_bounded_len(all_cells@, n as int);
            lemma_sum_area2_bound(*diagram, all_cells@);
            assert(all_cells@.len() * 80_000_000_000_000_000_000_000 <= (MAX_CELLS as int)
                * 80_000_000_000_000_000_000_000) by (nonlinear_arith)
                requires
                    0 <= all_cells@.len() <= MAX_CELLS,
            ;
            assert((MAX_CELLS as int) * 80_000_000_000_000_000_000_000
                == 80_000_000_000_000_000_000_000_000_000) by (nonlinear_arith)
                requires
                    MAX_CELLS == 1_000_000,
            ;
            assert forall|k2: int| 0 <= k2 < seeds@.len() implies all_cells@.contains(
                #[trigger] seeds@[k2],
            ) by {
                let b = choose|b: int| 0 <= b < entry_all.len() && entry_all[b] == seeds@[k2];
                assert(all_cells@[b] == seeds@[k2]);
            }
        }
        if added {
            stall_budget = STALL_RETRY_LIMIT;
        } else {
            if stall_budget == 0 {
                return Err(VoronoiContinentError::GrowthStalled);
            }
            stall_budget = stall_budget - 1;
        }
    }
    proof {
        lemma_distinct_bounded_len(all_cells@, n as int);
    }
    Ok(Continents::new(all_cells, conts, initial_cells))
}

/// The diagram-space point queried for a grid coordinate: the coordinate in
/// diagram units, translated so the grid is centered on the diagram, plus the
/// per-tile noise offsets.
pub open spec fn query_point(
    row: int,
    col: int,
    rows: int,
    cols: int,
    scale: int,
    dx: int,
    dy: int,
) -> Point {
    Point {
        x: (row * scale - (rows * scale) / 2 + dx) as i64,
        y: (col * scale - (cols * scale) / 2 + dy) as i64,
    }
}

/// The tile the rasterizer stores for a query point: grassland exactly when
/// the nearest site's cell belongs to a continent, at elevation 0.
pub open spec fn continent_tile(d: Diagram, all: Seq<usize>, qp: Point) -> Tile {
    Tile {
        terrain: if all.contains(first_closest(d, qp) as usize) {
            TileType::Grassland
        } else {
            TileType::Water
        },
        elevation: 0,
    }
}

/// Rasterizes the continents into a `map_size_x` by `map_size_y` tile grid.
///
/// Each grid coordinate, perturbed by its two noise offsets, is resolved to
/// the nearest site by a linear scan, and the tile is grassland exactly when
/// that site's cell is a continent cell.  `scale` is the length of one grid
/// step in diagram units; the offsets are row-major with `map_size_y`
/// columns.
pub fn rasterize_continents(
    diagram: &Diagram,
    continents: &Continents,
    map_size_x: usize,
    map_size_y: usize,
    scale: i64,
    offsets_x: &Vec<i64>,
    offsets_y: &Vec<i64>,
) -> (g: TileGrid)
    requires
        diagram.wf(),
        diagram.cells@.len() > 0,
        1 <= map_size_x,
        1 <= map_size_y,
        1 <= scale,
        map_size_x * scale <= 1_000_000_000,
        map_size_y * scale <= 1_000_000_000,
        offsets_x@.len() == map_size_x * map_size_y,
        offsets_y@.len() == map_size_x * map_size_y,
        forall|k: int|
            0 <= k < offsets_x@.len() ==> -1_000_000_000 <= #[trigger] offsets_x@[k]
                <= 1_000_000_000,
        forall|k: int|
            0 <= k < offsets_y@.len() ==> -1_000_000_000 <= #[trigger] offsets_y@[k]
                <= 1_000_000_000,
        forall|k: int|
            0 <= k < continents.all_continent_cells@.len() ==> (
            #[trigger] continents.all_continent_cells@[k]) < diagram.cells@.len(),
    ensures
        g.wf(),
        g.rows == map_size_x,
        g.cols == map_size_y,
        forall|r: int, c: int|
            0 <= r < map_size_x && 0 <= c < map_size_y ==> g.tile_at(r, c) == continent_tile(
                *diagram,
                continents.all_continent_cells@,
                query_point(
                    r,
                    c,
                    map_size_x as int,
                    map_size_y as int,
                    scale as int,
                    offsets_x@[r * map_size_y + c] as int,
                    offsets_y@[r * map_size_y + c] as int,
                ),
            ),
{
    let n = diagram.cells.len();
    let mut is_land = false_flags(n);
    let ghost all = continents.all_continent_cells@;
    let mut k: usize = 0;
    while k < continents.all_continent_cells.len()
        invariant
            0 <= k <= all.len(),
            all == continents.all_continent_cells@,
            n == diagram.cells@.len(),
            forall|k2: int| 0 <= k2 < all.len() ==> (#[trigger] all[k2]) < n,
            is_land@.len() == n,
            forall|i: int|
                0 <= i < n ==> ((#[trigger] is_land@[i]) <==> all.take(k as int).contains(
                    i as usize,
                )),
        decreases all.len() - k,
    {
        let cell = continents.all_continent_cells[k];
        let ghost old_land = is_land@;
        is_land.set(cell, true);
        proof {
            let t1 = all.take(k + 1);
            let t0 = all.take(k as int);
            assert forall|i: int| 0 <= i < n implies ((#[trigger] is_land@[i]) <==> all.take(
                k + 1,
            ).contains(i as usize)) by {
                if i == cell {
                    assert(t1[k as int] == cell);
                    assert(t1.contains(cell));
                } else {
                    if t1.contains(i as usize) {
                        let b = choose|b: int| 0 <= b < t1.len() && t1[b] == i as usize;
                        assert(t0[b] == i as usize);
                        assert(t0.contains(i as usize));
                    }
                    if t0.contains(i as usize) {
                        let b = choose|b: int| 0 <= b < t0.len() && t0[b] == i as usize;
                        assert(t1[b] == i as usize);
                        assert(t1.contains(i as usize));
                    }
                }
            }
        }
        k += 1;
    }
    proof {
        assert(all.take(all.len() as int) =~= all);
    }
    let mut tiles: Vec<Tile> = Vec::new();
    proof {
        assert(map_size_x <= 1_000_000_000 && map_size_y <= 1_000_000_000 && 0 <= map_size_x
            * scale && 0 <= map_size_y * scale) by (nonlinear_arith)
            requires
                1 <= map_size_x,
                1 <= map_size_y,
                1 <= scale,
                map_size_x * scale <= 1_000_000_000,
                map_size_y * scale <= 1_000_000_000,
        ;
    }
    let half_x: i64 = (map_size_x as i64) * scale / 2;
    let half_y: i64 = (map_size_y as i64) * scale / 2;
    let total = offsets_x.len();
    let mut row: usize = 0;
    while row < map_size_x
        invariant
            0 <= row <= map_size_x,
            n == diagram.cells@.len(),
            n > 0,
            diagram.wf(),
            1 <= map_size_x <= 1_000_000_000,
            1 <= map_size_y <= 1_000_000_000,
            1 <= scale,
            map_size_x * scale <= 1_000_000_000,
            map_size_y * scale <= 1_000_000_000,
            half_x == (map_size_x * scale) / 2,
            half_y == (map_size_y * scale) / 2,
            0 <= half_x <= 1_000_000_000,
            0 <= half_y <= 1_000_000_000,
            total == offsets_x@.len(),
            offsets_x@.len() == map_size_x * map_size_y,
            offsets_y@.len() == map_size_x * map_size_y,
            forall|k2: int|
                0 <= k2 < offsets_x@.len() ==> -1_000_000_000 <= #[trigger] offsets_x@[k2]
                    <= 1_000_000_000,
            forall|k2: int|
                0 <= k2 < offsets_y@.len() ==> -1_000_000_000 <= #[trigger] offsets_y@[k2]
                    <= 1_000_000_000,
            all == continents.all_continent_cells@,
            is_land@.len() == n,
            forall|i: int| 0 <= i < n ==> ((#[trigger] is_land@[i]) <==> all.contains(i as usize)),
            tiles@.len() == row * map_size_y,
            forall|k2: int|
                0 <= k2 < tiles@.len() ==> #[trigger] tiles@[k2] == continent_tile(
                    *diagram,
                    all,
                    query_point(
                        k2 / (map_size_y as int),
                        k2 % (map_size_y as int),
                        map_size_x as int,
                        map_size_y as int,
                        scale as int,
                        offsets_x@[k2] as int,
                        offsets_y@[k2] as int,
                    ),
                ),
        decreases map_size_x - row,
    {
        let mut col: usize = 0;
        while col < map_size_y
            invariant
                0 <= col <= map_size_y,
                0 <= row < map_size_x,
                n == diagram.cells@.len(),
                n > 0,
                diagram.wf(),
                1 <= map_size_x <= 1_000_000_000,
                1 <= map_size_y <= 1_000_000_000,
                1 <= scale,
                map_size_x * scale <= 1_000_000_000,
                map_size_y * scale <= 1_000_000_000,
                half_x == (map_size_x * scale) / 2,
                half_y == (map_size_y * scale) / 2,
                0 <= half_x <= 1_000_000_000,
                0 <= half_y <= 1_000_000_000,
                total == offsets_x@.len(),
                offsets_x@.len() == map_size_x * map_size_y,
                offsets_y@.len() == map_size_x * map_size_y,
                forall|k2: int|
                    0 <= k2 < offsets_x@.len() ==> -1_000_000_000 <= #[trigger] offsets_x@[k2]
                        <= 1_000_000_000,
                forall|k2: int|
                    0 <= k2 < offsets_y@.len() ==> -1_000_000_000 <= #[trigger] offsets_y@[k2]
                        <= 1_000_000_000,
                all == continents.all_continent_cells@,
                is_land@.len() == n,
                forall|i: int|
                    0 <= i < n ==> ((#[trigger] is_land@[i]) <==> all.contains(i as usize)),
                tiles@.len() == row * map_size_y + col,
                forall|k2: int|
                    0 <= k2 < tiles@.len() ==> #[trigger] tiles@[k2] == continent_tile(
                        *diagram,
                        all,
                        query_point(
                            k2 / (map_size_y as int),
                            k2 % (map_size_y as int),
                            map_size_x as int,
                            map_size_y as int,
                            scale as int,
                            offsets_x@[k2] as int,
                            offsets_y@[k2] as int,
                        ),
                    ),
            decreases map_size_y - col,
        {
            proof {
                assert(row * map_size_y + col < map_size_x * map_size_y && row * map_size_y + col
                    == tiles@.len() && 0 <= row * scale <= 1_000_000_000 && 0 <= col * scale
                    <= 1_000_000_000) by (nonlinear_arith)
                    requires
                        0 <= row < map_size_x,
                        0 <= col < map_size_y,
                        1 <= scale,
                        tiles@.len() == row * map_size_y + col,
                        map_size_x * scale <= 1_000_000_000,
                        map_size_y * scale <= 1_000_000_000,
                ;
                lemma_fundamental_div_mod_converse(
                    row * map_size_y + col,
                    map_size_y as int,
                    row as int,
                    col as int,
                );
            }
            let idx: usize = row * map_size_y + col;
            let px: i64 = (row as i64) * scale - half_x + offsets_x[idx];
            let py: i64 = (col as i64) * scale - half_y + offsets_y[idx];
            let p = Point { x: px, y: py };
            let ci = closest_cell(&p, diagram);
            let tile = if is_land[ci] {
                Tile::new(TileType::Grassland, 0)
            } else {
                Tile::new(TileType::Water, 0)
            };
            tiles.push(tile);
            col += 1;
        }
        proof {
            assert((row + 1) * map_size_y == row * map_size_y + map_size_y) by (nonlinear_arith);
        }
        row += 1;
    }
    let g = TileGrid { rows: map_size_x, cols: map_size_y, tiles };
    proof {
        assert forall|r: int, c: int| 0 <= r < map_size_x && 0 <= c < map_size_y implies g.tile_at(
            r,
            c,
        ) == continent_tile(
            *diagram,
            all,
            query_point(
                r,
                c,
                map_size_x as int,
                map_size_y as int,
                scale as int,
                offsets_x@[r * map_size_y + c] as int,
                offsets_y@[r * map_size_y + c] as int,
            ),
        ) by {
            assert(0 <= r * map_size_y + c < map_size_x * map_size_y) by (nonlinear_arith)
                requires
                    0 <= r < map_size_x,
                    0 <= c < map_size_y,
            ;
            lemma_fundamental_div_mod_converse(r * map_size_y + c, map_size_y as int, r, c);
            assert(g.tiles@[r * map_size_y + c] == continent_tile(
                *diagram,
                all,
                query_point(
                    r,
                    c,
                    map_size_x as int,
                    map_size_y as int,
                    scale as int,
                    offsets_x@[r * map_size_y + c] as int,
                    offsets_y@[r * map_size_y + c] as int,
                ),
            ));
        }
    }
    g
}

} // verus!
