//! The heightmap propagator.
//!
//! Height spreads breadth-first from weighted-sampled seed cells: each seed
//! starts at the maximum height, the running height decays by a fixed
//! per-layer step as the frontier drains, an optional variance factor adds
//! per-cell ruggedness, and any cell outside the land box is damped to zero.
//! A cell's stored height is only ever replaced by a strictly greater one.
//! The running height is shared across the whole frontier and advances as
//! the queue drains, so a cell's final height depends on traversal order;
//! that behavior is part of the strategy, not an accident to normalize.
//!
//! Heights are in fixed-point: decay step and variance are in thousandths.

use vstd::prelude::*;
use vstd::arithmetic::div_mod::{
    lemma_div_is_ordered, lemma_div_multiples_vanish, lemma_div_pos_is_pos,
    lemma_multiply_divide_le, lemma_remainder_lower,
};
use std::collections::VecDeque;
use crate::diagram::{BoundingBox, Diagram};
use crate::map_generators::selection::{
    choose_seeds, distinct_indices, eligible_cells, eligible_set, false_flags, has_eligible_cell,
    lemma_distinct_bounded_len,
};
use crate::math_helpers::{cell_in_box_spec, is_cell_in_box, land_box, land_box_spec};
use crate::rng::rng_below_mcg;

verus! {

/// Failure kinds of the heightmap generator.
#[derive(Debug, PartialEq, Eq, Structural, Clone, Copy)]
pub enum VoronoiError {
    /// The supplied site set could not form a valid partition.
    DiagramCreationError,
    /// No cell had positive selection weight: the land box excluded every
    /// available cell.
    DiagramChooseError,
    /// The frontier drained or the step budget ran out before every site was
    /// assigned a height.
    PropagationStalled,
}

/// Frontier steps the propagation may take before it fails with
/// `PropagationStalled` rather than looping forever.
pub const PROPAGATION_STEP_LIMIT: u64 = 100_000_000;

/// One heightmap entry: a cell index and its assigned height.
#[derive(Debug, PartialEq, Eq, Structural, Clone, Copy)]
pub struct MapCell {
    pub cell_index: usize,
    pub height: u64,
}

impl MapCell {
    pub fn new(cell_index: usize, height: u64) -> (c: MapCell)
        ensures
            c == (MapCell { cell_index, height }),
    {
        MapCell { cell_index, height }
    }
}

/// Parameters of one heightmap run.  The decay step and the variance band
/// are in thousandths; the water padding is given in percent and stored as
/// the share of the bounding box kept as the land box.
#[derive(Debug, PartialEq, Eq, Structural, Clone, Copy)]
pub struct HeightMapOptions {
    pub max_height: u64,
    pub height_step: u64,
    pub variance: Option<u64>,
    /// Share of the bounding box kept as the land box, in percent: 100 minus
    /// the water padding.
    pub keep_percent: u64,
    pub initial_sites: usize,
}

impl HeightMapOptions {
    /// All parameters are in range: the step never raises the running
    /// height, and heights stay clear of overflow.
    pub open spec fn wf(self) -> bool {
        &&& self.max_height <= 1_000_000_000_000
        &&& self.height_step <= 1000
        &&& match self.variance {
            Some(v) => v <= 1100,
            None => true,
        }
        &&& self.keep_percent <= 100
    }

    pub fn new(
        max_height: u64,
        height_step: u64,
        variance: Option<u64>,
        water_padding_percentage: u64,
        initial_sites: usize,
    ) -> (o: HeightMapOptions)
        requires
            max_height <= 1_000_000_000_000,
            height_step <= 1000,
            match variance {
                Some(v) => v <= 1100,
                None => true,
            },
            water_padding_percentage <= 100,
        ensures
            o == (HeightMapOptions {
                max_height,
                height_step,
                variance,
                keep_percent: (100 - water_padding_percentage) as u64,
                initial_sites,
            }),
            o.wf(),
    {
        HeightMapOptions {
            max_height,
            height_step,
            variance,
            keep_percent: 100 - water_padding_percentage,
            initial_sites,
        }
    }

    /// Whether one propagation step can never push a height above the
    /// running height it started from: always without variance, and with
    /// variance whenever the decay step outweighs the widest variance
    /// factor.
    pub open spec fn never_overshoots(self) -> bool {
        match self.variance {
            None => true,
            Some(_) => self.height_step * 1100 <= 1_000_000,
        }
    }
}

/// The number of set flags.
pub open spec fn count_true(s: Seq<bool>) -> int
    decreases s.len(),
{
    if s.len() == 0 {
        0
    } else {
        count_true(s.drop_last()) + if s.last() {
            1int
        } else {
            0int
        }
    }
}

/// Setting one flag raises the count exactly when it was clear.
pub proof fn lemma_count_true_update(s: Seq<bool>, i: int)
    requires
        0 <= i < s.len(),
    ensures
        count_true(s.update(i, true)) == count_true(s) + if s[i] {
            0int
        } else {
            1int
        },
    decreases s.len(),
{
    let t = s.update(i, true);
    if i == s.len() - 1 {
        assert(t.drop_last() =~= s.drop_last());
    } else {
        assert(t.drop_last() =~= s.drop_last().update(i, true));
        lemma_count_true_update(s.drop_last(), i);
    }
}

/// The count of set flags is at most the number of flags.
pub proof fn lemma_count_true_bound(s: Seq<bool>)
    ensures
        0 <= count_true(s) <= s.len(),
    decreases s.len(),
{
    if s.len() > 0 {
        lemma_count_true_bound(s.drop_last());
    }
}

/// A full count means every flag is set.
pub proof fn lemma_count_true_full(s: Seq<bool>)
    requires
        count_true(s) == s.len(),
    ensures
        forall|i: int| 0 <= i < s.len() ==> s[i],
    decreases s.len(),
{
    if s.len() > 0 {
        lemma_count_true_bound(s.drop_last());
        lemma_count_true_full(s.drop_last());
        assert forall|i: int| 0 <= i < s.len() implies s[i] by {
            if i < s.len() - 1 {
                assert(s.drop_last()[i]);
            }
        }
    }
}

/// Applies one propagation update to the height store: on a first visit the
/// height is recorded and the cell is marked; on a revisit the stored height
/// is replaced only when the new height is strictly greater.  No stored
/// height is ever lowered: the final height at the cell is the maximum of
/// the stored and the new height, and every other cell is untouched.
pub fn record_height(
    heights: &mut Vec<u64>,
    assigned: &mut Vec<bool>,
    used_count: &mut usize,
    idx: usize,
    new_height: u64,
)
    requires
        idx < old(heights)@.len(),
        old(assigned)@.len() == old(heights)@.len(),
        *old(used_count) == count_true(old(assigned)@),
        count_true(old(assigned)@) < old(assigned)@.len(),
    ensures
        final(heights)@.len() == old(heights)@.len(),
        final(assigned)@ == old(assigned)@.update(idx as int, true),
        final(heights)@[idx as int] == if old(assigned)@[idx as int] && old(heights)@[idx as int]
            >= new_height {
            old(heights)@[idx as int]
        } else {
            new_height
        },
        final(heights)@[idx as int] >= old(heights)@[idx as int] || !old(assigned)@[idx as int],
        forall|i: int|
            0 <= i < old(heights)@.len() && i != idx ==> final(heights)@[i] == old(heights)@[i],
        *final(used_count) == count_true(final(assigned)@),
        *final(used_count) == *old(used_count) + if old(assigned)@[idx as int] {
            0int
        } else {
            1int
        },
{
    let cell_count = assigned.len();
    proof {
        lemma_count_true_update(assigned@, idx as int);
        lemma_count_true_bound(assigned@);
        assert(*used_count < cell_count);
    }
    if assigned[idx] {
        if heights[idx] < new_height {
            heights.set(idx, new_height);
        }
        proof {
            assert(assigned@.update(idx as int, true) =~= assigned@);
        }
    } else {
        heights.set(idx, new_height);
        assigned.set(idx, true);
        *used_count = *used_count + 1;
    }
}

/// Propagates heights outward from the given seed cells.
///
/// Every seed starts at `max_height`; the frontier is a FIFO queue of
/// neighbor indices; a popped land cell advances the shared decaying height
/// and stores it (scaled by the variance factor) under the monotonic-max
/// rule, while a popped water cell stores zero and leaves the decay
/// untouched; the unvisited neighbors of every popped cell join the queue.
///
/// On success one entry per site is returned, in site order.  Every cell
/// outside the land box has height zero; no seed ever ends below
/// `max_height` (the monotonic-max rule never lowers its initial
/// assignment); and — whenever the options can never overshoot — every
/// height is at most `max_height`, so every seed keeps exactly
/// `max_height`.
pub fn propagate_heights(
    diagram: &Diagram,
    land_box: &BoundingBox,
    seeds: &Vec<usize>,
    rng: &mut rand_pcg::Pcg64Mcg,
    options: &HeightMapOptions,
) -> (r: Result<Vec<MapCell>, VoronoiError>)
    requires
        diagram.wf(),
        options.wf(),
        land_box.wf(),
        distinct_indices(seeds@),
        forall|k: int|
            0 <= k < seeds@.len() ==> (#[trigger] seeds@[k]) < diagram.cells@.len()
                && cell_in_box_spec(*diagram, seeds@[k] as int, *land_box),
    ensures
        match r {
            Ok(cells) => {
                &&& cells@.len() == diagram.cells@.len()
                &&& forall|i: int|
                    0 <= i < cells@.len() ==> (#[trigger] cells@[i]).cell_index == i
                &&& forall|i: int|
                    0 <= i < cells@.len() && !cell_in_box_spec(*diagram, i, *land_box) ==> (
                    #[trigger] cells@[i]).height == 0
                &&& options.never_overshoots() ==> forall|i: int|
                    0 <= i < cells@.len() ==> (#[trigger] cells@[i]).height
                        <= options.max_height
                &&& forall|k: int|
                    0 <= k < seeds@.len() ==> cells@[(#[trigger] seeds@[k]) as int].height
                        >= options.max_height
                &&& options.never_overshoots() ==> forall|k: int|
                    0 <= k < seeds@.len() ==> cells@[(#[trigger] seeds@[k]) as int].height
                        == options.max_height
            },
            Err(e) => e == VoronoiError::PropagationStalled,
        },
{
    let n = diagram.cells.len();
    let mut heights: Vec<u64> = Vec::new();
    let mut i: usize = 0;
    while i < n
        invariant
            0 <= i <= n,
            heights@.len() == i,
            forall|j: int| 0 <= j < i ==> (#[trigger] heights@[j]) == 0,
        decreases n - i,
    {
        heights.push(0);
        i += 1;
    }
    let mut assigned = false_flags(n);
    let mut used_count: usize = 0;
    let mut queue: VecDeque<usize> = VecDeque::new();
    let mut current_height: u64 = options.max_height;
    proof {
        assert(count_true(assigned@) == 0) by {
            lemma_count_all_false(assigned@);
        }
        lemma_distinct_bounded_len(seeds@, n as int);
    }
    let mut k: usize = 0;
    while k < seeds.len()
        invariant
            0 <= k <= seeds@.len(),
            seeds@.len() <= n,
            diagram.wf(),
            n == diagram.cells@.len(),
            distinct_indices(seeds@),
            forall|k2: int|
                0 <= k2 < seeds@.len() ==> (#[trigger] seeds@[k2]) < n && cell_in_box_spec(
                    *diagram,
                    seeds@[k2] as int,
                    *land_box,
                ),
            heights@.len() == n,
            assigned@.len() == n,
            used_count == count_true(assigned@),
            used_count == k,
            forall|j: int| 0 <= j < n ==> ((#[trigger] assigned@[j]) <==> seeds@.take(
                k as int,
            ).contains(j as usize)),
            forall|j: int|
                0 <= j < n && !assigned@[j] ==> (#[trigger] heights@[j]) == 0,
            forall|k2: int|
                0 <= k2 < k ==> heights@[(#[trigger] seeds@[k2]) as int] == options.max_height,
            forall|q: int| 0 <= q < queue@.len() ==> (#[trigger] queue@[q]) < n,
        decreases seeds@.len() - k,
    {
        let s = seeds[k];
        let ghost old_assigned = assigned@;
        proof {
            assert(!seeds@.take(k as int).contains(s)) by {
                if seeds@.take(k as int).contains(s) {
                    let t = seeds@.take(k as int);
                    let b = choose|b: int| 0 <= b < t.len() && t[b] == s;
                    assert(seeds@[b] == seeds@[k as int]);
                }
            }
            assert(!assigned@[s as int]);
            lemma_count_true_update(assigned@, s as int);
        }
        assigned.set(s, true);
        heights.set(s, options.max_height);
        used_count += 1;
        let neighbors = &diagram.cells[s].neighbors;
        let mut t: usize = 0;
        while t < neighbors.len()
            invariant
                0 <= t <= neighbors@.len(),
                diagram.wf(),
                n == diagram.cells@.len(),
                0 <= s < n,
                *neighbors == diagram.cells@[s as int].neighbors,
                forall|q: int| 0 <= q < queue@.len() ==> (#[trigger] queue@[q]) < n,
            decreases neighbors@.len() - t,
        {
            queue.push_back(neighbors[t]);
            t += 1;
        }
        proof {
            let tk1 = seeds@.take(k + 1);
            let tk0 = seeds@.take(k as int);
            assert forall|j: int| 0 <= j < n implies ((#[trigger] assigned@[j]) <==> tk1.contains(
                j as usize,
            )) by {
                if j == s {
                    assert(tk1[k as int] == s);
                    assert(tk1.contains(s));
                } else {
                    if tk1.contains(j as usize) {
                        let b = choose|b: int| 0 <= b < tk1.len() && tk1[b] == j as usize;
                        if b < k {
                            assert(tk0[b] == j as usize);
                            assert(tk0.contains(j as usize));
                        }
                    }
                    if tk0.contains(j as usize) {
                        let b = choose|b: int| 0 <= b < tk0.len() && tk0[b] == j as usize;
                        assert(tk1[b] == j as usize);
                        assert(tk1.contains(j as usize));
                    }
                }
            }
        }
        k += 1;
    }
    proof {
        assert(seeds@.take(seeds@.len() as int) =~= seeds@);
    }
    let mut budget: u64 = PROPAGATION_STEP_LIMIT;
    while queue.len() > 0 && budget > 0
        invariant
            diagram.wf(),
            options.wf(),
            land_box.wf(),
            n == diagram.cells@.len(),
            distinct_indices(seeds@),
            forall|k2: int|
                0 <= k2 < seeds@.len() ==> (#[trigger] seeds@[k2]) < n && cell_in_box_spec(
                    *diagram,
                    seeds@[k2] as int,
                    *land_box,
                ),
            heights@.len() == n,
            assigned@.len() == n,
            used_count == count_true(assigned@),
            current_height <= options.max_height,
            forall|j: int|
                0 <= j < n && !assigned@[j] ==> (#[trigger] heights@[j]) == 0,
            forall|j: int|
                0 <= j < n && !cell_in_box_spec(*diagram, j, *land_box) ==> (
                #[trigger] heights@[j]) == 0,
            forall|k2: int|
                0 <= k2 < seeds@.len() ==> assigned@[(#[trigger] seeds@[k2]) as int],
            forall|k2: int|
                0 <= k2 < seeds@.len() ==> heights@[(#[trigger] seeds@[k2]) as int]
                    >= options.max_height,
            options.never_overshoots() ==> forall|k2: int|
                0 <= k2 < seeds@.len() ==> heights@[(#[trigger] seeds@[k2]) as int]
                    == options.max_height,
            options.never_overshoots() ==> forall|j: int|
                0 <= j < n ==> (#[trigger] heights@[j]) <= options.max_height,
            forall|q: int| 0 <= q < queue@.len() ==> (#[trigger] queue@[q]) < n,
            budget <= PROPAGATION_STEP_LIMIT,
        decreases budget,
    {
        let ci = match queue.pop_front() {
            Some(c) => c,
            None => {
                return Err(VoronoiError::PropagationStalled);
            },
        };
        budget = budget - 1;
        let in_water = !is_cell_in_box(diagram, ci, land_box);
        let ghost pre_height = current_height;
        if !in_water {
            proof {
                assert(current_height * options.height_step <= current_height * 1000)
                    by (nonlinear_arith)
                    requires
                        options.height_step <= 1000,
                        0 <= current_height,
                ;
                lemma_div_is_ordered(
                    current_height * options.height_step as int,
                    current_height * 1000,
                    1000,
                );
                lemma_div_multiples_vanish(current_height as int, 1000);
                assert(current_height * 1000 == 1000 * current_height) by (nonlinear_arith);
            }
            current_height = current_height * options.height_step / 1000;
        }
        let factor: u64 = if in_water {
            0
        } else {
            match options.variance {
                None => 1000,
                Some(v) => {
                    let draw = rng_below_mcg(rng, (v + 1) as usize);
                    1100 - v + draw as u64
                },
            }
        };
        proof {
            assert(current_height * factor <= 1_000_000_000_000 * 1100) by (nonlinear_arith)
                requires
                    0 <= current_height <= 1_000_000_000_000,
                    0 <= factor <= 1100,
            ;
        }
        let new_height: u64 = current_height * factor / 1000;
        proof {
            if in_water {
                assert(new_height == 0) by {
                    assert(current_height * 0 == 0) by (nonlinear_arith);
                }
            }
            if options.never_overshoots() {
                lemma_new_height_bounded(
                    pre_height as int,
                    current_height as int,
                    options.height_step as int,
                    factor as int,
                    new_height as int,
                    options.max_height as int,
                    in_water,
                    options.variance is Some,
                );
            }
            lemma_count_true_bound(assigned@);
            if used_count >= n {
                lemma_count_true_full(assigned@);
                assert(assigned@[ci as int]);
            }
        }
        let ghost old_heights = heights@;
        let ghost old_assigned = assigned@;
        if used_count < n {
            record_height(&mut heights, &mut assigned, &mut used_count, ci, new_height);
        } else {
            record_height_full(&mut heights, &mut assigned, ci, new_height);
        }
        proof {
            assert forall|j: int|
                0 <= j < n && !cell_in_box_spec(*diagram, j, *land_box) implies (
            #[trigger] heights@[j]) == 0 by {
                if j == ci {
                    assert(in_water);
                    assert(new_height == 0);
                    assert(old_heights[j] == 0);
                }
            }
            assert forall|k2: int| 0 <= k2 < seeds@.len() implies heights@[(
            #[trigger] seeds@[k2]) as int] >= options.max_height by {
                let sj = seeds@[k2] as int;
                if sj != ci {
                    assert(heights@[sj] == old_heights[sj]);
                } else {
                    assert(old_assigned[sj]);
                    assert(heights@[sj] >= old_heights[sj]);
                }
            }
            if options.never_overshoots() {
                assert forall|j: int| 0 <= j < n implies (#[trigger] heights@[j])
                    <= options.max_height by {
                    if j != ci {
                        assert(heights@[j] == old_heights[j]);
                    }
                }
                assert forall|k2: int| 0 <= k2 < seeds@.len() implies heights@[(
                #[trigger] seeds@[k2]) as int] == options.max_height by {
                    let sj = seeds@[k2] as int;
                    if sj != ci {
                        assert(heights@[sj] == old_heights[sj]);
                    } else {
                        assert(old_assigned[sj]);
                        assert(old_heights[sj] == options.max_height);
                    }
                }
            }
            assert forall|k2: int| 0 <= k2 < seeds@.len() implies assigned@[(
            #[trigger] seeds@[k2]) as int] by {
                let sj = seeds@[k2] as int;
                assert(old_assigned[sj]);
            }
            assert forall|j: int| 0 <= j < n && !assigned@[j] implies (#[trigger] heights@[j])
                == 0 by {
                if j != ci {
                    assert(heights@[j] == old_heights[j] && assigned@[j] == old_assigned[j]);
                }
            }
        }
        let neighbors = &diagram.cells[ci].neighbors;
        let mut t: usize = 0;
        while t < neighbors.len()
            invariant
                0 <= t <= neighbors@.len(),
                diagram.wf(),
                n == diagram.cells@.len(),
                0 <= ci < n,
                assigned@.len() == n,
                *neighbors == diagram.cells@[ci as int].neighbors,
                forall|q: int| 0 <= q < queue@.len() ==> (#[trigger] queue@[q]) < n,
            decreases neighbors@.len() - t,
        {
            let nb = neighbors[t];
            if !assigned[nb] {
                queue.push_back(nb);
            }
            t += 1;
        }
    }
    if used_count < n {
        return Err(VoronoiError::PropagationStalled);
    }
    let mut cells: Vec<MapCell> = Vec::new();
    let mut i: usize = 0;
    while i < n
        invariant
            0 <= i <= n,
            n == diagram.cells@.len(),
            heights@.len() == n,
            cells@.len() == i,
            forall|j: int| 0 <= j < i ==> (#[trigger] cells@[j]) == (MapCell {
                cell_index: j as usize,
                height: heights@[j],
            }),
        decreases n - i,
    {
        cells.push(MapCell::new(i, heights[i]));
        i += 1;
    }
    Ok(cells)
}

/// The listed cells are distinct, lie entirely inside the land box, and all
/// carry exactly the given height in the heightmap: the shape of a seed set
/// after a propagation that can never overshoot.
pub open spec fn seeds_at_max(
    d: Diagram,
    lb: BoundingBox,
    cells: Seq<MapCell>,
    s: Seq<usize>,
    height: u64,
) -> bool {
    &&& distinct_indices(s)
    &&& forall|k: int|
        0 <= k < s.len() ==> (#[trigger] s[k]) < d.cells.len() && cell_in_box_spec(
            d,
            s[k] as int,
            lb,
        ) && cells[s[k] as int].height == height
}

/// Builds the heightmap for a diagram: draws `initial_sites` seed cells by
/// weighted sampling — weight one inside the land box, zero outside — and
/// propagates heights outward from them.
///
/// When the options can never overshoot, the result visibly carries its
/// seeds: some `min(initial_sites, number of eligible cells)` distinct cells
/// inside the land box end at exactly `max_height`.
///
/// Fails with `DiagramChooseError` exactly when no cell lies entirely inside
/// the land box, and with `PropagationStalled` when the frontier could not
/// reach every site.
pub fn diagram_to_heightmap(
    diagram: &Diagram,
    rng: &mut rand_pcg::Pcg64Mcg,
    options: HeightMapOptions,
) -> (r: Result<Vec<MapCell>, VoronoiError>)
    requires
        diagram.wf(),
        options.wf(),
    ensures
        match r {
            Ok(cells) => {
                let lb = land_box_spec(diagram.bounding_box, options.keep_percent);
                &&& has_eligible_cell(*diagram, lb)
                &&& cells@.len() == diagram.cells@.len()
                &&& forall|i: int|
                    0 <= i < cells@.len() ==> (#[trigger] cells@[i]).cell_index == i
                &&& forall|i: int|
                    0 <= i < cells@.len() && !cell_in_box_spec(*diagram, i, lb) ==> (
                    #[trigger] cells@[i]).height == 0
                &&& options.never_overshoots() ==> forall|i: int|
                    0 <= i < cells@.len() ==> (#[trigger] cells@[i]).height
                        <= options.max_height
                &&& options.never_overshoots() ==> exists|s: Seq<usize>|
                    #[trigger] seeds_at_max(*diagram, lb, cells@, s, options.max_height)
                        && s.len() == vstd::math::min(
                        options.initial_sites as int,
                        eligible_set(*diagram, lb).len() as int,
                    )
            },
            Err(e) => {
                &&& e != VoronoiError::DiagramCreationError
                &&& (e == VoronoiError::DiagramChooseError <==> !has_eligible_cell(
                    *diagram,
                    land_box_spec(diagram.bounding_box, options.keep_percent),
                ))
            },
        },
{
    let lb = land_box(&diagram.bounding_box, options.keep_percent);
    let eligible = eligible_cells(diagram, &lb);
    let ghost eview = eligible@;
    if eligible.len() == 0 {
        return Err(VoronoiError::DiagramChooseError);
    }
    proof {
        assert(cell_in_box_spec(*diagram, eview[0] as int, lb));
    }
    let amount = if options.initial_sites < eligible.len() {
        options.initial_sites
    } else {
        eligible.len()
    };
    let mut draws: Vec<usize> = Vec::new();
    let mut j: usize = 0;
    while j < amount
        invariant
            0 <= j <= amount,
            amount <= eview.len(),
            eview.len() == eligible@.len(),
            draws@.len() == j,
            forall|j2: int| 0 <= j2 < draws@.len() ==> (#[trigger] draws@[j2]) < eview.len() - j2,
        decreases amount - j,
    {
        let d = rng_below_mcg(rng, eligible.len() - j);
        draws.push(d);
        j += 1;
    }
    let seeds = choose_seeds(eligible, &draws);
    proof {
        assert forall|k: int| 0 <= k < seeds@.len() implies (#[trigger] seeds@[k])
            < diagram.cells@.len() && cell_in_box_spec(*diagram, seeds@[k] as int, lb) by {
            assert(eview.contains(seeds@[k]));
            let b = choose|b: int| 0 <= b < eview.len() && eview[b] == seeds@[k];
            assert(eview[b] < diagram.cells@.len());
        }
    }
    let result = propagate_heights(diagram, &lb, &seeds, rng, &options);
    proof {
        if result is Ok && options.never_overshoots() {
            let cellsv = result->Ok_0;
            assert(seeds_at_max(*diagram, lb, cellsv@, seeds@, options.max_height));
            assert(seeds@.len() == vstd::math::min(
                options.initial_sites as int,
                eligible_set(*diagram, lb).len() as int,
            ));
        }
    }
    result
}

/// A cleared flag sequence counts zero.
proof fn lemma_count_all_false(s: Seq<bool>)
    requires
        forall|i: int| 0 <= i < s.len() ==> !s[i],
    ensures
        count_true(s) == 0,
    decreases s.len(),
{
    if s.len() > 0 {
        lemma_count_all_false(s.drop_last());
    }
}

/// One propagation step never pushes a height above the maximum: water damps
/// to zero, a bare step keeps the decayed height, and a variance factor of
/// at most 1100 thousandths is outweighed by a step of at most 1000000/1100.
proof fn lemma_new_height_bounded(
    pre: int,
    cur: int,
    step: int,
    factor: int,
    new: int,
    max: int,
    in_water: bool,
    has_variance: bool,
)
    requires
        0 <= pre <= max,
        0 <= step <= 1000,
        in_water ==> factor == 0 && cur == pre,
        !in_water ==> cur == pre * step / 1000 && 0 <= factor <= 1100,
        !in_water && !has_variance ==> factor == 1000,
        has_variance ==> step * 1100 <= 1_000_000,
        new == cur * factor / 1000,
    ensures
        new <= max,
{
    if in_water {
        assert(cur * 0 == 0) by (nonlinear_arith);
        assert(new == 0);
    } else {
        assert(0 <= pre * step) by (nonlinear_arith)
            requires
                0 <= pre,
                0 <= step,
        ;
        lemma_remainder_lower(pre * step, 1000);
        lemma_div_pos_is_pos(pre * step, 1000);
        // cur * 1000 <= pre * step
        if has_variance {
            assert(cur * factor <= 1000 * max) by (nonlinear_arith)
                requires
                    (pre * step / 1000) * 1000 <= pre * step,
                    cur == pre * step / 1000,
                    0 <= cur,
                    0 <= factor <= 1100,
                    step * 1100 <= 1_000_000,
                    0 <= pre <= max,
                    0 <= step,
            ;
            lemma_multiply_divide_le(cur * factor, 1000, max);
        } else {
            // factor == 1000: the new height is exactly the decayed height
            lemma_div_multiples_vanish(cur, 1000);
            assert(cur * 1000 == 1000 * cur) by (nonlinear_arith);
            assert(new == cur);
            assert(pre * step <= pre * 1000) by (nonlinear_arith)
                requires
                    0 <= pre,
                    step <= 1000,
            ;
            lemma_div_is_ordered(pre * step, pre * 1000, 1000);
            lemma_div_multiples_vanish(pre, 1000);
            assert(pre * 1000 == 1000 * pre) by (nonlinear_arith);
        }
    }
}

/// `record_height` for the steady state in which every cell is assigned:
/// only the monotonic-max update remains.
fn record_height_full(heights: &mut Vec<u64>, assigned: &mut Vec<bool>, idx: usize, new_height: u64)
    requires
        idx < old(heights)@.len(),
        old(assigned)@.len() == old(heights)@.len(),
        old(assigned)@[idx as int],
    ensures
        final(heights)@.len() == old(heights)@.len(),
        final(assigned)@ == old(assigned)@,
        final(heights)@[idx as int] == if old(heights)@[idx as int] >= new_height {
            old(heights)@[idx as int]
        } else {
            new_height
        },
        final(heights)@[idx as int] >= old(heights)@[idx as int],
        forall|i: int|
            0 <= i < old(heights)@.len() && i != idx ==> final(heights)@[i] == old(heights)@[i],
{
    if heights[idx] < new_height {
        heights.set(idx, new_height);
    }
}

} // verus!
