//! Weighted seed selection over a diagram.
//!
//! Cells lying entirely inside the land box carry selection weight one and
//! all other cells weight zero, so drawing seeds amounts to a uniform draw
//! without replacement from the interior cells.  The candidate list and the
//! draw are verified; the underlying random indices come from the trusted
//! generator wrappers.

use vstd::prelude::*;
use crate::diagram::{BoundingBox, Diagram};
use crate::math_helpers::{cell_in_box_spec, is_cell_in_box};

verus! {

/// Some cell of the diagram lies entirely inside the box.
pub open spec fn has_eligible_cell(d: Diagram, b: BoundingBox) -> bool {
    exists|i: int| 0 <= i < d.cells.len() && cell_in_box_spec(d, i, b)
}

/// The cells of the diagram lying entirely inside the box: exactly the cells
/// of positive selection weight.
pub open spec fn eligible_set(d: Diagram, b: BoundingBox) -> Set<int> {
    Set::new(|i: int| 0 <= i < d.cells.len() && cell_in_box_spec(d, i, b))
}

/// A sequence of indices holds no index twice.
pub open spec fn distinct_indices(s: Seq<usize>) -> bool {
    forall|k1: int, k2: int| 0 <= k1 < k2 < s.len() ==> s[k1] != s[k2]
}

/// A fresh copy of an index list.
pub(crate) fn copy_indices(v: &Vec<usize>) -> (r: Vec<usize>)
    ensures
        r@ == v@,
{
    let mut r: Vec<usize> = Vec::new();
    let mut i: usize = 0;
    while i < v.len()
        invariant
            0 <= i <= v@.len(),
            r@ == v@.take(i as int),
        decreases v@.len() - i,
    {
        r.push(v[i]);
        proof {
            assert(r@ =~= v@.take(i + 1));
        }
        i += 1;
    }
    proof {
        assert(r@ =~= v@);
    }
    r
}

/// A vector of `n` cleared flags.
pub(crate) fn false_flags(n: usize) -> (v: Vec<bool>)
    ensures
        v@.len() == n,
        forall|k: int| 0 <= k < n ==> !(#[trigger] v@[k]),
{
    let mut v: Vec<bool> = Vec::new();
    let mut i: usize = 0;
    while i < n
        invariant
            0 <= i <= n,
            v@.len() == i,
            forall|k: int| 0 <= k < i ==> !(#[trigger] v@[k]),
        decreases n - i,
    {
        v.push(false);
        i += 1;
    }
    v
}

/// A sequence of distinct indices below `n` holds at most `n` elements.
pub proof fn lemma_distinct_bounded_len(s: Seq<usize>, n: int)
    requires
        distinct_indices(s),
        forall|k: int| 0 <= k < s.len() ==> (#[trigger] s[k]) < n,
        0 <= n,
    ensures
        s.len() <= n,
{
    let t = s.map_values(|x: usize| x as int);
    assert(t.no_duplicates());
    t.unique_seq_to_set();
    assert(t.to_set().subset_of(vstd::set_lib::set_int_range(0, n))) by {
        assert forall|x: int| t.to_set().contains(x) implies vstd::set_lib::set_int_range(
            0,
            n,
        ).contains(x) by {
            let k = choose|k: int| 0 <= k < t.len() && t[k] == x;
            assert(s[k] < n);
        }
    }
    vstd::set_lib::lemma_int_range(0, n);
    vstd::set_lib::lemma_len_subset(t.to_set(), vstd::set_lib::set_int_range(0, n));
}

/// The indices of all cells lying entirely inside the box, in increasing
/// order: exactly the cells of positive selection weight.
pub fn eligible_cells(diagram: &Diagram, bounding_box: &BoundingBox) -> (e: Vec<usize>)
    requires
        diagram.wf(),
        bounding_box.wf(),
    ensures
        forall|k: int|
            0 <= k < e@.len() ==> (#[trigger] e@[k]) < diagram.cells@.len() && cell_in_box_spec(
                *diagram,
                e@[k] as int,
                *bounding_box,
            ),
        forall|k1: int, k2: int| 0 <= k1 < k2 < e@.len() ==> e@[k1] < e@[k2],
        forall|i: int|
            0 <= i < diagram.cells@.len() && cell_in_box_spec(*diagram, i, *bounding_box)
                ==> e@.contains(i as usize),
        e@.len() <= diagram.cells@.len(),
        e@.len() > 0 <==> has_eligible_cell(*diagram, *bounding_box),
        e@.len() == eligible_set(*diagram, *bounding_box).len(),
{
    let n = diagram.cells.len();
    let mut e: Vec<usize> = Vec::new();
    let mut i: usize = 0;
    while i < n
        invariant
            0 <= i <= n,
            n == diagram.cells@.len(),
            diagram.wf(),
            bounding_box.wf(),
            e@.len() <= i,
            forall|k: int|
                0 <= k < e@.len() ==> (#[trigger] e@[k]) < i && cell_in_box_spec(
                    *diagram,
                    e@[k] as int,
                    *bounding_box,
                ),
            forall|k1: int, k2: int| 0 <= k1 < k2 < e@.len() ==> e@[k1] < e@[k2],
            forall|j: int|
                0 <= j < i && cell_in_box_spec(*diagram, j, *bounding_box) ==> e@.contains(
                    j as usize,
                ),
        decreases n - i,
    {
        if is_cell_in_box(diagram, i, bounding_box) {
            let ghost old_e = e@;
            e.push(i);
            proof {
                assert forall|j: int|
                    0 <= j < i + 1 && cell_in_box_spec(*diagram, j, *bounding_box) implies e@
                    .contains(j as usize) by {
                    if j < i {
                        let b = choose|b: int| 0 <= b < old_e.len() && old_e[b] == j as usize;
                        assert(e@[b] == j as usize);
                    } else {
                        assert(e@[e@.len() - 1] == i as usize);
                    }
                }
            }
        }
        i += 1;
    }
    proof {
        if e@.len() > 0 {
            assert(cell_in_box_spec(*diagram, e@[0] as int, *bounding_box));
        }
        let t = e@.map_values(|x: usize| x as int);
        assert forall|k1: int, k2: int|
            0 <= k1 < t.len() && 0 <= k2 < t.len() && k1 != k2 implies t[k1] != t[k2] by {
            if k1 < k2 {
                assert(e@[k1] < e@[k2]);
            } else {
                assert(e@[k2] < e@[k1]);
            }
        }
        t.unique_seq_to_set();
        assert(t.to_set() =~= eligible_set(*diagram, *bounding_box)) by {
            assert forall|x: int| t.to_set().contains(x) implies eligible_set(
                *diagram,
                *bounding_box,
            ).contains(x) by {
                let b = choose|b: int| 0 <= b < t.len() && t[b] == x;
                assert(e@[b] < diagram.cells@.len() && cell_in_box_spec(
                    *diagram,
                    e@[b] as int,
                    *bounding_box,
                ));
            }
            assert forall|x: int|
                eligible_set(*diagram, *bounding_box).contains(x) implies t.to_set().contains(
                x,
            ) by {
                assert(e@.contains(x as usize));
                let b = choose|b: int| 0 <= b < e@.len() && e@[b] == x as usize;
                assert(t[b] == x);
                assert(t.contains(x));
            }
        }
    }
    e
}

/// Draws distinct elements from `pool`: the j-th draw takes the element at
/// position `draws[j]` of what remains, the last remaining element moving
/// into the vacated slot.  With uniform draws this is a uniform selection
/// without replacement.
pub fn choose_seeds(pool: Vec<usize>, draws: &Vec<usize>) -> (seeds: Vec<usize>)
    requires
        distinct_indices(pool@),
        draws@.len() <= pool@.len(),
        forall|j: int| 0 <= j < draws@.len() ==> (#[trigger] draws@[j]) < pool@.len() - j,
    ensures
        seeds@.len() == draws@.len(),
        distinct_indices(seeds@),
        forall|k: int| 0 <= k < seeds@.len() ==> pool@.contains(#[trigger] seeds@[k]),
{
    let ghost pool0 = pool@;
    let mut rem = pool;
    let mut seeds: Vec<usize> = Vec::new();
    let mut j: usize = 0;
    while j < draws.len()
        invariant
            0 <= j <= draws@.len(),
            draws@.len() <= pool0.len(),
            forall|j2: int| 0 <= j2 < draws@.len() ==> (#[trigger] draws@[j2]) < pool0.len() - j2,
            rem@.len() == pool0.len() - j,
            seeds@.len() == j,
            distinct_indices(rem@),
            distinct_indices(seeds@),
            forall|a: int| 0 <= a < rem@.len() ==> pool0.contains(#[trigger] rem@[a]),
            forall|a: int|
                0 <= a < seeds@.len() ==> pool0.contains(#[trigger] seeds@[a]) && !rem@.contains(
                    seeds@[a],
                ),
        decreases draws@.len() - j,
    {
        let idx = draws[j];
        let ghost old_rem = rem@;
        let s = rem.swap_remove(idx);
        proof {
            assert(old_rem[idx as int] == s);
            assert(pool0.contains(s));
            assert forall|a: int| 0 <= a < rem@.len() implies pool0.contains(#[trigger] rem@[a])
                && rem@[a] != s by {
                if a == idx {
                    assert(rem@[a] == old_rem[old_rem.len() - 1]);
                    assert(pool0.contains(old_rem[old_rem.len() - 1]));
                } else {
                    assert(rem@[a] == old_rem[a]);
                    assert(pool0.contains(old_rem[a]));
                }
            }
            assert(!rem@.contains(s));
            assert forall|a: int| 0 <= a < seeds@.len() implies !rem@.contains(
                #[trigger] seeds@[a],
            ) by {
                if rem@.contains(seeds@[a]) {
                    let b = choose|b: int| 0 <= b < rem@.len() && rem@[b] == seeds@[a];
                    if b == idx {
                        assert(old_rem.contains(old_rem[old_rem.len() - 1]));
                    } else {
                        assert(old_rem.contains(old_rem[b]));
                    }
                }
            }
            assert(seeds@.len() == 0 || !seeds@.contains(s)) by {
                if seeds@.contains(s) {
                    let a = choose|a: int| 0 <= a < seeds@.len() && seeds@[a] == s;
                    assert(old_rem.contains(s));
                }
            }
        }
        seeds.push(s);
        j += 1;
    }
    seeds
}

} // verus!
