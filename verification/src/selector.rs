//! The structure-aware selection driver. Starting from a seed point, it
//! absorbs every point sharing the seed's structure id, then repeatedly picks
//! the farthest point of the largest cell (earliest cell wins ties), absorbs
//! that point's whole structure, and records the squared radius observed at
//! every individual addition, until the requested number of distinct
//! structures has been selected.

use vstd::prelude::*;
use crate::cloud::PointCloud;
use crate::decomposer::{seed_cell_stats, VoronoiDecomposer};
use crate::metric::{dist_sq, lemma_dist_sq_self_zero};
use vstd::set_lib::lemma_len_subset;

verus! {

broadcast use vstd::seq_lib::seq_to_set_is_finite, vstd::set::group_set_axioms;

/// Why a selection run was refused.
#[derive(Clone, Copy, Debug, PartialEq, Eq, Structural)]
pub enum SelectError {
    /// The structure-id vector and the point matrix have different lengths.
    MismatchedLengths,
    /// The seed index does not name a point.
    SeedOutOfRange,
    /// Zero structures were requested; the count must be positive.
    ZeroStructuresRequested,
    /// More structures were requested than distinct ids exist.
    NotEnoughStructures,
    /// The farthest point of the largest cell is already a center, which can
    /// only happen when two distinct points coincide.
    CenterReselected,
}

/// The outcome of a completed selection run.
pub struct Selection {
    /// Structure ids in selection order; the first is the seed's structure.
    pub selected: Vec<u32>,
    /// Squared radius recorded at the moment each point was added, one entry
    /// per point-level addition, in order.
    pub radii: Vec<i64>,
    /// The decomposer's final state: its centers are exactly the points of
    /// the selected structures, each added once.
    pub voronoi: VoronoiDecomposer,
}

/// Number of distinct structure ids occurring in `ids`.
pub open spec fn distinct_ids(ids: Seq<u32>) -> int {
    ids.to_set().len() as int
}

/// Position of the maximal value and the value itself; on exact ties the
/// earliest position wins, so repeated runs pick the same cell.
pub fn find_max(values: &Vec<i64>) -> (out: (usize, i64))
    requires
        values@.len() > 0,
    ensures
        (out.0 as int) < values@.len(),
        values@[out.0 as int] == out.1,
        forall|i: int| 0 <= i < values@.len() ==> #[trigger] values@[i] <= out.1,
        forall|i: int| 0 <= i < out.0 as int ==> #[trigger] values@[i] < out.1,
{
    let mut best_i: usize = 0;
    let mut best_v: i64 = values[0];
    let mut i: usize = 1;
    while i < values.len()
        invariant
            0 < i <= values@.len(),
            (best_i as int) < i as int,
            values@[best_i as int] == best_v,
            forall|j: int| 0 <= j < i as int ==> #[trigger] values@[j] <= best_v,
            forall|j: int| 0 <= j < best_i as int ==> #[trigger] values@[j] < best_v,
        decreases values@.len() - i,
    {
        if values[i] > best_v {
            best_i = i;
            best_v = values[i];
        }
        i += 1;
    }
    (best_i, best_v)
}

/// Number of distinct values in `ids`, by counting first occurrences.
pub fn count_distinct(ids: &Vec<u32>) -> (d: usize)
    ensures
        d as int == distinct_ids(ids@),
{
    let n = ids.len();
    let mut d: usize = 0;
    let mut i: usize = 0;
    assert(ids@.subrange(0, 0) =~= Seq::<u32>::empty());
    assert(ids@.subrange(0, 0).to_set() =~= Set::<u32>::empty());
    while i < n
        invariant
            i <= n,
            n as int == ids@.len(),
            d as int == ids@.subrange(0, i as int).to_set().len(),
            d <= i,
        decreases n - i,
    {
        let x = ids[i];
        let mut seen = false;
        let mut j: usize = 0;
        while j < i
            invariant
                j <= i,
                i < n,
                n as int == ids@.len(),
                x == ids@[i as int],
                seen <==> exists|k: int| 0 <= k < j as int && ids@[k] == x,
            decreases i - j,
        {
            if ids[j] == x {
                seen = true;
            }
            j += 1;
        }
        proof {
            let s0 = ids@.subrange(0, i as int);
            let s1 = ids@.subrange(0, i as int + 1);
            assert(s1 =~= s0.push(x));
            assert(s1.to_set() =~= s0.to_set().insert(x)) by {
                assert forall|y: u32| s1.contains(y) implies s0.contains(y) || y == x by {
                    let k = choose|k: int| 0 <= k < s1.len() && s1[k] == y;
                    if k < i as int {
                        assert(s0[k] == y);
                    }
                }
                assert forall|y: u32| s0.contains(y) implies s1.contains(y) by {
                    let k = choose|k: int| 0 <= k < s0.len() && s0[k] == y;
                    assert(s1[k] == y);
                }
                assert(s1[i as int] == x);
                assert(s1.contains(x));
            }
            if seen {
                let k = choose|k: int| 0 <= k < i as int && ids@[k] == x;
                assert(s0[k] == x);
                assert(s0.contains(x));
                assert(s0.to_set().contains(x));
                assert(s0.to_set().insert(x) =~= s0.to_set());
            } else {
                assert(!s0.to_set().contains(x)) by {
                    if s0.contains(x) {
                        let k = choose|k: int| 0 <= k < s0.len() && s0[k] == x;
                        assert(ids@[k] == x);
                    }
                }
            }
        }
        if !seen {
            d += 1;
        }
        i += 1;
    }
    proof {
        assert(ids@.subrange(0, n as int) =~= ids@);
    }
    d
}

/// Adds every not-yet-selected point carrying structure id `sid` (other than
/// `first`, which is already a center), in point-index order, recording the
/// newest cell's squared radius after each addition.
fn absorb_structure(
    voronoi: &mut VoronoiDecomposer,
    radii: &mut Vec<i64>,
    structures: &Vec<u32>,
    sid: u32,
    first: usize,
)
    requires
        old(voronoi).wf(),
        structures@.len() == old(voronoi).n(),
        (first as int) < old(voronoi).n(),
        structures@[first as int] == sid,
        old(voronoi).is_center(first as int),
        forall|p: int|
            0 <= p < structures@.len() && structures@[p] == sid && p != first as int ==> !old(
                voronoi,
            ).is_center(p),
        old(radii)@.len() == old(voronoi).m(),
    ensures
        final(voronoi).wf(),
        final(voronoi).cloud == old(voronoi).cloud,
        final(radii)@.len() == final(voronoi).m(),
        final(radii)@.len() >= old(radii)@.len(),
        forall|k: int|
            0 <= k < old(radii)@.len() ==> #[trigger] final(radii)@[k] == old(radii)@[k],
        forall|p: int|
            0 <= p < structures@.len() ==> (#[trigger] final(voronoi).is_center(p) <==> (old(
                voronoi,
            ).is_center(p) || structures@[p] == sid)),
{
    let ghost orig = *voronoi;
    let ghost radii0 = radii@;
    let n = structures.len();
    let mut i: usize = 0;
    while i < n
        invariant
            i <= n,
            radii@.len() >= radii0.len(),
            forall|k: int| 0 <= k < radii0.len() ==> #[trigger] radii@[k] == radii0[k],
            voronoi.wf(),
            voronoi.cloud == orig.cloud,
            orig.wf(),
            n as int == structures@.len(),
            structures@.len() == voronoi.n(),
            (first as int) < n as int,
            structures@[first as int] == sid,
            radii@.len() == voronoi.m(),
            forall|p: int|
                0 <= p < structures@.len() && structures@[p] == sid && p != first as int
                    ==> !orig.is_center(p),
            forall|p: int|
                0 <= p < structures@.len() ==> (#[trigger] voronoi.is_center(p) <==> (
                orig.is_center(p) || (structures@[p] == sid && (p < i as int || p
                    == first as int)))),
        decreases n - i,
    {
        if structures[i] == sid && i != first {
            assert(!voronoi.is_center(i as int));
            voronoi.add_point(i);
            let r = voronoi.newest_radius2();
            radii.push(r);
        }
        i += 1;
    }
}

/// Selects `n_select` distinct structures by farthest-point sampling at
/// structure granularity, starting from point `seed`, and returns the
/// selected structure ids in order, the squared radius recorded at every
/// point-level addition, and the decomposer's final state. Validation errors
/// name the first violated precondition; `CenterReselected` can only arise
/// when two distinct points lie at squared distance zero.
pub fn select_structures(
    cloud: PointCloud,
    structures: &Vec<u32>,
    n_select: usize,
    seed: usize,
) -> (r: Result<Selection, SelectError>)
    requires
        cloud.wf(),
    ensures
        match r {
            Ok(sel) => {
                &&& structures@.len() == cloud@.len()
                &&& (seed as int) < cloud@.len()
                &&& 1 <= n_select as int <= distinct_ids(structures@)
                &&& sel.selected@.len() == n_select as int
                &&& sel.selected@[0] == structures@[seed as int]
                &&& forall|i: int, j: int|
                    0 <= i < j < sel.selected@.len() ==> sel.selected@[i] != sel.selected@[j]
                &&& forall|i: int|
                    0 <= i < sel.selected@.len() ==> exists|p: int|
                        0 <= p < structures@.len() && structures@[p] == #[trigger] sel.selected@[i]
                &&& sel.voronoi.wf()
                &&& sel.voronoi.cloud@ == cloud@
                &&& forall|p: int|
                    0 <= p < structures@.len() ==> (#[trigger] sel.voronoi.is_center(p)
                        <==> sel.selected@.contains(structures@[p]))
                &&& sel.radii@.len() == sel.voronoi.m()
                &&& sel.radii@.len() >= 1
                &&& exists|f: int|
                    seed_cell_stats(cloud@, seed as int, f, sel.radii@[0] as int)
            },
            Err(e) => {
                &&& (e == SelectError::MismatchedLengths <==> structures@.len() != cloud@.len())
                &&& (e == SelectError::SeedOutOfRange <==> structures@.len() == cloud@.len()
                    && cloud@.len() <= seed as int)
                &&& (e == SelectError::ZeroStructuresRequested <==> structures@.len()
                    == cloud@.len() && (seed as int) < cloud@.len() && n_select == 0)
                &&& (e == SelectError::NotEnoughStructures <==> structures@.len() == cloud@.len()
                    && (seed as int) < cloud@.len() && n_select >= 1 && n_select as int
                    > distinct_ids(structures@))
                &&& (e == SelectError::CenterReselected ==> exists|a: int, b: int|
                    0 <= a < cloud@.len() && 0 <= b < cloud@.len() && a != b && dist_sq(
                        cloud@[a],
                        cloud@[b],
                    ) == 0)
            },
        },
{
    let n = cloud.len();
    if structures.len() != n {
        return Err(SelectError::MismatchedLengths);
    }
    if seed >= n {
        return Err(SelectError::SeedOutOfRange);
    }
    if n_select == 0 {
        return Err(SelectError::ZeroStructuresRequested);
    }
    let distinct = count_distinct(structures);
    if n_select > distinct {
        return Err(SelectError::NotEnoughStructures);
    }
    let ghost cloudv = cloud@;
    let mut voronoi = VoronoiDecomposer::new(cloud, seed);
    let mut radii: Vec<i64> = Vec::new();
    radii.push(voronoi.newest_radius2());
    let ghost f0 = voronoi.farthest@[0] as int;
    let ghost r0 = radii@[0] as int;
    proof {
        assert(seed_cell_stats(cloudv, seed as int, f0, r0));
    }
    let s0 = structures[seed];
    let mut selected: Vec<u32> = Vec::new();
    selected.push(s0);
    proof {
        assert(voronoi.center_pt(0) == seed as int);
        assert(voronoi.is_center(seed as int));
        assert forall|p: int|
            0 <= p < structures@.len() && structures@[p] == s0 && p != seed as int implies
            !voronoi.is_center(p) by {
            if voronoi.is_center(p) {
                let c = choose|c: int| 0 <= c < voronoi.m() && #[trigger] voronoi.center_pt(c) == p;
                assert(c == 0);
            }
        }
    }
    absorb_structure(&mut voronoi, &mut radii, structures, s0, seed);
    proof {
        assert forall|p: int|
            0 <= p < structures@.len() implies (#[trigger] voronoi.is_center(p)
            <==> selected@.contains(structures@[p])) by {
            if structures@[p] == s0 {
                assert(selected@[0] == structures@[p]);
            }
            if selected@.contains(structures@[p]) {
                let k = choose|k: int| 0 <= k < selected@.len() && selected@[k] == structures@[p];
                assert(k == 0);
            }
            if voronoi.is_center(p) && structures@[p] != s0 {
                assert(false);
            }
        }
    }
    while selected.len() < n_select
        invariant
            voronoi.wf(),
            voronoi.cloud@ == cloudv,
            cloudv == cloud@,
            structures@.len() == voronoi.n(),
            n as int == voronoi.n(),
            seed < n,
            1 <= n_select,
            radii@.len() == voronoi.m(),
            radii@.len() >= 1,
            radii@[0] as int == r0,
            seed_cell_stats(cloudv, seed as int, f0, r0),
            1 <= selected@.len() <= n_select,
            n_select as int <= distinct_ids(structures@),
            selected@[0] == structures@[seed as int],
            forall|i: int, j: int|
                0 <= i < j < selected@.len() ==> selected@[i] != selected@[j],
            forall|i: int|
                0 <= i < selected@.len() ==> exists|p: int|
                    0 <= p < structures@.len() && structures@[p] == #[trigger] selected@[i],
            forall|p: int|
                0 <= p < structures@.len() ==> (#[trigger] voronoi.is_center(p)
                    <==> selected@.contains(structures@[p])),
        decreases n_select - selected@.len(),
    {
        let cells = voronoi.cells();
        let (cmax, radius) = find_max(&cells.radius2);
        proof {
            assert(voronoi.cell_ok(cmax as int));
        }
        let target = cells.farthest[cmax];
        if voronoi.is_center_point(target) {
            proof {
                lemma_reselect_means_duplicate(
                    voronoi,
                    cells.radius2@,
                    selected@,
                    structures@,
                    cmax as int,
                    target as int,
                );
            }
            return Err(SelectError::CenterReselected);
        }
        radii.push(radius);
        let ghost pre = voronoi;
        voronoi.add_point(target);
        let st = structures[target];
        let ghost sel0 = selected@;
        selected.push(st);
        proof {
            assert(!sel0.contains(st));
            assert(selected@ == sel0.push(st));
            assert forall|i: int, j: int|
                0 <= i < j < selected@.len() implies selected@[i] != selected@[j] by {
                if j == sel0.len() as int {
                    assert(selected@[i] == sel0[i]);
                    assert(sel0.contains(sel0[i]));
                }
            }
            assert forall|p: int|
                0 <= p < structures@.len() && structures@[p] == st && p != target as int implies
                !voronoi.is_center(p) by {
                if voronoi.is_center(p) {
                    assert(pre.is_center(p) || p == target as int);
                    assert(sel0.contains(structures@[p]));
                }
            }
            assert(voronoi.is_center(target as int));
        }
        absorb_structure(&mut voronoi, &mut radii, structures, st, target);
        proof {
            assert forall|p: int|
                0 <= p < structures@.len() implies (#[trigger] voronoi.is_center(p)
                <==> selected@.contains(structures@[p])) by {
                lemma_push_contains(sel0, st, structures@[p]);
                assert(pre.is_center(p) <==> sel0.contains(structures@[p]));
                if p == target as int {
                    assert(selected@[sel0.len() as int] == st);
                }
            }
        }
    }
    Ok(Selection { selected, radii, voronoi })
}

/// Membership in a pushed sequence is membership in the original or equality
/// with the pushed element.
proof fn lemma_push_contains(sel: Seq<u32>, s: u32, x: u32)
    ensures
        sel.push(s).contains(x) <==> (sel.contains(x) || x == s),
{
    if sel.push(s).contains(x) {
        let k = choose|k: int| 0 <= k < sel.push(s).len() && sel.push(s)[k] == x;
        if k < sel.len() as int {
            assert(sel[k] == x);
        }
    }
    if sel.contains(x) {
        let k = choose|k: int| 0 <= k < sel.len() && sel[k] == x;
        assert(sel.push(s)[k] == x);
    }
    assert(sel.push(s)[sel.len() as int] == s);
}

/// If the farthest point of the largest cell is already a center while some
/// structure remains unselected, then every cell's radius is zero, so some
/// unselected point coincides with a center: two distinct points lie at
/// squared distance zero.
proof fn lemma_reselect_means_duplicate(
    voronoi: VoronoiDecomposer,
    radius2: Seq<i64>,
    selected: Seq<u32>,
    structures: Seq<u32>,
    cmax: int,
    target: int,
)
    requires
        voronoi.wf(),
        radius2 == voronoi.radius2@,
        structures.len() == voronoi.n(),
        0 <= cmax < voronoi.m(),
        target == voronoi.farthest@[cmax] as int,
        voronoi.is_center(target),
        forall|i: int| 0 <= i < radius2.len() ==> #[trigger] radius2[i] <= radius2[cmax],
        selected.len() < distinct_ids(structures),
        forall|i: int, j: int| 0 <= i < j < selected.len() ==> selected[i] != selected[j],
        forall|i: int|
            0 <= i < selected.len() ==> exists|p: int|
                0 <= p < structures.len() && structures[p] == #[trigger] selected[i],
        forall|p: int|
            0 <= p < structures.len() ==> (#[trigger] voronoi.is_center(p) <==> selected.contains(
                structures[p],
            )),
    ensures
        exists|a: int, b: int|
            0 <= a < voronoi.cloud@.len() && 0 <= b < voronoi.cloud@.len() && a != b && dist_sq(
                voronoi.cloud@[a],
                voronoi.cloud@[b],
            ) == 0,
{
    assert(voronoi.cell_ok(cmax));
    assert(voronoi.assign_ok(target));
    assert(voronoi.center_pt(voronoi.owner(target)) == target);
    lemma_dist_sq_self_zero(voronoi.cloud@[target]);
    assert(voronoi.dist(target) == 0);
    assert(radius2[cmax] == 0);
    // some unselected structure id exists, hence some non-center point
    let sset = selected.to_set();
    let tset = structures.to_set();
    assert(selected.no_duplicates());
    selected.unique_seq_to_set();
    assert(sset.len() == selected.len());
    assert(exists|x: u32| tset.contains(x) && !sset.contains(x)) by {
        if !(exists|x: u32| tset.contains(x) && !sset.contains(x)) {
            assert forall|x: u32| tset.contains(x) implies sset.contains(x) by {}
            assert(tset.subset_of(sset));
            lemma_len_subset(tset, sset);
            assert(false);
        }
    }
    let x = choose|x: u32| tset.contains(x) && !sset.contains(x);
    assert(structures.contains(x));
    let p = choose|p: int| 0 <= p < structures.len() && structures[p] == x;
    assert(!voronoi.is_center(p));
    assert(voronoi.assign_ok(p));
    assert(voronoi.cell_ok(voronoi.owner(p)));
    assert(voronoi.dist(p) <= voronoi.radius2@[voronoi.owner(p)]);
    assert(voronoi.radius2@[voronoi.owner(p)] <= radius2[cmax]);
    assert(voronoi.dist(p) == 0);
    let q = voronoi.center_pt(voronoi.owner(p));
    assert(voronoi.is_center(q)) by {
        assert(voronoi.center_pt(voronoi.owner(p)) == q);
    }
    assert(p != q);
    assert(dist_sq(voronoi.cloud@[p], voronoi.cloud@[q]) == 0) by {
        assert(voronoi.dist(p) == voronoi.pdist(p, q));
    }
    assert(0 <= q < voronoi.cloud@.len());
}

} // verus!
