//! The incremental Voronoi decomposer. It owns the point cloud and, as
//! points are promoted to centers one at a time, maintains for every point
//! its nearest center and squared distance to it, and for every center the
//! squared radius of its cell and the farthest point in it. When a center is
//! added, a point whose squared distance to its current owner is at most a
//! quarter of the squared owner-to-new-center distance is skipped without
//! computing its distance to the new center; the triangle inequality proves
//! the skip exact, never an approximation.

use vstd::prelude::*;
use crate::cloud::{PointCloud, MAX_DIST_SQ};
use crate::metric::{dist_sq, lemma_dist_sq_nonneg, lemma_dist_sq_self_zero, lemma_prune_safe};

verus! {

/// A read-only snapshot of the per-cell statistics, indexed by selection
/// order: entry `c` describes the cell of the `c`-th center added.
pub struct CellsSnapshot {
    /// Squared radius of each cell: the largest squared distance from the
    /// center to a point assigned to it.
    pub radius2: Vec<i64>,
    /// The lowest-index point attaining each cell's radius.
    pub farthest: Vec<usize>,
}

/// Incremental nearest-center bookkeeping over a fixed point cloud.
pub struct VoronoiDecomposer {
    /// The point cloud, read-only for the decomposer's lifetime.
    pub cloud: PointCloud,
    /// Point indices of the centers, in the order they were added.
    pub centers: Vec<usize>,
    /// For every point, the center id (index into `centers`) of its owner.
    pub nearest_center: Vec<usize>,
    /// For every point, the squared distance to its owner.
    pub dist2_to_nearest: Vec<i64>,
    /// For every center, the squared radius of its cell.
    pub radius2: Vec<i64>,
    /// For every center, the lowest-index point attaining the radius.
    pub farthest: Vec<usize>,
}

impl VoronoiDecomposer {
    /// Number of points in the cloud.
    pub open spec fn n(&self) -> int {
        self.cloud@.len() as int
    }

    /// Number of centers added so far.
    pub open spec fn m(&self) -> int {
        self.centers@.len() as int
    }

    /// The point index of center `c`.
    pub open spec fn center_pt(&self, c: int) -> int {
        self.centers@[c] as int
    }

    /// Squared distance between points `p` and `q` of the cloud.
    pub open spec fn pdist(&self, p: int, q: int) -> int {
        dist_sq(self.cloud@[p], self.cloud@[q])
    }

    /// Whether point `p` has been promoted to a center.
    pub open spec fn is_center(&self, p: int) -> bool {
        exists|c: int| 0 <= c < self.m() && #[trigger] self.center_pt(c) == p
    }

    /// The center id owning point `p`.
    pub open spec fn owner(&self, p: int) -> int {
        self.nearest_center@[p] as int
    }

    /// The recorded squared distance from point `p` to its owner.
    pub open spec fn dist(&self, p: int) -> int {
        self.dist2_to_nearest@[p] as int
    }

    /// Point `p` is assigned to a nearest center; among centers at the
    /// minimal distance the earliest-added one owns `p`, except that a
    /// promoted point always owns itself. The recorded distance is exactly
    /// the minimum over all centers.
    pub open spec fn assign_ok(&self, p: int) -> bool {
        &&& 0 <= self.owner(p) < self.m()
        &&& self.dist(p) == self.pdist(p, self.center_pt(self.owner(p)))
        &&& 0 <= self.dist(p) <= MAX_DIST_SQ as int
        &&& forall|c: int|
            0 <= c < self.m() ==> self.pdist(p, #[trigger] self.center_pt(c)) >= self.dist(p)
        &&& (self.is_center(p) ==> self.center_pt(self.owner(p)) == p)
        &&& (!self.is_center(p) ==> forall|c: int|
            0 <= c < self.owner(p) ==> self.pdist(p, #[trigger] self.center_pt(c)) > self.dist(p))
    }

    /// The recorded statistics of cell `c` are exact: `farthest[c]` is the
    /// lowest-index member of the cell attaining the cell's radius, and the
    /// radius bounds every member's distance.
    pub open spec fn cell_ok(&self, c: int) -> bool {
        let f = self.farthest@[c] as int;
        let r = self.radius2@[c] as int;
        &&& 0 <= f < self.n()
        &&& self.owner(f) == c
        &&& self.dist(f) == r
        &&& forall|p: int| 0 <= p < self.n() && #[trigger] self.owner(p) == c ==> self.dist(p) <= r
        &&& forall|p: int| 0 <= p < f && #[trigger] self.owner(p) == c ==> self.dist(p) < r
    }

    /// Well-formedness: the cloud is valid, centers are distinct in-range
    /// points, and every per-point assignment and per-cell statistic is
    /// exactly characterized. The characterization mentions only the cloud
    /// and the center sequence, so the whole state is a function of those
    /// two, whatever pruning happened along the way.
    pub open spec fn wf(&self) -> bool {
        &&& self.cloud.wf()
        &&& 1 <= self.m()
        &&& self.nearest_center@.len() == self.n()
        &&& self.dist2_to_nearest@.len() == self.n()
        &&& self.radius2@.len() == self.m()
        &&& self.farthest@.len() == self.m()
        &&& forall|c: int| 0 <= c < self.m() ==> 0 <= #[trigger] self.center_pt(c) < self.n()
        &&& forall|c1: int, c2: int|
            0 <= c1 < c2 < self.m() ==> #[trigger] self.center_pt(c1) != #[trigger] self.center_pt(
                c2,
            )
        &&& forall|p: int| 0 <= p < self.n() ==> #[trigger] self.assign_ok(p)
        &&& forall|c: int| 0 <= c < self.m() ==> #[trigger] self.cell_ok(c)
    }

    /// Creates a decomposer with `initial` as its only center: every point
    /// is assigned to it, and the seed cell's radius and farthest point are
    /// computed by one scan over all points.
    pub fn new(cloud: PointCloud, initial: usize) -> (dec: VoronoiDecomposer)
        requires
            cloud.wf(),
            (initial as int) < cloud@.len(),
        ensures
            dec.wf(),
            dec.cloud == cloud,
            dec.centers@ == seq![initial],
            dec.m() == 1,
            seed_cell_stats(
                cloud@,
                initial as int,
                dec.farthest@[0] as int,
                dec.radius2@[0] as int,
            ),
    {
        let n = cloud.len();
        let mut nearest_center: Vec<usize> = Vec::new();
        let mut dist2_to_nearest: Vec<i64> = Vec::new();
        let mut p: usize = 0;
        while p < n
            invariant
                p <= n,
                cloud.wf(),
                (initial as int) < cloud@.len(),
                n as int == cloud@.len(),
                nearest_center@.len() == p as int,
                dist2_to_nearest@.len() == p as int,
                forall|q: int| 0 <= q < p as int ==> #[trigger] nearest_center@[q] == 0usize,
                forall|q: int|
                    0 <= q < p as int ==> #[trigger] dist2_to_nearest@[q] as int == dist_sq(
                        cloud@[q],
                        cloud@[initial as int],
                    ) && 0 <= dist2_to_nearest@[q] <= MAX_DIST_SQ,
            decreases n - p,
        {
            let d = cloud.squared_distance(p, initial);
            nearest_center.push(0);
            dist2_to_nearest.push(d);
            p += 1;
        }
        let mut centers: Vec<usize> = Vec::new();
        centers.push(initial);
        assert(nearest_center@[initial as int] == 0usize);
        let (f, r) = cell_scan(&nearest_center, &dist2_to_nearest, 0);
        let mut radius2: Vec<i64> = Vec::new();
        radius2.push(r);
        let mut farthest: Vec<usize> = Vec::new();
        farthest.push(f);
        let dec = VoronoiDecomposer {
            cloud,
            centers,
            nearest_center,
            dist2_to_nearest,
            radius2,
            farthest,
        };
        proof {
            assert(dec.center_pt(0) == initial as int);
            assert forall|q: int| 0 <= q < dec.n() implies #[trigger] dec.assign_ok(q) by {
                assert(dec.owner(q) == 0);
                assert(dec.dist(q) == dec.pdist(q, initial as int));
                if dec.is_center(q) {
                    let c = choose|c: int|
                        0 <= c < dec.m() && #[trigger] dec.center_pt(c) == q;
                    assert(c == 0);
                }
            }
            assert(dec.cell_ok(0));
            assert(seed_cell_stats(
                dec.cloud@,
                initial as int,
                dec.farthest@[0] as int,
                dec.radius2@[0] as int,
            )) by {
                assert forall|q: int| 0 <= q < dec.cloud@.len() implies dist_sq(
                    #[trigger] dec.cloud@[q],
                    dec.cloud@[initial as int],
                ) <= dec.radius2@[0] as int by {
                    assert(dec.owner(q) == 0);
                    assert(dec.dist(q) <= dec.radius2@[0] as int);
                }
                assert forall|q: int| 0 <= q < dec.farthest@[0] as int implies dist_sq(
                    #[trigger] dec.cloud@[q],
                    dec.cloud@[initial as int],
                ) < dec.radius2@[0] as int by {
                    assert(dec.owner(q) == 0);
                    assert(dec.dist(q) < dec.radius2@[0] as int);
                }
            }
        }
        dec
    }

    /// Whether point `p` has already been promoted to a center.
    pub fn is_center_point(&self, p: usize) -> (b: bool)
        requires
            self.wf(),
            (p as int) < self.n(),
        ensures
            b == self.is_center(p as int),
    {
        let own = self.nearest_center[p];
        assert(self.assign_ok(p as int));
        let b = self.centers[own] == p;
        proof {
            if b {
                assert(self.center_pt(own as int) == p as int);
            } else if self.is_center(p as int) {
                assert(self.center_pt(self.owner(p as int)) == p as int);
            }
        }
        b
    }

    /// Number of centers added so far.
    pub fn n_centers(&self) -> (k: usize)
        ensures
            k as int == self.m(),
    {
        self.centers.len()
    }

    /// The squared radius of the most recently added center's cell.
    pub fn newest_radius2(&self) -> (r: i64)
        requires
            self.wf(),
        ensures
            r == self.radius2@[self.m() - 1],
    {
        self.radius2[self.radius2.len() - 1]
    }

    /// A read-only snapshot of all cells' statistics, in selection order.
    /// The result is a pure function of the decomposer state, so repeated
    /// calls without an intervening `add_point` return identical snapshots.
    pub fn cells(&self) -> (snap: CellsSnapshot)
        requires
            self.wf(),
        ensures
            snap.radius2@ == self.radius2@,
            snap.farthest@ == self.farthest@,
            snap.radius2@.len() == self.m(),
    {
        CellsSnapshot { radius2: copy_i64_vec(&self.radius2), farthest: copy_usize_vec(&self.farthest) }
    }

    /// Promotes point `index` to a new center. Every point keeps its owner
    /// unless the new center is strictly closer; the pruning bound skips the
    /// distance computation for points that provably cannot move. Cell
    /// statistics are rebuilt for the new cell and for every cell that lost
    /// a member, and no cell's radius ever grows.
    pub fn add_point(&mut self, index: usize)
        requires
            old(self).wf(),
            (index as int) < old(self).n(),
            !old(self).is_center(index as int),
        ensures
            final(self).wf(),
            final(self).cloud == old(self).cloud,
            final(self).centers@ == old(self).centers@.push(index),
            final(self).m() == old(self).m() + 1,
            forall|p: int|
                #[trigger] final(self).is_center(p) <==> (old(self).is_center(p) || p
                    == index as int),
            forall|c: int|
                0 <= c < old(self).m() ==> #[trigger] final(self).radius2@[c] <= old(
                    self,
                ).radius2@[c],
    {
        let ghost prev = *self;
        let n = self.cloud.len();
        let m = self.centers.len();
        let mut lost: Vec<bool> = Vec::new();
        let mut c0: usize = 0;
        while c0 < m
            invariant
                c0 <= m,
                lost@.len() == c0 as int,
            decreases m - c0,
        {
            lost.push(false);
            c0 += 1;
        }
        assert(prev.assign_ok(index as int));
        let prev_owner = self.nearest_center[index];
        lost[prev_owner] = true;
        self.centers.push(index);
        self.nearest_center[index] = m;
        self.dist2_to_nearest[index] = 0;
        proof {
            lemma_dist_sq_self_zero(self.cloud@[index as int]);
            assert(self.centers@ == prev.centers@.push(index));
            assert(self.center_pt(m as int) == index as int);
            assert forall|c: int| 0 <= c < self.m() implies self.pdist(
                index as int,
                #[trigger] self.center_pt(c),
            ) >= self.dist(index as int) by {
                lemma_dist_sq_nonneg(
                    self.cloud@[index as int],
                    self.cloud@[self.center_pt(c)],
                );
            }
            assert(self.assign_ok(index as int));
        }
        let mut p: usize = 0;
        while p < n
            invariant
                p <= n,
                n as int == self.n(),
                prev.wf(),
                self.cloud == prev.cloud,
                (index as int) < n as int,
                !prev.is_center(index as int),
                m as int == prev.m(),
                self.centers@ == prev.centers@.push(index),
                self.radius2@ == prev.radius2@,
                self.farthest@ == prev.farthest@,
                self.nearest_center@.len() == n as int,
                self.dist2_to_nearest@.len() == n as int,
                lost@.len() == m as int,
                self.owner(index as int) == m as int,
                self.dist(index as int) == 0,
                forall|q: int|
                    0 <= q < n as int && (q < p as int || q == index as int)
                        ==> #[trigger] self.assign_ok(q),
                forall|q: int|
                    p as int <= q < n as int && q != index as int
                        ==> #[trigger] self.nearest_center@[q] == prev.nearest_center@[q]
                        && self.dist2_to_nearest@[q] == prev.dist2_to_nearest@[q],
                forall|q: int|
                    0 <= q < n as int && #[trigger] self.nearest_center@[q]
                        != prev.nearest_center@[q] ==> self.nearest_center@[q] == m as usize
                        && lost@[prev.owner(q)] == true && (q == index as int || self.dist(q)
                        < prev.dist(q)),
                forall|q: int|
                    0 <= q < n as int && #[trigger] self.dist2_to_nearest@[q]
                        != prev.dist2_to_nearest@[q] ==> self.nearest_center@[q]
                        != prev.nearest_center@[q],
            decreases n - p,
        {
            let ghost before = *self;
            let ghost lost0 = lost@;
            if p != index {
                proof {
                    assert(prev.assign_ok(p as int));
                }
                let own = self.nearest_center[p];
                assert(own as int == prev.owner(p as int));
                assert(self.center_pt(own as int) == prev.center_pt(own as int));
                let u = self.centers[own];
                let cc = self.cloud.squared_distance(index, u);
                let d_own = self.dist2_to_nearest[p];
                assert(d_own as int == prev.dist(p as int));
                proof {
                    lemma_dist_sq_nonneg(self.cloud@[p as int], self.cloud@[index as int]);
                    assert(self.center_pt(m as int) == index as int);
                }
                if 4 * d_own <= cc {
                    proof {
                        lemma_prune_safe(
                            self.cloud@[p as int],
                            self.cloud@[u as int],
                            self.cloud@[index as int],
                        );
                        assert(self.pdist(p as int, index as int) >= d_own as int);
                        lemma_keep_owner(prev, *self, p as int, index, m as int);
                    }
                } else {
                    let d_new = self.cloud.squared_distance(p, index);
                    if d_new < d_own {
                        lost[own] = true;
                        self.nearest_center[p] = m;
                        self.dist2_to_nearest[p] = d_new;
                        proof {
                            if prev.is_center(p as int) {
                                assert(prev.center_pt(prev.owner(p as int)) == p as int);
                                lemma_dist_sq_self_zero(prev.cloud@[p as int]);
                                assert(false);
                            }
                            assert(self.owner(p as int) == m as int);
                            assert(self.dist(p as int) == d_new as int);
                            assert forall|c: int| 0 <= c < self.m() implies self.pdist(
                                p as int,
                                #[trigger] self.center_pt(c),
                            ) >= self.dist(p as int) by {
                                if c < m as int {
                                    assert(self.center_pt(c) == prev.center_pt(c));
                                    assert(prev.assign_ok(p as int));
                                    assert(prev.pdist(p as int, prev.center_pt(c)) >= prev.dist(
                                        p as int,
                                    ));
                                } else {
                                    assert(self.center_pt(c) == index as int);
                                }
                            }
                            assert(!self.is_center(p as int)) by {
                                if self.is_center(p as int) {
                                    let c = choose|c: int|
                                        0 <= c < self.m() && #[trigger] self.center_pt(c)
                                            == p as int;
                                    assert(c < m as int);
                                    assert(prev.center_pt(c) == p as int);
                                    assert(prev.is_center(p as int));
                                }
                            }
                            assert forall|c: int| 0 <= c < self.owner(p as int) implies self.pdist(
                                p as int,
                                #[trigger] self.center_pt(c),
                            ) > self.dist(p as int) by {
                                assert(self.center_pt(c) == prev.center_pt(c));
                                assert(prev.assign_ok(p as int));
                                assert(prev.pdist(p as int, prev.center_pt(c)) >= prev.dist(
                                    p as int,
                                ));
                            }
                            assert(self.assign_ok(p as int));
                            assert forall|q: int|
                                0 <= q < n as int && (q < p as int || q == index as int) implies
                                #[trigger] self.assign_ok(q) by {
                                if q != p as int {
                                    assert(before.assign_ok(q));
                                    lemma_assign_same(before, *self, q);
                                }
                            }
                            assert(lost@ == lost0.update(own as int, true));
                            assert forall|q: int|
                                0 <= q < n as int && #[trigger] self.nearest_center@[q]
                                    != prev.nearest_center@[q] implies self.nearest_center@[q]
                                == m as usize && lost@[prev.owner(q)] == true && (q == index as int
                                || self.dist(q) < prev.dist(q)) by {
                                if q == p as int {
                                    assert(lost@[own as int] == true);
                                } else {
                                    assert(self.nearest_center@[q] == before.nearest_center@[q]);
                                    assert(self.dist2_to_nearest@[q]
                                        == before.dist2_to_nearest@[q]);
                                    assert(before.nearest_center@[q] != prev.nearest_center@[q]);
                                    assert(prev.assign_ok(q));
                                    assert(0 <= prev.owner(q) < m as int);
                                    assert(lost0[prev.owner(q)] == true);
                                    assert(lost@[prev.owner(q)] == true);
                                }
                            }
                        }
                    } else {
                        proof {
                            assert(self.pdist(p as int, index as int) == d_new as int);
                            lemma_keep_owner(prev, *self, p as int, index, m as int);
                        }
                    }
                }
            }
            p += 1;
        }
        assert(self.nearest_center@[index as int] == m as usize);
        assert forall|q: int|
            0 <= q < self.dist2_to_nearest@.len() implies 0 <= #[trigger] self.dist2_to_nearest@[q]
            <= MAX_DIST_SQ by {
            assert(self.assign_ok(q));
        }
        let ghost mid = *self;
        let (nf, nr) = cell_scan(&self.nearest_center, &self.dist2_to_nearest, m);
        self.radius2.push(nr);
        self.farthest.push(nf);
        proof {
            assert forall|q: int| 0 <= q < n as int implies #[trigger] self.assign_ok(q) by {
                assert(mid.assign_ok(q));
                lemma_assign_same(mid, *self, q);
            }
            assert(self.cell_ok(m as int));
        }
        let mut c: usize = 0;
        while c < m
            invariant
                c <= m,
                n as int == self.n(),
                prev.wf(),
                self.cloud == prev.cloud,
                (index as int) < n as int,
                !prev.is_center(index as int),
                m as int == prev.m(),
                self.centers@ == prev.centers@.push(index),
                self.nearest_center@.len() == n as int,
                self.dist2_to_nearest@.len() == n as int,
                self.radius2@.len() == m as int + 1,
                self.farthest@.len() == m as int + 1,
                lost@.len() == m as int,
                forall|q: int| 0 <= q < n as int ==> #[trigger] self.assign_ok(q),
                forall|q: int|
                    0 <= q < n as int && #[trigger] self.nearest_center@[q]
                        != prev.nearest_center@[q] ==> self.nearest_center@[q] == m as usize
                        && lost@[prev.owner(q)] == true && (q == index as int || self.dist(q)
                        < prev.dist(q)),
                forall|q: int|
                    0 <= q < n as int && #[trigger] self.dist2_to_nearest@[q]
                        != prev.dist2_to_nearest@[q] ==> self.nearest_center@[q]
                        != prev.nearest_center@[q],
                self.cell_ok(m as int),
                forall|cc: int| 0 <= cc < c as int ==> #[trigger] self.cell_ok(cc),
                forall|cc: int|
                    0 <= cc < c as int ==> #[trigger] self.radius2@[cc] <= prev.radius2@[cc],
                forall|cc: int|
                    c as int <= cc < m as int ==> #[trigger] self.radius2@[cc]
                        == prev.radius2@[cc],
                forall|cc: int|
                    c as int <= cc < m as int ==> #[trigger] self.farthest@[cc]
                        == prev.farthest@[cc],
            decreases m - c,
        {
            let ghost before2 = *self;
            if lost[c] {
                proof {
                    let q0 = prev.center_pt(c as int);
                    assert(0 <= q0 < n as int);
                    assert(prev.assign_ok(q0));
                    assert(prev.is_center(q0)) by {
                        assert(prev.center_pt(c as int) == q0);
                    }
                    assert(prev.center_pt(prev.owner(q0)) == q0);
                    assert(prev.owner(q0) == c as int) by {
                        if prev.owner(q0) < c as int {
                            assert(prev.center_pt(prev.owner(q0)) != prev.center_pt(c as int));
                        }
                        if (c as int) < prev.owner(q0) {
                            assert(prev.center_pt(c as int) != prev.center_pt(prev.owner(q0)));
                        }
                    }
                    lemma_dist_sq_self_zero(prev.cloud@[q0]);
                    assert(prev.dist(q0) == prev.pdist(q0, q0));
                    assert(prev.dist(q0) == 0);
                    assert(q0 != index as int) by {
                        if q0 == index as int {
                            assert(prev.is_center(index as int));
                        }
                    }
                    assert(self.nearest_center@[q0] == prev.nearest_center@[q0]) by {
                        if self.nearest_center@[q0] != prev.nearest_center@[q0] {
                            assert(self.assign_ok(q0));
                            assert(self.dist(q0) < prev.dist(q0));
                        }
                    }
                    assert(self.nearest_center@[q0] == c as usize);
                    assert forall|q: int|
                        0 <= q < self.dist2_to_nearest@.len() implies 0
                        <= #[trigger] self.dist2_to_nearest@[q] <= MAX_DIST_SQ by {
                        assert(self.assign_ok(q));
                    }
                }
                let (f2, r2) = cell_scan(&self.nearest_center, &self.dist2_to_nearest, c);
                self.radius2[c] = r2;
                self.farthest[c] = f2;
                proof {
                    assert(self.cell_ok(c as int));
                    let f2i = f2 as int;
                    assert(self.nearest_center@[f2i] == prev.nearest_center@[f2i]) by {
                        if self.nearest_center@[f2i] != prev.nearest_center@[f2i] {
                            assert(self.nearest_center@[f2i] == m as usize);
                        }
                    }
                    assert(self.dist2_to_nearest@[f2i] == prev.dist2_to_nearest@[f2i]) by {
                        if self.dist2_to_nearest@[f2i] != prev.dist2_to_nearest@[f2i] {
                            assert(self.nearest_center@[f2i] != prev.nearest_center@[f2i]);
                        }
                    }
                    assert(prev.cell_ok(c as int));
                    assert(prev.owner(f2i) == c as int);
                    assert(prev.dist(f2i) <= prev.radius2@[c as int]);
                    assert(r2 <= prev.radius2@[c as int]);
                    assert forall|q: int| 0 <= q < n as int implies #[trigger] self.assign_ok(
                        q,
                    ) by {
                        assert(before2.assign_ok(q));
                        lemma_assign_same(before2, *self, q);
                    }
                    assert forall|cc: int| 0 <= cc < c as int + 1 implies #[trigger] self.cell_ok(
                        cc,
                    ) by {
                        if cc != c as int {
                            assert(before2.cell_ok(cc));
                            lemma_cell_same(before2, *self, cc);
                        }
                    }
                    assert forall|cc: int| 0 <= cc < c as int + 1 implies
                        #[trigger] self.radius2@[cc] <= prev.radius2@[cc] by {
                        if cc == c as int {
                            assert(self.radius2@[cc] == r2);
                        } else {
                            assert(self.radius2@[cc] == before2.radius2@[cc]);
                            assert(before2.radius2@[cc] <= prev.radius2@[cc]);
                        }
                    }
                    assert(self.cell_ok(m as int)) by {
                        lemma_cell_same(before2, *self, m as int);
                    }
                    assert forall|cc: int| c as int + 1 <= cc < m as int implies
                        #[trigger] self.radius2@[cc] == prev.radius2@[cc] by {
                        assert(self.radius2@[cc] == before2.radius2@[cc]);
                        assert(before2.radius2@[cc] == prev.radius2@[cc]);
                    }
                    assert forall|cc: int| c as int + 1 <= cc < m as int implies
                        #[trigger] self.farthest@[cc] == prev.farthest@[cc] by {
                        assert(self.farthest@[cc] == before2.farthest@[cc]);
                        assert(before2.farthest@[cc] == prev.farthest@[cc]);
                    }
                }
            } else {
                proof {
                    assert(prev.cell_ok(c as int));
                    assert forall|q: int|
                        0 <= q < n as int implies (#[trigger] self.owner(q) == c as int
                        <==> prev.owner(q) == c as int) && (self.owner(q) == c as int
                        ==> self.dist(q) == prev.dist(q)) by {
                        if self.nearest_center@[q] != prev.nearest_center@[q] {
                            assert(self.nearest_center@[q] == m as usize);
                            assert(lost@[prev.owner(q)] == true);
                        } else {
                            if self.dist2_to_nearest@[q] != prev.dist2_to_nearest@[q] {
                                assert(false);
                            }
                        }
                    }
                    assert(self.cell_ok(c as int));
                    assert(self.radius2@[c as int] <= prev.radius2@[c as int]);
                }
            }
            c += 1;
        }
        proof {
            assert forall|c1: int, c2: int| 0 <= c1 < c2 < self.m() implies
                #[trigger] self.center_pt(c1) != #[trigger] self.center_pt(c2) by {
                assert(self.center_pt(c1) == prev.center_pt(c1));
                if c2 == m as int {
                    assert(self.center_pt(c2) == index as int);
                    if self.center_pt(c1) == index as int {
                        assert(prev.center_pt(c1) == index as int);
                        assert(prev.is_center(index as int));
                    }
                } else {
                    assert(self.center_pt(c2) == prev.center_pt(c2));
                    assert(prev.center_pt(c1) != prev.center_pt(c2));
                }
            }
            assert forall|p2: int| #[trigger] self.is_center(p2) implies (prev.is_center(p2) || p2
                == index as int) by {
                let c = choose|c: int| 0 <= c < self.m() && #[trigger] self.center_pt(c) == p2;
                if c < m as int {
                    assert(prev.center_pt(c) == p2);
                }
            }
            assert forall|p2: int| prev.is_center(p2) implies #[trigger] self.is_center(p2) by {
                let c = choose|c: int| 0 <= c < prev.m() && #[trigger] prev.center_pt(c) == p2;
                assert(self.center_pt(c) == p2);
            }
            assert(self.is_center(index as int)) by {
                assert(self.center_pt(m as int) == index as int);
            }
            assert forall|c3: int| 0 <= c3 < self.m() implies 0 <= #[trigger] self.center_pt(c3)
                < self.n() by {
                if c3 < m as int {
                    assert(self.center_pt(c3) == prev.center_pt(c3));
                } else {
                    assert(self.center_pt(c3) == index as int);
                }
            }
            assert(self.wf());
        }
    }
}

/// Exact statistics of the one cell of a freshly created decomposer seeded
/// at `seed`: `r` is the largest squared distance from any point to the
/// seed, and `f` is the lowest point index attaining it.
pub open spec fn seed_cell_stats(cloud: Seq<Seq<int>>, seed: int, f: int, r: int) -> bool {
    &&& 0 <= f < cloud.len()
    &&& r == dist_sq(cloud[f], cloud[seed])
    &&& forall|p: int| 0 <= p < cloud.len() ==> dist_sq(#[trigger] cloud[p], cloud[seed]) <= r
    &&& forall|p: int| 0 <= p < f ==> dist_sq(#[trigger] cloud[p], cloud[seed]) < r
}

/// A point's assignment characterization depends only on the cloud, the
/// center sequence, and that point's own owner and distance entries, so it
/// transfers between two states agreeing on those.
proof fn lemma_assign_same(a: VoronoiDecomposer, b: VoronoiDecomposer, q: int)
    requires
        0 <= q < a.nearest_center@.len(),
        q < b.nearest_center@.len(),
        q < a.dist2_to_nearest@.len(),
        q < b.dist2_to_nearest@.len(),
        b.cloud@ == a.cloud@,
        b.centers@ == a.centers@,
        b.nearest_center@[q] == a.nearest_center@[q],
        b.dist2_to_nearest@[q] == a.dist2_to_nearest@[q],
        a.assign_ok(q),
    ensures
        b.assign_ok(q),
{
    assert(b.owner(q) == a.owner(q));
    assert(b.dist(q) == a.dist(q));
    assert(b.m() == a.m());
    assert forall|c: int| 0 <= c < b.m() implies b.pdist(q, #[trigger] b.center_pt(c)) >= b.dist(
        q,
    ) by {
        assert(b.center_pt(c) == a.center_pt(c));
        assert(a.pdist(q, a.center_pt(c)) >= a.dist(q));
    }
    assert(b.center_pt(b.owner(q)) == a.center_pt(a.owner(q)));
    if b.is_center(q) {
        let c = choose|c: int| 0 <= c < b.m() && #[trigger] b.center_pt(c) == q;
        assert(a.center_pt(c) == q);
        assert(a.is_center(q));
    } else {
        if a.is_center(q) {
            let c = choose|c: int| 0 <= c < a.m() && #[trigger] a.center_pt(c) == q;
            assert(b.center_pt(c) == q);
            assert(false);
        }
        assert forall|c: int| 0 <= c < b.owner(q) implies b.pdist(q, #[trigger] b.center_pt(c))
            > b.dist(q) by {
            assert(b.center_pt(c) == a.center_pt(c));
            assert(a.pdist(q, a.center_pt(c)) > a.dist(q));
        }
    }
    assert(b.assign_ok(q));
}

/// A cell's statistics characterization depends only on the assignment
/// entries and that cell's own radius and farthest entries, so it transfers
/// between two states agreeing on those.
proof fn lemma_cell_same(a: VoronoiDecomposer, b: VoronoiDecomposer, c: int)
    requires
        0 <= c < a.radius2@.len(),
        c < b.radius2@.len(),
        c < a.farthest@.len(),
        c < b.farthest@.len(),
        b.cloud@ == a.cloud@,
        b.nearest_center@ == a.nearest_center@,
        b.dist2_to_nearest@ == a.dist2_to_nearest@,
        b.radius2@[c] == a.radius2@[c],
        b.farthest@[c] == a.farthest@[c],
        a.cell_ok(c),
    ensures
        b.cell_ok(c),
{
    let f = b.farthest@[c] as int;
    let r = b.radius2@[c] as int;
    assert(b.n() == a.n());
    assert(b.owner(f) == a.owner(f));
    assert(b.dist(f) == a.dist(f));
    assert forall|p: int| 0 <= p < b.n() && #[trigger] b.owner(p) == c implies b.dist(p) <= r by {
        assert(a.owner(p) == c);
        assert(a.dist(p) <= r);
    }
    assert forall|p: int| 0 <= p < f && #[trigger] b.owner(p) == c implies b.dist(p) < r by {
        assert(a.owner(p) == c);
        assert(a.dist(p) < r);
    }
    assert(b.cell_ok(c));
}

/// A point whose recorded owner and distance are unchanged stays correctly
/// assigned after one more center is appended, provided the new center is no
/// closer than the recorded distance.
proof fn lemma_keep_owner(
    prev: VoronoiDecomposer,
    cur: VoronoiDecomposer,
    p: int,
    index: usize,
    m: int,
)
    requires
        prev.wf(),
        m == prev.m(),
        0 <= p < prev.n(),
        p != index as int,
        (index as int) < prev.n(),
        !prev.is_center(index as int),
        cur.cloud == prev.cloud,
        cur.centers@ == prev.centers@.push(index),
        cur.nearest_center@.len() == prev.nearest_center@.len(),
        cur.dist2_to_nearest@.len() == prev.dist2_to_nearest@.len(),
        cur.nearest_center@[p] == prev.nearest_center@[p],
        cur.dist2_to_nearest@[p] == prev.dist2_to_nearest@[p],
        cur.pdist(p, index as int) >= cur.dist(p),
    ensures
        cur.assign_ok(p),
{
    assert(prev.assign_ok(p));
    assert(cur.owner(p) == prev.owner(p));
    assert(cur.dist(p) == prev.dist(p));
    assert(cur.m() == m + 1);
    assert(cur.center_pt(m) == index as int);
    assert(cur.center_pt(cur.owner(p)) == prev.center_pt(prev.owner(p)));
    assert forall|c: int| 0 <= c < cur.m() implies cur.pdist(p, #[trigger] cur.center_pt(c))
        >= cur.dist(p) by {
        if c < m {
            assert(cur.center_pt(c) == prev.center_pt(c));
            assert(prev.pdist(p, prev.center_pt(c)) >= prev.dist(p));
        } else {
            assert(cur.center_pt(c) == index as int);
        }
    }
    if cur.is_center(p) {
        let c = choose|c: int| 0 <= c < cur.m() && #[trigger] cur.center_pt(c) == p;
        assert(c < m);
        assert(prev.center_pt(c) == p);
        assert(prev.is_center(p));
        assert(prev.center_pt(prev.owner(p)) == p);
    } else {
        if prev.is_center(p) {
            let c = choose|c: int| 0 <= c < prev.m() && #[trigger] prev.center_pt(c) == p;
            assert(cur.center_pt(c) == p);
            assert(false);
        }
        assert forall|c: int| 0 <= c < cur.owner(p) implies cur.pdist(
            p,
            #[trigger] cur.center_pt(c),
        ) > cur.dist(p) by {
            assert(cur.center_pt(c) == prev.center_pt(c));
            assert(prev.pdist(p, prev.center_pt(c)) > prev.dist(p));
        }
    }
    assert(cur.assign_ok(p));
}

/// Scans all points and returns, for cell `c`, the lowest-index member
/// attaining the maximal recorded distance, together with that distance.
fn cell_scan(nearest_center: &Vec<usize>, dist2_to_nearest: &Vec<i64>, c: usize) -> (out: (
    usize,
    i64,
))
    requires
        nearest_center@.len() == dist2_to_nearest@.len(),
        exists|p: int| 0 <= p < nearest_center@.len() && #[trigger] nearest_center@[p] == c,
        forall|p: int|
            0 <= p < dist2_to_nearest@.len() ==> 0 <= #[trigger] dist2_to_nearest@[p]
                <= MAX_DIST_SQ,
    ensures
        (out.0 as int) < nearest_center@.len(),
        nearest_center@[out.0 as int] == c,
        dist2_to_nearest@[out.0 as int] == out.1,
        forall|p: int|
            0 <= p < nearest_center@.len() && #[trigger] nearest_center@[p] == c
                ==> dist2_to_nearest@[p] <= out.1,
        forall|p: int|
            0 <= p < out.0 as int && #[trigger] nearest_center@[p] == c ==> dist2_to_nearest@[p]
                < out.1,
{
    let n = nearest_center.len();
    let mut best_p: usize = 0;
    let mut best_d: i64 = -1;
    let mut p: usize = 0;
    while p < n
        invariant
            p <= n,
            n as int == nearest_center@.len(),
            nearest_center@.len() == dist2_to_nearest@.len(),
            forall|q: int|
                0 <= q < dist2_to_nearest@.len() ==> 0 <= #[trigger] dist2_to_nearest@[q]
                    <= MAX_DIST_SQ,
            best_d >= -1,
            best_d == -1 ==> forall|q: int|
                0 <= q < p as int ==> #[trigger] nearest_center@[q] != c,
            best_d >= 0 ==> (best_p as int) < p as int && nearest_center@[best_p as int] == c
                && dist2_to_nearest@[best_p as int] == best_d,
            best_d >= 0 ==> forall|q: int|
                0 <= q < p as int && #[trigger] nearest_center@[q] == c ==> dist2_to_nearest@[q]
                    <= best_d,
            best_d >= 0 ==> forall|q: int|
                0 <= q < best_p as int && #[trigger] nearest_center@[q] == c
                    ==> dist2_to_nearest@[q] < best_d,
        decreases n - p,
    {
        if nearest_center[p] == c && dist2_to_nearest[p] > best_d {
            best_p = p;
            best_d = dist2_to_nearest[p];
        }
        p += 1;
    }
    proof {
        if best_d == -1 {
            let w = choose|q: int|
                0 <= q < nearest_center@.len() && #[trigger] nearest_center@[q] == c;
            assert(false);
        }
    }
    (best_p, best_d)
}

/// Element-by-element copy of a vector of distances.
fn copy_i64_vec(v: &Vec<i64>) -> (r: Vec<i64>)
    ensures
        r@ == v@,
{
    let n = v.len();
    let mut r: Vec<i64> = Vec::new();
    let mut i: usize = 0;
    while i < n
        invariant
            i <= n,
            n as int == v@.len(),
            r@ == v@.subrange(0, i as int),
        decreases n - i,
    {
        r.push(v[i]);
        assert(r@ =~= v@.subrange(0, i as int + 1));
        i += 1;
    }
    assert(v@.subrange(0, n as int) =~= v@);
    r
}

/// Element-by-element copy of a vector of point indices.
fn copy_usize_vec(v: &Vec<usize>) -> (r: Vec<usize>)
    ensures
        r@ == v@,
{
    let n = v.len();
    let mut r: Vec<usize> = Vec::new();
    let mut i: usize = 0;
    while i < n
        invariant
            i <= n,
            n as int == v@.len(),
            r@ == v@.subrange(0, i as int),
        decreases n - i,
    {
        r.push(v[i]);
        assert(r@ =~= v@.subrange(0, i as int + 1));
        i += 1;
    }
    assert(v@.subrange(0, n as int) =~= v@);
    r
}

/// Two decomposers over the same cloud that were fed the same sequence of
/// centers agree on every piece of derived state: the nearest-center
/// assignment, the recorded distances, and the per-cell radius and farthest
/// point. In particular the assignment is what a full rescan of every point
/// against every center would produce, so the pruning bound is an exact
/// optimization, and ties are broken the same way on every run.
pub proof fn lemma_state_determined(d1: &VoronoiDecomposer, d2: &VoronoiDecomposer)
    requires
        d1.wf(),
        d2.wf(),
        d1.cloud@ == d2.cloud@,
        d1.centers@ == d2.centers@,
    ensures
        d1.nearest_center@ == d2.nearest_center@,
        d1.dist2_to_nearest@ == d2.dist2_to_nearest@,
        d1.radius2@ == d2.radius2@,
        d1.farthest@ == d2.farthest@,
{
    assert forall|p: int|
        #![trigger d1.nearest_center@[p]]
        #![trigger d1.dist2_to_nearest@[p]]
        0 <= p < d1.n() implies d1.nearest_center@[p] == d2.nearest_center@[p]
        && d1.dist2_to_nearest@[p] == d2.dist2_to_nearest@[p] by {
        assert(d1.assign_ok(p));
        assert(d2.assign_ok(p));
        assert(0 <= d1.owner(p) < d2.m());
        assert(0 <= d2.owner(p) < d1.m());
        assert(d2.pdist(p, d2.center_pt(d1.owner(p))) >= d2.dist(p));
        assert(d2.center_pt(d1.owner(p)) == d1.center_pt(d1.owner(p)));
        assert(d1.dist(p) == d1.pdist(p, d1.center_pt(d1.owner(p))));
        assert(d1.dist(p) >= d2.dist(p));
        assert(d1.pdist(p, d1.center_pt(d2.owner(p))) >= d1.dist(p));
        assert(d1.center_pt(d2.owner(p)) == d2.center_pt(d2.owner(p)));
        assert(d2.dist(p) == d2.pdist(p, d2.center_pt(d2.owner(p))));
        assert(d2.dist(p) >= d1.dist(p));
        assert(d1.dist(p) == d2.dist(p));
        if d1.is_center(p) {
            assert(d2.is_center(p));
            assert(d1.center_pt(d1.owner(p)) == p);
            assert(d2.center_pt(d2.owner(p)) == p);
            if d1.owner(p) < d2.owner(p) {
                assert(d1.center_pt(d1.owner(p)) != d1.center_pt(d2.owner(p)));
            }
            if d2.owner(p) < d1.owner(p) {
                assert(d1.center_pt(d2.owner(p)) != d1.center_pt(d1.owner(p)));
            }
        } else {
            assert(!d2.is_center(p));
            if d1.owner(p) < d2.owner(p) {
                assert(d2.pdist(p, d2.center_pt(d1.owner(p))) > d2.dist(p));
                assert(d1.pdist(p, d1.center_pt(d1.owner(p))) == d1.dist(p));
                assert(false);
            }
            if d2.owner(p) < d1.owner(p) {
                assert(d1.pdist(p, d1.center_pt(d2.owner(p))) > d1.dist(p));
                assert(d2.pdist(p, d2.center_pt(d2.owner(p))) == d2.dist(p));
                assert(false);
            }
        }
    }
    assert(d1.nearest_center@ =~= d2.nearest_center@);
    assert(d1.dist2_to_nearest@ =~= d2.dist2_to_nearest@);
    assert forall|c: int|
        #![trigger d1.radius2@[c]]
        #![trigger d1.farthest@[c]]
        0 <= c < d1.m() implies d1.radius2@[c] == d2.radius2@[c] && d1.farthest@[c]
        == d2.farthest@[c] by {
        assert(d1.cell_ok(c));
        assert(d2.cell_ok(c));
        let f1 = d1.farthest@[c] as int;
        let f2 = d2.farthest@[c] as int;
        assert(d2.owner(f1) == c);
        assert(d1.owner(f2) == c);
        assert(d1.radius2@[c] == d2.radius2@[c]);
        if f1 < f2 {
            assert(d2.dist(f1) < d2.radius2@[c]);
            assert(false);
        }
        if f2 < f1 {
            assert(d1.dist(f2) < d1.radius2@[c]);
            assert(false);
        }
    }
    assert(d1.radius2@ =~= d2.radius2@);
    assert(d1.farthest@ =~= d2.farthest@);
}

} // verus!
