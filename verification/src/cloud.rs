//! The point cloud: a read-only matrix of integer coordinates, all points of
//! one dimension, with coordinate magnitudes bounded so that every squared
//! distance (and four times it, for the pruning test) fits in an `i64`.

use vstd::prelude::*;
use crate::metric::{dist_sq, lemma_dist_sq_extend};

verus! {

/// Largest coordinate magnitude a point cloud accepts.
pub const COORD_LIMIT: i64 = 1_000_000;

/// Largest dimension a point cloud accepts.
pub const MAX_DIM: usize = 4096;

/// Upper bound on any squared distance between two in-range points:
/// `MAX_DIM * (2 * COORD_LIMIT)^2`.
pub const MAX_DIST_SQ: i64 = 16_384_000_000_000_000;

/// An ordered sequence of points, all of the same dimension, with every
/// coordinate in `[-COORD_LIMIT, COORD_LIMIT]`.
pub struct PointCloud {
    coords: Vec<Vec<i64>>,
    dim: usize,
}

/// Whether a raw coordinate matrix is acceptable for the given dimension.
pub open spec fn coords_ok(rows: Seq<Seq<int>>, dim: int) -> bool {
    &&& 0 <= dim <= MAX_DIM as int
    &&& forall|i: int| 0 <= i < rows.len() ==> (#[trigger] rows[i]).len() == dim
    &&& forall|i: int, k: int|
        0 <= i < rows.len() && 0 <= k < dim ==> -(COORD_LIMIT as int) <= #[trigger] rows[i][k]
            <= COORD_LIMIT as int
}

impl View for PointCloud {
    type V = Seq<Seq<int>>;

    closed spec fn view(&self) -> Seq<Seq<int>> {
        self.coords@.map_values(|row: Vec<i64>| row@.map_values(|c: i64| c as int))
    }
}

impl PointCloud {
    /// The common dimension of all points.
    pub closed spec fn spec_dim(&self) -> int {
        self.dim as int
    }

    /// Every point has the declared dimension and in-range coordinates.
    pub open spec fn wf(&self) -> bool {
        coords_ok(self@, self.spec_dim())
    }

    /// Builds a cloud from a raw coordinate matrix, rejecting any input whose
    /// rows do not all have length `dim`, whose coordinates exceed
    /// `COORD_LIMIT` in magnitude, or whose dimension exceeds `MAX_DIM`.
    pub fn new(coords: Vec<Vec<i64>>, dim: usize) -> (r: Option<PointCloud>)
        ensures
            match r {
                Some(cloud) => {
                    &&& cloud.wf()
                    &&& cloud.spec_dim() == dim as int
                    &&& cloud@ == coords@.map_values(|row: Vec<i64>| row@.map_values(|c: i64| c as int))
                    &&& coords_ok(cloud@, dim as int)
                },
                None => !coords_ok(
                    coords@.map_values(|row: Vec<i64>| row@.map_values(|c: i64| c as int)),
                    dim as int,
                ),
            },
    {
        let ghost rows = coords@.map_values(|row: Vec<i64>| row@.map_values(|c: i64| c as int));
        if dim > MAX_DIM {
            return None;
        }
        let n = coords.len();
        let mut i: usize = 0;
        while i < n
            invariant
                n == coords@.len(),
                i <= n,
                rows == coords@.map_values(|row: Vec<i64>| row@.map_values(|c: i64| c as int)),
                rows.len() == n as int,
                forall|p: int| 0 <= p < i as int ==> (#[trigger] rows[p]).len() == dim as int,
                forall|p: int, k: int|
                    0 <= p < i as int && 0 <= k < dim as int ==> -(COORD_LIMIT as int)
                        <= #[trigger] rows[p][k] <= COORD_LIMIT as int,
            decreases n - i,
        {
            let row = &coords[i];
            if row.len() != dim {
                assert(rows[i as int].len() != dim as int);
                return None;
            }
            let mut k: usize = 0;
            while k < dim
                invariant
                    i < n,
                    k <= dim,
                    n == coords@.len(),
                    rows == coords@.map_values(
                        |row: Vec<i64>| row@.map_values(|c: i64| c as int),
                    ),
                    rows.len() == n as int,
                    row == &coords[i as int],
                    row@.len() == dim as int,
                    forall|t: int|
                        0 <= t < k as int ==> -(COORD_LIMIT as int) <= #[trigger] rows[i as int][t]
                            <= COORD_LIMIT as int,
                decreases dim - k,
            {
                let c = row[k];
                if c < -COORD_LIMIT || c > COORD_LIMIT {
                    assert(rows[i as int][k as int] == c as int);
                    return None;
                }
                assert(rows[i as int][k as int] == c as int);
                k += 1;
            }
            i += 1;
        }
        Some(PointCloud { coords, dim })
    }

    /// Number of points.
    pub fn len(&self) -> (n: usize)
        ensures
            n as int == self@.len(),
    {
        self.coords.len()
    }

    /// Dimension of every point.
    pub fn dim(&self) -> (d: usize)
        ensures
            d as int == self.spec_dim(),
    {
        self.dim
    }

    /// Exact squared Euclidean distance between points `i` and `j`.
    pub fn squared_distance(&self, i: usize, j: usize) -> (r: i64)
        requires
            self.wf(),
            (i as int) < self@.len(),
            (j as int) < self@.len(),
        ensures
            r as int == dist_sq(self@[i as int], self@[j as int]),
            0 <= r <= MAX_DIST_SQ,
    {
        let ghost pa = self@[i as int];
        let ghost pb = self@[j as int];
        let a = &self.coords[i];
        let b = &self.coords[j];
        assert(pa.len() == self.spec_dim() && pb.len() == self.spec_dim());
        assert(forall|t: int| 0 <= t < self.spec_dim() ==> #[trigger] pa[t] == a@[t] as int);
        assert(forall|t: int| 0 <= t < self.spec_dim() ==> #[trigger] pb[t] == b@[t] as int);
        let d = self.dim;
        let mut acc: i64 = 0;
        let mut k: usize = 0;
        assert(pa.subrange(0, 0) =~= Seq::<int>::empty());
        assert(pb.subrange(0, 0) =~= Seq::<int>::empty());
        while k < d
            invariant
                k <= d,
                d as int == self.spec_dim(),
                d <= MAX_DIM,
                a@.len() == d as int,
                b@.len() == d as int,
                pa.len() == d as int,
                pb.len() == d as int,
                forall|t: int| 0 <= t < d as int ==> #[trigger] pa[t] == a@[t] as int,
                forall|t: int| 0 <= t < d as int ==> #[trigger] pb[t] == b@[t] as int,
                forall|t: int|
                    0 <= t < d as int ==> -(COORD_LIMIT as int) <= #[trigger] pa[t]
                        <= COORD_LIMIT as int,
                forall|t: int|
                    0 <= t < d as int ==> -(COORD_LIMIT as int) <= #[trigger] pb[t]
                        <= COORD_LIMIT as int,
                acc as int == dist_sq(pa.subrange(0, k as int), pb.subrange(0, k as int)),
                0 <= acc as int <= 4_000_000_000_000 * (k as int),
            decreases d - k,
        {
            assert(-(COORD_LIMIT as int) <= pa[k as int] <= COORD_LIMIT as int);
            assert(-(COORD_LIMIT as int) <= pb[k as int] <= COORD_LIMIT as int);
            let delta = a[k] - b[k];
            assert(-2_000_000 <= delta as int <= 2_000_000);
            assert((delta as int) * (delta as int) <= 4_000_000_000_000 && (delta as int) * (
            delta as int) >= 0) by (nonlinear_arith)
                requires
                    -2_000_000 <= delta as int <= 2_000_000,
            ;
            let sq = delta * delta;
            proof {
                lemma_dist_sq_extend(pa, pb, k as int);
            }
            acc = acc + sq;
            k += 1;
        }
        assert(pa.subrange(0, d as int) =~= pa);
        assert(pb.subrange(0, d as int) =~= pb);
        acc
    }
}

} // verus!
