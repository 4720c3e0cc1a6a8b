//! Farthest-point sampling over a point cloud, driven by an incremental
//! Voronoi decomposition: each selected point becomes a center, every other
//! point tracks its nearest center and squared distance to it, and a
//! triangle-inequality bound prunes most distance evaluations when a new
//! center is added. A structure-aware selector on top picks whole groups of
//! points ("structures") at a time.

mod cloud;
mod decomposer;
mod metric;
mod selector;

pub use cloud::{PointCloud, COORD_LIMIT, MAX_DIM, MAX_DIST_SQ};
pub use decomposer::{lemma_state_determined, CellsSnapshot, VoronoiDecomposer};
pub use metric::{diff, dist_sq, dot};
pub use selector::{count_distinct, distinct_ids, find_max, select_structures, SelectError, Selection};
