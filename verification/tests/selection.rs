use voronoi_fps::{select_structures, PointCloud, SelectError, VoronoiDecomposer};

fn cloud_1d(xs: &[i64]) -> PointCloud {
    let coords: Vec<Vec<i64>> = xs.iter().map(|&x| vec![x]).collect();
    PointCloud::new(coords, 1).unwrap()
}

#[test]
fn scenario_five_points_two_structures() {
    // points 0, 1, 2, 10, 11 on a line; structures 0,0,1,2,2; seed 0.
    let cloud = cloud_1d(&[0, 1, 2, 10, 11]);
    let structures: Vec<u32> = vec![0, 0, 1, 2, 2];
    let sel = select_structures(cloud, &structures, 2, 0).unwrap();
    assert_eq!(sel.selected, vec![0, 2]);
    // seed cell radius 121; after absorbing point 1 its cell radius is 100;
    // the max-radius cell (100) provides the second pick; absorbing point 10
    // leaves the newest cell with radius 0.
    assert_eq!(sel.radii, vec![121, 100, 100, 0]);
}

#[test]
fn scenario_single_structure_request() {
    let cloud = cloud_1d(&[0, 1, 2, 10, 11]);
    let structures: Vec<u32> = vec![0, 0, 1, 2, 2];
    let sel = select_structures(cloud, &structures, 1, 0).unwrap();
    assert_eq!(sel.selected, vec![0]);
    // only the seed structure is absorbed: seed plus point 1
    assert_eq!(sel.radii.len(), 2);
    assert_eq!(sel.radii[0], 121);
}

#[test]
fn farthest_structure_selected_from_other_seed() {
    // seed at point 3 (structure 2): its partner 11 is absorbed, then the
    // farthest remaining point is 0 or 1 (structure 0).
    let cloud = cloud_1d(&[0, 1, 2, 10, 11]);
    let structures: Vec<u32> = vec![0, 0, 1, 2, 2];
    let sel = select_structures(cloud, &structures, 2, 3).unwrap();
    assert_eq!(sel.selected[0], 2);
    assert_eq!(sel.selected[1], 0);
}

#[test]
fn error_mismatched_lengths() {
    let cloud = cloud_1d(&[0, 1, 2]);
    let structures: Vec<u32> = vec![0, 1];
    let r = select_structures(cloud, &structures, 1, 0);
    assert!(matches!(r, Err(SelectError::MismatchedLengths)));
}

#[test]
fn error_seed_out_of_range() {
    let cloud = cloud_1d(&[0, 1, 2]);
    let structures: Vec<u32> = vec![0, 1, 2];
    let r = select_structures(cloud, &structures, 1, 3);
    assert!(matches!(r, Err(SelectError::SeedOutOfRange)));
}

#[test]
fn error_zero_requested() {
    let cloud = cloud_1d(&[0, 1, 2]);
    let structures: Vec<u32> = vec![0, 1, 2];
    let r = select_structures(cloud, &structures, 0, 0);
    assert!(matches!(r, Err(SelectError::ZeroStructuresRequested)));
}

#[test]
fn error_not_enough_structures() {
    let cloud = cloud_1d(&[0, 1, 2]);
    let structures: Vec<u32> = vec![7, 7, 9];
    let r = select_structures(cloud, &structures, 3, 0);
    assert!(matches!(r, Err(SelectError::NotEnoughStructures)));
}

#[test]
fn error_center_reselected_on_duplicate_points() {
    // two coincident points in different structures: after the seed's
    // structure is absorbed, the largest cell's farthest point is the center
    // itself, which is reported rather than silently skipped.
    let cloud = cloud_1d(&[0, 0]);
    let structures: Vec<u32> = vec![0, 1];
    let r = select_structures(cloud, &structures, 2, 0);
    assert!(matches!(r, Err(SelectError::CenterReselected)));
}

#[test]
fn structure_completeness_and_no_duplicates() {
    // every point of every selected structure is a center exactly once
    let cloud = cloud_1d(&[0, 1, 5, 6, 20, 21, 40]);
    let structures: Vec<u32> = vec![3, 3, 5, 5, 8, 8, 2];
    let sel = select_structures(cloud, &structures, 3, 0).unwrap();
    assert_eq!(sel.selected.len(), 3);
    let centers = &sel.voronoi.centers;
    // each selected structure's points all appear among the centers once
    for (p, s) in structures.iter().enumerate() {
        let should_be_center = sel.selected.contains(s);
        let times = centers.iter().filter(|&&c| c == p).count();
        assert_eq!(times, if should_be_center { 1 } else { 0 });
    }
    // one radius entry per added point
    assert_eq!(sel.radii.len(), centers.len());
    assert_eq!(sel.voronoi.n_centers(), sel.radii.len());
}

#[test]
fn decomposer_matches_brute_force_assignment() {
    // pruning is exact: the decomposer's assignment equals a full rescan
    let points: Vec<Vec<i64>> = vec![
        vec![0, 0],
        vec![3, 4],
        vec![-2, 7],
        vec![10, -1],
        vec![5, 5],
        vec![-6, -6],
    ];
    let cloud = PointCloud::new(points.clone(), 2).unwrap();
    let mut dec = VoronoiDecomposer::new(cloud, 0);
    let additions = [3usize, 5, 1];
    for &a in additions.iter() {
        dec.add_point(a);
    }
    let centers = dec.centers.clone();
    let d2 = |p: &Vec<i64>, q: &Vec<i64>| -> i64 {
        p.iter().zip(q.iter()).map(|(a, b)| (a - b) * (a - b)).sum()
    };
    for p in 0..points.len() {
        // brute force: earliest center at minimal distance
        let mut best_c = 0usize;
        let mut best_d = d2(&points[p], &points[centers[0]]);
        for (c, &cp) in centers.iter().enumerate().skip(1) {
            let d = d2(&points[p], &points[cp]);
            if d < best_d {
                best_c = c;
                best_d = d;
            }
        }
        assert_eq!(dec.dist2_to_nearest[p], best_d);
        if centers.contains(&p) {
            assert_eq!(centers[dec.nearest_center[p]], p);
        } else {
            assert_eq!(dec.nearest_center[p], best_c);
        }
    }
}

#[test]
fn radius_never_grows() {
    let points: Vec<Vec<i64>> = vec![vec![0], vec![9], vec![4], vec![7], vec![2]];
    let cloud = PointCloud::new(points, 1).unwrap();
    let mut dec = VoronoiDecomposer::new(cloud, 0);
    let mut history: Vec<Vec<i64>> = vec![dec.cells().radius2];
    for &a in [1usize, 2, 3].iter() {
        dec.add_point(a);
        history.push(dec.cells().radius2);
    }
    for w in history.windows(2) {
        let (earlier, later) = (&w[0], &w[1]);
        for c in 0..earlier.len() {
            assert!(later[c] <= earlier[c]);
        }
    }
}

#[test]
fn cells_snapshot_is_idempotent() {
    let cloud = cloud_1d(&[0, 5, 9, 14]);
    let mut dec = VoronoiDecomposer::new(cloud, 2);
    dec.add_point(0);
    let a = dec.cells();
    let b = dec.cells();
    assert_eq!(a.radius2, b.radius2);
    assert_eq!(a.farthest, b.farthest);
}
