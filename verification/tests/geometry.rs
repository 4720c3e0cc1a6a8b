use voronoi_fps::{count_distinct, find_max, PointCloud, COORD_LIMIT, MAX_DIM};

#[test]
fn squared_distance_exact_values() {
    let cloud = PointCloud::new(vec![vec![0, 0], vec![3, 4], vec![-3, -4]], 2).unwrap();
    assert_eq!(cloud.squared_distance(0, 1), 25);
    assert_eq!(cloud.squared_distance(1, 0), 25);
    assert_eq!(cloud.squared_distance(1, 2), 100);
    assert_eq!(cloud.squared_distance(2, 2), 0);
}

#[test]
fn squared_distance_extreme_coordinates() {
    let cloud = PointCloud::new(
        vec![vec![COORD_LIMIT, COORD_LIMIT], vec![-COORD_LIMIT, -COORD_LIMIT]],
        2,
    )
    .unwrap();
    assert_eq!(cloud.squared_distance(0, 1), 8_000_000_000_000);
}

#[test]
fn cloud_rejects_ragged_rows() {
    assert!(PointCloud::new(vec![vec![1, 2], vec![3]], 2).is_none());
}

#[test]
fn cloud_rejects_out_of_range_coordinate() {
    assert!(PointCloud::new(vec![vec![COORD_LIMIT + 1]], 1).is_none());
    assert!(PointCloud::new(vec![vec![-COORD_LIMIT - 1]], 1).is_none());
    assert!(PointCloud::new(vec![vec![COORD_LIMIT]], 1).is_some());
}

#[test]
fn cloud_rejects_oversized_dimension() {
    let row: Vec<i64> = vec![0; MAX_DIM + 1];
    assert!(PointCloud::new(vec![row], MAX_DIM + 1).is_none());
}

#[test]
fn cloud_accepts_empty() {
    let cloud = PointCloud::new(Vec::new(), 3).unwrap();
    assert_eq!(cloud.len(), 0);
    assert_eq!(cloud.dim(), 3);
}

#[test]
fn find_max_reports_position_and_value() {
    assert_eq!(find_max(&vec![0, 100]), (1, 100));
    assert_eq!(find_max(&vec![7]), (0, 7));
    assert_eq!(find_max(&vec![-5, -2, -9]), (1, -2));
}

#[test]
fn find_max_tie_picks_earliest() {
    // equal radii: the earliest-selected cell must win every time
    assert_eq!(find_max(&vec![4, 9, 9, 1]), (1, 9));
    assert_eq!(find_max(&vec![3, 3, 3]), (0, 3));
}

#[test]
fn count_distinct_values() {
    assert_eq!(count_distinct(&vec![]), 0);
    assert_eq!(count_distinct(&vec![5, 5, 5]), 1);
    assert_eq!(count_distinct(&vec![0, 0, 1, 2, 2]), 3);
    assert_eq!(count_distinct(&vec![4, 1, 4, 1, 7]), 3);
}
