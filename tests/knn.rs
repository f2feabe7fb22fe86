use std::collections::HashMap;

use daily_ai::error::ClassifyError;
use daily_ai::grouping::{group_by_cluster, labels_from_raw, split_small_groups};
use daily_ai::knn::{elbow_kneedle, k_distances, select_eps};
use daily_ai::linalg::integer_sqrt;

#[test]
fn elbow_picks_the_point_farthest_from_the_chord() {
    // chord from (0,1) to (6,12); the point (3,1) lies farthest from it
    assert_eq!(elbow_kneedle(&vec![1, 1, 1, 1, 10, 11, 12]), 1);
}

#[test]
fn elbow_on_a_sharp_knee() {
    assert_eq!(elbow_kneedle(&vec![0, 0, 0, 0, 0, 100]), 0);
    assert_eq!(elbow_kneedle(&vec![0, 1, 2, 3, 50, 100]), 3);
}

#[test]
fn elbow_of_one_value_and_of_a_line() {
    assert_eq!(elbow_kneedle(&vec![7]), 7);
    // every point on the chord: the first one wins
    assert_eq!(elbow_kneedle(&vec![2, 4, 6, 8]), 2);
}

#[test]
fn k_distances_exclude_self_and_sort() {
    let x = vec![vec![0, 0], vec![0, 3], vec![4, 0], vec![0, 0]];
    let d = k_distances(&x, 2).unwrap();
    assert_eq!(d[0], vec![0, 3]);
    assert_eq!(d[1], vec![3, 3]);
    assert_eq!(d[2], vec![4, 4]);
    assert_eq!(d[3], vec![0, 3]);
}

#[test]
fn k_distances_errors() {
    assert_eq!(k_distances(&vec![vec![1], vec![2]], 2), Err(ClassifyError::TooManyNeighbours));
    assert_eq!(k_distances(&vec![], 0), Err(ClassifyError::EmptyMatrix));
    assert_eq!(k_distances(&vec![vec![1], vec![]], 0), Err(ClassifyError::RaggedRows));
}

#[test]
fn select_eps_on_two_groups() {
    let mut x = Vec::new();
    for i in 0..6 {
        x.push(vec![i, 0]);
    }
    for i in 0..6 {
        x.push(vec![1000 + i, 1000]);
    }
    let eps = select_eps(&x, 3).unwrap();
    // third-nearest distances: 2 for the inner points, 3 at the ends
    assert_eq!(eps, 2);
}

#[test]
fn select_eps_floors_at_one() {
    let x = vec![vec![5, 5]; 4];
    assert_eq!(select_eps(&x, 1), Ok(1));
    assert_eq!(select_eps(&x, 0), Err(ClassifyError::TooManyNeighbours));
}

#[test]
fn grouping_drops_noise() {
    let labels = vec![Some(1), None, Some(0), Some(1), None];
    let groups = group_by_cluster(&labels);
    let mut expected = HashMap::new();
    expected.insert(1, vec![0, 3]);
    expected.insert(0, vec![2]);
    assert_eq!(groups, expected);
    assert!(group_by_cluster(&vec![None, None]).is_empty());
}

#[test]
fn raw_labels_mark_noise() {
    assert_eq!(labels_from_raw(&vec![-1, 0, 2, -5]), vec![None, Some(0), Some(2), None]);
}

#[test]
fn small_groups_go_to_misc() {
    let groups = vec![(4, vec![0, 1, 2]), (1, vec![3]), (2, vec![]), (7, vec![5, 6])];
    let (kept, misc) = split_small_groups(&groups, 3);
    assert_eq!(kept, vec![(4, vec![0, 1, 2])]);
    assert_eq!(misc, vec![3, 5, 6]);
}

#[test]
fn select_eps_uses_distances_not_squares() {
    // nearest distances 1, 1, 2, 2, 3, 3: the elbow is the first 1; on the
    // squares 1, 1, 4, 4, 9, 9 it would be 4
    let x = vec![vec![0], vec![1], vec![10], vec![12], vec![30], vec![33]];
    assert_eq!(select_eps(&x, 1), Ok(1));
}

#[test]
fn integer_square_roots() {
    assert_eq!(integer_sqrt(0), 0);
    assert_eq!(integer_sqrt(-5), 0);
    assert_eq!(integer_sqrt(15), 3);
    assert_eq!(integer_sqrt(16), 4);
    assert_eq!(integer_sqrt(i64::MAX), 3_037_000_499);
}

#[test]
fn k_distances_round_down_to_whole_units() {
    // distances 1, sqrt(2) and sqrt(5) from the origin
    let x = vec![vec![0, 0], vec![1, 0], vec![1, 1], vec![2, 1]];
    let d = k_distances(&x, 3).unwrap();
    assert_eq!(d[0], vec![1, 1, 2]);
}
