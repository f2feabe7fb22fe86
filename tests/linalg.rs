use daily_ai::error::ClassifyError;
use daily_ai::linalg::{
    check_matrix, euclidean_distances, integer_sqrt, kth_by_column, pairwize_euclidean_distances, row_norms,
    sort_values, squared_distance,
};
use daily_ai::seeding::{default_local_trials, kmeans_plus_plus, random_init, searchsorted_weighted};

#[test]
fn euclidean_distances_self_matches_manual() {
    let a = vec![vec![0, 0], vec![3, 4]];
    let dists = euclidean_distances(&a, &a, 2, true);
    assert_eq!(dists, vec![vec![0, 25], vec![25, 0]]);
}

#[test]
fn pairwise_euclidean_distances_with_optional_y() {
    let x = vec![vec![0], vec![2]];
    let y = vec![vec![1]];
    let dists = pairwize_euclidean_distances(&x, Some(&y), 1, false);
    assert_eq!(dists, vec![vec![1], vec![1]]); // distances: |0-1| and |2-1|
    let own = pairwize_euclidean_distances(&x, None, 1, true);
    assert_eq!(own, vec![vec![0, 4], vec![4, 0]]);
    let own = pairwize_euclidean_distances(&x, None, 1, false);
    assert_eq!(own, vec![vec![0, 2], vec![2, 0]]);
}

#[test]
fn kth_by_column_selects_kth_smallest() {
    let x = vec![vec![3, 1, 2], vec![4, 5, 0]];
    let kth = kth_by_column(&x, 1);
    assert_eq!(kth, vec![4, 5, 2]);
}

// Values doubled so that the thresholds are whole numbers.
#[test]
fn searchsorted_weighted_matches_cumsum_behavior() {
    let sample_weight = vec![1, 2];
    let closest_dist_sq = vec![vec![2, 6], vec![4, 8]];
    // weighted = [[2,6],[8,16]] => flat cumsum = [2,8,16,32]
    let rand_vals = vec![1, 2, 10, 30];

    let result = searchsorted_weighted(&sample_weight, &closest_dist_sq, 2, &rand_vals);

    assert_eq!(result, vec![0, 0, 2, 3]);
}

#[test]
fn searchsorted_past_the_end() {
    let result = searchsorted_weighted(&vec![1], &vec![vec![3]], 1, &vec![4, 3, 0]);
    assert_eq!(result, vec![1, 0, 0]);
}

#[test]
fn row_norms_squared_and_unsquared() {
    let x = vec![vec![3, 4], vec![1, 2]];
    let squared = row_norms(&x);
    assert_eq!(squared, vec![25, 5]);
    // unsquared norms 5 and sqrt(5), in whole units
    assert_eq!(integer_sqrt(squared[0]), 5);
    assert_eq!(integer_sqrt(squared[1]), 2);
}

#[test]
fn squared_distance_exact() {
    assert_eq!(squared_distance(&vec![1, -2, 3], &vec![-1, 2, 3]), 20);
    assert_eq!(squared_distance(&vec![], &vec![]), 0);
}

#[test]
fn sort_values_ascending_with_duplicates() {
    assert_eq!(sort_values(&vec![3, -1, 3, 0, -7]), vec![-7, -1, 0, 3, 3]);
    assert_eq!(sort_values(&vec![]), Vec::<i64>::new());
}

#[test]
fn check_matrix_reports_each_shape_error() {
    assert_eq!(check_matrix(&vec![]), Err(ClassifyError::EmptyMatrix));
    assert_eq!(check_matrix(&vec![vec![]]), Err(ClassifyError::EmptyMatrix));
    assert_eq!(check_matrix(&vec![vec![1], vec![1, 2]]), Err(ClassifyError::RaggedRows));
    assert_eq!(check_matrix(&vec![vec![1, 2], vec![3, 4]]), Ok(2));
}

#[test]
fn local_trials_grow_with_log_k() {
    assert_eq!(default_local_trials(1), 2);
    assert_eq!(default_local_trials(2), 2);
    assert_eq!(default_local_trials(3), 3);
    assert_eq!(default_local_trials(8), 4);
    assert_eq!(default_local_trials(25), 5);
}

#[test]
fn random_init_picks_rows_by_draw() {
    let x = vec![vec![0], vec![10], vec![20], vec![30]];
    // draws read as fractions of 2^32: 0, 1/2, 3/4 and just under 1
    let draws = vec![0u32, 0x8000_0000, 0xC000_0000, u32::MAX];
    let centers = random_init(&x, 1, 4, &draws);
    assert_eq!(centers, vec![vec![0], vec![20], vec![30], vec![30]]);
}

#[test]
fn kmeans_plus_plus_prefers_far_points() {
    let x = vec![vec![0], vec![1], vec![100]];
    let w = vec![1, 1, 1];
    // first center: point 0; one trial whose draw lands in the mass of point 2
    let draws = vec![0u32, 0xFFFF_0000];
    let (centers, idx) = kmeans_plus_plus(&x, 1, 2, &w, &draws, 1);
    assert_eq!(idx, vec![0, 2]);
    assert_eq!(centers, vec![vec![0], vec![100]]);
}
