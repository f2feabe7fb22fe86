use daily_ai::error::ClassifyError;
use daily_ai::kmeans::{kmeans_single_lloyd, lloyd_iteration};
use daily_ai::model::{Knn, KnnInit};

fn ones(n: usize) -> Vec<i64> {
    vec![1; n]
}

#[test]
fn kmeans_lloyd_matches_two_cluster_example() {
    let x = vec![
        vec![1, 2],
        vec![1, 4],
        vec![1, 0],
        vec![10, 2],
        vec![10, 4],
        vec![10, 0],
    ];
    let sample_weight = ones(x.len());
    let centers_init = vec![vec![1, 2], vec![10, 2]];

    let (labels, inertia, centers, n_iter) =
        kmeans_single_lloyd(&x, &sample_weight, &centers_init, 2, 20, 0);

    assert!(n_iter > 0);
    assert_eq!(labels, vec![0, 0, 0, 1, 1, 1]);
    assert_eq!(centers, vec![vec![1, 2], vec![10, 2]]);
    assert_eq!(inertia, 16);
}

// Coordinates are fixed point with one unit worth 1/2: 1.5 is written 3.
#[test]
fn kmeans_respects_sample_weights() {
    let x = vec![vec![0], vec![4], vec![20]];
    let sample_weight = vec![1, 3, 1];
    let centers_init = vec![vec![0], vec![20]];

    let (labels, inertia, centers, _) =
        kmeans_single_lloyd(&x, &sample_weight, &centers_init, 1, 20, 0);

    assert_eq!(labels, vec![0, 0, 1]);
    assert_eq!(centers, vec![vec![3], vec![20]]);
    // 3.0 in squared units of 1/2.
    assert_eq!(inertia, 12);
}

#[test]
fn lloyd_iter_labels_without_updating_centers() {
    let x = vec![vec![0], vec![9], vec![10], vec![11]];
    let sample_weight = ones(x.len());
    let centers_old = vec![vec![0], vec![10]];

    let (centers_new, weight_in_clusters, labels, center_shift) =
        lloyd_iteration(&x, &sample_weight, &centers_old, 1, false);

    assert_eq!(labels, vec![0, 1, 1, 1]);
    assert_eq!(centers_new, centers_old);
    assert!(weight_in_clusters.iter().all(|w| *w == 0));
    assert!(center_shift.iter().all(|s| *s == 0));
}

#[test]
fn chunked_iteration_handles_multiple_chunks() {
    let mut x = Vec::with_capacity(270);
    for _ in 0..135 {
        x.push(vec![0]);
    }
    for _ in 0..135 {
        x.push(vec![10]);
    }
    let sample_weight = ones(x.len());
    let centers_init = vec![vec![0], vec![10]];

    let (labels, _inertia, centers, _) =
        kmeans_single_lloyd(&x, &sample_weight, &centers_init, 1, 30, 0);

    assert_eq!(centers, vec![vec![0], vec![10]]);
    let count_cluster0 = labels.iter().filter(|&&l| l == 0).count();
    let count_cluster1 = labels.iter().filter(|&&l| l == 1).count();
    assert_eq!((count_cluster0, count_cluster1), (135, 135));
}

#[test]
fn lloyd_iteration_updates_centers_and_weights() {
    let x = vec![vec![0], vec![2], vec![10], vec![14]];
    let sample_weight = vec![1, 1, 2, 2];
    let centers_old = vec![vec![1], vec![9]];
    let (centers_new, weights, labels, shifts) =
        lloyd_iteration(&x, &sample_weight, &centers_old, 1, true);
    assert_eq!(labels, vec![0, 0, 1, 1]);
    assert_eq!(weights, vec![2, 4]);
    assert_eq!(centers_new, vec![vec![1], vec![12]]);
    assert_eq!(shifts, vec![0, 9]);
}

#[test]
fn empty_cluster_keeps_its_center() {
    let x = vec![vec![0], vec![1]];
    let sample_weight = ones(2);
    let centers_init = vec![vec![0], vec![100]];
    let (labels, inertia, centers, _) =
        kmeans_single_lloyd(&x, &sample_weight, &centers_init, 1, 10, 0);
    assert_eq!(labels, vec![0, 0]);
    assert_eq!(centers, vec![vec![1], vec![100]]);
    assert_eq!(inertia, 1);
}

#[test]
fn ties_go_to_the_lowest_center() {
    let x = vec![vec![5]];
    let (labels, _, _, _) = kmeans_single_lloyd(&x, &ones(1), &vec![vec![0], vec![10]], 1, 0, 0);
    assert_eq!(labels, vec![0]);
}

#[test]
fn rounding_goes_to_the_nearest_value() {
    // mean of 0, 0, 1 is 1/3: rounds to 0; mean of 0, 1, 1 is 2/3: rounds to 1
    let x = vec![vec![0], vec![0], vec![1], vec![100], vec![101], vec![101]];
    let (_, _, centers, _) =
        kmeans_single_lloyd(&x, &ones(6), &vec![vec![0], vec![100]], 1, 1, 0);
    assert_eq!(centers, vec![vec![0], vec![101]]);
}

#[test]
fn fit_gives_one_label_per_point_below_k() {
    let x = vec![
        vec![0, 0],
        vec![1, 0],
        vec![0, 1],
        vec![50, 50],
        vec![51, 50],
        vec![50, 51],
    ];
    let mut knn = Knn::new(2);
    knn.set_init(KnnInit::KMeansPlusPlus(3));
    let draws: Vec<u32> = (0..100u32).map(|i| i.wrapping_mul(2_654_435_761)).collect();
    knn.fit(&x, &draws).unwrap();
    let labels = knn.labels().unwrap();
    assert_eq!(labels.len(), 6);
    assert!(labels.iter().all(|l| *l < 2));
    assert_eq!(knn.centers().unwrap().len(), 2);
    assert_ne!(labels[0], labels[3]);
    assert_eq!(labels[0], labels[1]);
    assert_eq!(labels[3], labels[5]);
}

#[test]
fn fit_is_deterministic_for_fixed_draws() {
    let x = vec![vec![3], vec![7], vec![1], vec![9], vec![40], vec![44], vec![41]];
    let draws: Vec<u32> = (0..200u32).map(|i| i.wrapping_mul(2_246_822_519)).collect();
    let mut a = Knn::new(3);
    let mut b = Knn::new(3);
    a.fit(&x, &draws).unwrap();
    b.fit(&x, &draws).unwrap();
    assert_eq!(a.labels(), b.labels());
    assert_eq!(a.centers(), b.centers());
    assert_eq!(a.inertia(), b.inertia());
}

#[test]
fn fit_rejects_bad_shapes_and_k() {
    let draws = vec![0u32; 100];
    let mut knn = Knn::new(2);
    assert_eq!(knn.fit(&vec![], &draws), Err(ClassifyError::EmptyMatrix));
    assert_eq!(knn.fit(&vec![vec![1, 2], vec![3]], &draws), Err(ClassifyError::RaggedRows));
    assert!(knn.labels().is_none());
    knn.set_k(0);
    assert_eq!(knn.fit(&vec![vec![1]], &draws), Err(ClassifyError::NoClusters));
    assert!(knn.labels().is_none());
}

#[test]
fn n_init_defaults() {
    assert_eq!(KnnInit::Random(0).n_init(), 10);
    assert_eq!(KnnInit::KMeansPlusPlus(0).n_init(), 1);
    let mut init = KnnInit::Random(0);
    init.set_n_init(4);
    assert_eq!(init, KnnInit::Random(4));
    assert_eq!(init.n_init(), 4);
}

#[test]
fn wcss_computes_expected_per_cluster() {
    // centers 1.5 and 8.5 written at scale 2
    let mut knn = Knn::new(8);
    knn.cluster_centers = Some(vec![vec![3, 3], vec![17, 17]]);
    knn.labels = Some(vec![0, 0, 1, 1]);

    let x = vec![vec![2, 2], vec![4, 4], vec![16, 16], vec![18, 18]];
    let wcss = knn.wcss(&x).unwrap();
    // 1.0 per cluster in squared units of 1/2
    assert_eq!(wcss, vec![4, 4]);
}

#[test]
fn wcss_returns_none_on_mismatched_shapes() {
    let mut knn = Knn::new(8);
    knn.cluster_centers = Some(vec![vec![0, 0]]);
    knn.labels = Some(vec![0, 0]);

    let x = vec![vec![1, 1]];
    assert!(knn.wcss(&x).is_none());
}

#[test]
fn distances_returns_k_neighbors_per_sample() {
    let mut knn = Knn::new(8);
    knn.set_k(2);
    let x = vec![vec![0], vec![1], vec![3]];

    let dists = knn.distances(&x).unwrap();

    let expected = vec![
        vec![1, 3], // from 0 -> neighbors at 1 and 3
        vec![1, 2], // from 1 -> neighbors at 0 and 3
        vec![2, 3], // from 3 -> neighbors at 1 and 0
    ];
    assert_eq!(dists, expected);
}

#[test]
fn inertia_never_grows_over_iterations() {
    let x = vec![
        vec![0, 0],
        vec![2, 1],
        vec![9, 9],
        vec![10, 8],
        vec![4, 5],
        vec![20, 1],
        vec![21, 3],
    ];
    let w = vec![1, 2, 1, 1, 3, 1, 1];
    let init = vec![vec![0, 0], vec![2, 1], vec![4, 5]];
    let mut last = i128::MAX;
    for it in 1..6 {
        let (_, inertia, _, _) = kmeans_single_lloyd(&x, &w, &init, 2, it, -1);
        assert!(inertia <= last);
        last = inertia;
    }
}

#[test]
fn transform_fits_first_and_measures_centers() {
    let x = vec![vec![0], vec![2], vec![10], vec![12]];
    let mut knn = Knn::default();
    knn.set_k(2);
    knn.set_init(KnnInit::Random(1));
    // picks points 0 and 2 as the first centers
    let draws = vec![0u32, 0x8000_0000];
    let d = knn.transform(&x, &draws).unwrap();
    assert_eq!(knn.centers().unwrap(), vec![vec![1], vec![11]]);
    assert_eq!(d, vec![vec![1, 1, 9, 11], vec![11, 9, 1, 1]]);
    assert_eq!(knn.inertia(), Some(4));
}

#[test]
fn counts_non_empty_clusters() {
    let mut knn = Knn::new(3);
    assert_eq!(knn.n_nonempty_clusters(), None);
    knn.cluster_centers = Some(vec![vec![0], vec![5], vec![9]]);
    knn.labels = Some(vec![0, 2, 0, 2]);
    assert_eq!(knn.n_nonempty_clusters(), Some(2));
}

#[test]
fn large_sample_weights() {
    let x = vec![vec![0], vec![10]];
    let w = vec![1_000_000, 1];
    let (labels, inertia, centers, _) = kmeans_single_lloyd(&x, &w, &vec![vec![5]], 1, 5, 0);
    assert_eq!(labels, vec![0, 0]);
    // weighted mean 10 / 1_000_001 rounds to 0
    assert_eq!(centers, vec![vec![0]]);
    assert_eq!(inertia, 100);
}

#[test]
fn transform_rejects_mismatched_dimensions() {
    let mut knn = Knn::new(1);
    knn.cluster_centers = Some(vec![vec![0, 0]]);
    knn.labels = Some(vec![0]);
    knn.inertia = Some(0);
    knn.n_iter = Some(1);
    assert_eq!(knn.transform(&vec![vec![1]], &vec![]), Err(ClassifyError::RaggedRows));
    assert_eq!(knn.transform(&vec![vec![3, 4]], &vec![]), Ok(vec![vec![5]]));
}

#[test]
fn fit_with_more_clusters_than_points() {
    let x = vec![vec![0], vec![10]];
    let mut knn = Knn::new(3);
    knn.set_init(KnnInit::Random(1));
    knn.fit(&x, &vec![0u32, 0x8000_0000, 0xC000_0000]).unwrap();
    assert_eq!(knn.labels(), Some(vec![0, 1]));
    assert_eq!(knn.centers(), Some(vec![vec![0], vec![10], vec![10]]));
    assert_eq!(knn.n_nonempty_clusters(), Some(2));
}
