use daily_ai::grouping::{group_by_cluster, labels_from_raw};
use daily_ai::knn::select_eps;
use hdbscan::{DistanceMetric, Hdbscan, HdbscanHyperParams, NnAlgorithm};

fn two_groups() -> Vec<Vec<i64>> {
    let offsets = [(0, 0), (3, 1), (1, 4), (5, 2), (2, 6), (6, 5)];
    let mut x = Vec::new();
    for &(a, b) in offsets.iter() {
        x.push(vec![a, b]);
    }
    for &(a, b) in offsets.iter() {
        x.push(vec![10_000 + a, 10_000 + b]);
    }
    x
}

#[test]
fn two_separated_groups_end_to_end() {
    let x = two_groups();
    let eps = select_eps(&x, 3).unwrap();
    assert!(eps >= 1);
    let data: Vec<Vec<f64>> = x.iter().map(|r| r.iter().map(|&v| v as f64).collect()).collect();
    let params = HdbscanHyperParams::builder()
        .min_cluster_size(3)
        .epsilon(eps as f64)
        .dist_metric(DistanceMetric::Euclidean)
        .nn_algorithm(NnAlgorithm::Auto)
        .build();
    let raw = Hdbscan::new(&data, params).cluster().unwrap();
    let groups = group_by_cluster(&labels_from_raw(&raw));
    assert_eq!(groups.len(), 2);
    assert!(groups.values().all(|members| members.len() == 6));
    let dropped = raw.iter().filter(|&&l| l < 0).count();
    assert_eq!(dropped, 0);
}
