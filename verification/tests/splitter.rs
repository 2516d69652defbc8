use xmeans::bic::Score;
use xmeans::clustering::Clustering;
use xmeans::points::PointSet;
use xmeans::splitter::{resolve, split_task, Proposal, SPLIT_THRESHOLD};

fn score(x: f64) -> Score {
    Score::from_bits(x.to_bits())
}

fn two_way(centroids: Vec<f64>, labels: Vec<usize>, dim: usize, parent: f64, split: f64) -> Proposal<f64> {
    Proposal {
        split: Clustering::new(centroids, labels, dim, None).unwrap(),
        parent_score: score(parent),
        split_score: score(split),
    }
}

/// Two clusters in one dimension: four points near 1 and two near 9.
fn blobs() -> (PointSet<f64>, Clustering<f64>) {
    let points = PointSet::new(vec![1.0, 9.0, 1.2, 0.8, 9.2, 1.1], 1).unwrap();
    let state = Clustering::new(vec![1.025, 9.1], vec![0, 1, 0, 0, 1, 0], 1, None).unwrap();
    (points, state)
}

#[test]
fn the_threshold_is_two_points() {
    assert_eq!(SPLIT_THRESHOLD, 2);
}

#[test]
fn a_large_cluster_hands_out_its_points() {
    let (points, state) = blobs();
    let task = split_task(&points, &state, 0).unwrap();
    assert_eq!(task.dim(), 1);
    assert_eq!(task.len(), 4);
    assert_eq!(task.as_slice(), &[1.0, 1.2, 0.8, 1.1]);
}

#[test]
fn a_small_cluster_hands_out_nothing() {
    let (points, state) = blobs();
    assert!(split_task(&points, &state, 1).is_none());
    assert!(split_task(&points, &state, 5).is_none());
}

#[test]
fn three_points_are_the_fewest_that_may_be_split() {
    let points = PointSet::new(vec![1.0, 2.0, 3.0, 4.0, 5.0, 6.0], 1).unwrap();
    let state = Clustering::new(vec![0.0, 1.0, 2.0], vec![0, 1, 1, 2, 2, 2], 1, None).unwrap();
    assert!(split_task(&points, &state, 0).is_none());
    assert!(split_task(&points, &state, 1).is_none());
    assert_eq!(split_task(&points, &state, 2).unwrap().as_slice(), &[4.0, 5.0, 6.0]);
}

#[test]
fn tasks_keep_whole_points_of_several_dimensions() {
    let points = PointSet::new(vec![1.0, 1.5, 7.0, 7.5, 2.0, 2.5, 3.0, 3.5], 2).unwrap();
    let state = Clustering::new(vec![2.0, 2.5, 7.0, 7.5], vec![0, 1, 0, 0], 2, None).unwrap();
    let task = split_task(&points, &state, 0).unwrap();
    assert_eq!(task.dim(), 2);
    assert_eq!(task.len(), 3);
    assert_eq!(task.as_slice(), &[1.0, 1.5, 2.0, 2.5, 3.0, 3.5]);
}

#[test]
fn without_a_proposal_the_centroid_stays() {
    let (_, state) = blobs();
    assert_eq!(resolve(&state, 0, None), vec![1.025]);
    assert_eq!(resolve(&state, 1, None), vec![9.1]);
}

#[test]
fn the_lower_score_wins() {
    let (_, state) = blobs();
    let better_split = two_way(vec![0.9, 1.15], vec![0, 1, 0, 1], 1, 12.0, 7.5);
    assert_eq!(resolve(&state, 0, Some(&better_split)), vec![0.9, 1.15]);
    let better_parent = two_way(vec![0.9, 1.15], vec![0, 1, 0, 1], 1, 7.5, 12.0);
    assert_eq!(resolve(&state, 0, Some(&better_parent)), vec![1.025]);
    let negative = two_way(vec![0.9, 1.15], vec![0, 1, 0, 1], 1, -3.0, -2.0);
    assert_eq!(resolve(&state, 0, Some(&negative)), vec![1.025]);
}

#[test]
fn a_tie_goes_to_the_split() {
    let (_, state) = blobs();
    let tie = two_way(vec![0.9, 1.15], vec![0, 1, 0, 1], 1, 4.0, 4.0);
    assert_eq!(resolve(&state, 0, Some(&tie)), vec![0.9, 1.15]);
    let zeros = two_way(vec![0.9, 1.15], vec![0, 1, 0, 1], 1, -0.0, 0.0);
    assert_eq!(resolve(&state, 0, Some(&zeros)), vec![0.9, 1.15]);
}

#[test]
fn a_score_that_is_no_number_lets_the_split_through() {
    let (_, state) = blobs();
    let lost_parent = two_way(vec![0.9, 1.15], vec![0, 1, 0, 1], 1, f64::NAN, 1.0);
    assert_eq!(resolve(&state, 0, Some(&lost_parent)), vec![0.9, 1.15]);
    let lost_split = two_way(vec![0.9, 1.15], vec![0, 1, 0, 1], 1, 1.0, f64::NAN);
    assert_eq!(resolve(&state, 0, Some(&lost_split)), vec![0.9, 1.15]);
}

#[test]
fn a_cluster_at_or_below_the_threshold_is_never_split() {
    let (_, state) = blobs();
    let eager = two_way(vec![9.0, 9.2], vec![0, 1], 1, 100.0, 1.0);
    assert_eq!(resolve(&state, 1, Some(&eager)), vec![9.1]);
    let lone = Clustering::new(vec![5.0, 6.0], vec![0], 1, None).unwrap();
    let for_one = two_way(vec![4.0, 6.0], vec![0], 1, 100.0, 1.0);
    assert_eq!(resolve(&lone, 0, Some(&for_one)), vec![5.0]);
    let for_none = two_way(vec![4.0, 6.0], vec![], 1, 100.0, 1.0);
    assert_eq!(resolve(&lone, 1, Some(&for_none)), vec![6.0]);
}

#[test]
fn a_proposal_that_is_no_split_of_the_cluster_is_not_heard() {
    let (_, state) = blobs();
    let three_way = two_way(vec![0.8, 1.0, 1.2], vec![0, 1, 2, 1], 1, 100.0, 1.0);
    assert_eq!(resolve(&state, 0, Some(&three_way)), vec![1.025]);
    let one_way = two_way(vec![1.0], vec![0, 0, 0, 0], 1, 100.0, 1.0);
    assert_eq!(resolve(&state, 0, Some(&one_way)), vec![1.025]);
    let other_shape = two_way(vec![0.8, 1.0, 1.2, 1.4], vec![0, 1, 0, 1], 2, 100.0, 1.0);
    assert_eq!(resolve(&state, 0, Some(&other_shape)), vec![1.025]);
    let other_points = two_way(vec![0.9, 1.15], vec![0, 1, 0], 1, 100.0, 1.0);
    assert_eq!(resolve(&state, 0, Some(&other_points)), vec![1.025]);
}

#[test]
fn a_split_of_points_of_several_dimensions_gives_two_whole_centroids() {
    let state = Clustering::new(vec![2.0, 2.5, 7.0, 7.5], vec![0, 1, 0, 0], 2, None).unwrap();
    let split = Proposal {
        split: Clustering::new(vec![1.0, 1.5, 2.5, 3.0], vec![0, 1, 1], 2, None).unwrap(),
        parent_score: score(3.0),
        split_score: score(2.0),
    };
    assert_eq!(resolve(&state, 0, Some(&split)), vec![1.0, 1.5, 2.5, 3.0]);
    assert_eq!(resolve(&state, 1, Some(&split)), vec![7.0, 7.5]);
}
