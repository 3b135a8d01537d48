use kcomprs::metric::DistanceMetric;
use kcomprs::model::Model;
use kcomprs::seeding::{pick_weighted, seeding_weights, total_weight};

#[test]
fn weights_are_the_squared_distance_to_the_nearest_seed() {
    let data = vec![[0, 0, 0, 0], [3, 4, 0, 0], [10, 0, 0, 0], [0, 0, 0, 1]];
    let one = seeding_weights(DistanceMetric::Euclidean, &data, &vec![0]);
    assert_eq!(one, vec![0, 25, 100, 1]);
    let two = seeding_weights(DistanceMetric::Euclidean, &data, &vec![0, 2]);
    assert_eq!(two, vec![0, 25, 0, 1]);
    let three = seeding_weights(DistanceMetric::Euclidean, &data, &vec![2, 1, 3]);
    assert_eq!(three, vec![1, 0, 0, 0]);
}

#[test]
fn weights_of_the_squared_metric_are_fourth_powers() {
    let data = vec![[0, 0, 0, 0], [3, 4, 0, 0], [10, 0, 0, 0], [0, 0, 0, 1]];
    let one = seeding_weights(DistanceMetric::EuclideanSquared, &data, &vec![0]);
    assert_eq!(one, vec![0, 625, 10000, 1]);
}

#[test]
fn total_weight_adds_up() {
    assert_eq!(total_weight(&vec![]), 0);
    assert_eq!(total_weight(&vec![0, 25, 100, 1]), 126);
    assert_eq!(total_weight(&vec![u64::MAX, u64::MAX, 2]), 2 * (u64::MAX as u128) + 2);
}

#[test]
fn pick_takes_the_first_sample_whose_running_sum_reaches_the_threshold() {
    let w = vec![0, 25, 100, 1];
    assert_eq!(pick_weighted(&w, 0), 0);
    assert_eq!(pick_weighted(&w, 1), 1);
    assert_eq!(pick_weighted(&w, 25), 1);
    assert_eq!(pick_weighted(&w, 26), 2);
    assert_eq!(pick_weighted(&w, 125), 2);
    assert_eq!(pick_weighted(&w, 126), 3);
}

#[test]
fn pick_among_zero_weights_is_the_first() {
    assert_eq!(pick_weighted(&vec![0, 0, 0], 0), 0);
    assert_eq!(pick_weighted(&vec![7], 7), 0);
}

#[test]
fn seeds_are_samples_of_the_dataset() {
    let data: Vec<[u8; 4]> = (0..50u8).map(|i| [i, 2 * i, 255 - i, 255]).collect();
    for _ in 0..200 {
        let seeds = Model::initialize_mean(DistanceMetric::Euclidean, &data, 5);
        assert_eq!(seeds.len(), 5);
        assert!(seeds.iter().all(|&s| s < data.len()));
    }
}

#[test]
fn a_single_sample_is_its_own_seed() {
    let data = vec![[1, 2, 3, 4]];
    for _ in 0..50 {
        assert_eq!(Model::initialize_mean(DistanceMetric::EuclideanSquared, &data, 1), vec![0]);
    }
}

#[test]
fn first_seed_is_drawn_from_the_whole_dataset() {
    let data: Vec<[u8; 4]> = (0..4u8).map(|i| [i, 0, 0, 0]).collect();
    let mut seen = [false; 4];
    for _ in 0..2000 {
        let seeds = Model::initialize_mean(DistanceMetric::Euclidean, &data, 1);
        seen[seeds[0]] = true;
    }
    assert_eq!(seen, [true; 4]);
}

#[test]
fn a_far_sample_is_seeded_nearly_always() {
    // One sample in three lies far away: its weight is all of the total
    // unless it was drawn first.
    let data = vec![[0, 0, 0, 0], [0, 0, 0, 0], [255, 255, 255, 255]];
    let mut both = 0;
    for _ in 0..200 {
        let seeds = Model::initialize_mean(DistanceMetric::Euclidean, &data, 2);
        let far = seeds.iter().filter(|&&s| s == 2).count();
        if far == 1 {
            both += 1;
        }
    }
    assert!(both >= 190);
}
