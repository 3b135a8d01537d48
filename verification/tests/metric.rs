use kcomprs::metric::{euclidean_distance_squared, DistanceMetric, MAX_DISTANCE_SQUARED, MAX_WEIGHT};

#[test]
fn distance_squared_of_equal_samples_is_zero() {
    assert_eq!(euclidean_distance_squared(&[1, 2, 3, 4], &[1, 2, 3, 4]), 0);
}

#[test]
fn distance_squared_sums_the_squared_channel_gaps() {
    assert_eq!(euclidean_distance_squared(&[0, 0, 0, 0], &[1, 2, 3, 4]), 30);
    assert_eq!(euclidean_distance_squared(&[10, 20, 30, 40], &[13, 16, 30, 52]), 9 + 16 + 144);
}

#[test]
fn distance_squared_is_symmetric() {
    let a = [200, 3, 77, 255];
    let b = [1, 250, 78, 0];
    assert_eq!(euclidean_distance_squared(&a, &b), euclidean_distance_squared(&b, &a));
}

#[test]
fn distance_squared_reaches_its_maximum_between_opposite_corners() {
    assert_eq!(euclidean_distance_squared(&[0, 0, 0, 0], &[255, 255, 255, 255]), 260100);
    assert_eq!(MAX_DISTANCE_SQUARED, 260100);
}

#[test]
fn distance_squared_is_zero_only_between_equal_samples() {
    assert_ne!(euclidean_distance_squared(&[0, 0, 0, 0], &[0, 0, 0, 1]), 0);
    assert_ne!(euclidean_distance_squared(&[9, 0, 0, 0], &[8, 0, 0, 0]), 0);
}

#[test]
fn euclidean_weight_is_the_squared_distance() {
    let w = DistanceMetric::Euclidean.weight(&[0, 0, 0, 0], &[1, 2, 3, 4]);
    assert_eq!(w, 30);
}

#[test]
fn squared_metric_weight_is_the_fourth_power() {
    let w = DistanceMetric::EuclideanSquared.weight(&[0, 0, 0, 0], &[1, 2, 3, 4]);
    assert_eq!(w, 900);
    let top = DistanceMetric::EuclideanSquared.weight(&[0, 0, 0, 0], &[255, 255, 255, 255]);
    assert_eq!(top, 67652010000);
    assert_eq!(top, MAX_WEIGHT);
}

#[test]
fn metric_names() {
    assert_eq!(
        DistanceMetric::from_name("EuclideanDistanceSquared"),
        DistanceMetric::EuclideanSquared
    );
    assert_eq!(DistanceMetric::from_name("EuclideanDistance"), DistanceMetric::Euclidean);
    assert_eq!(DistanceMetric::from_name("anything"), DistanceMetric::Euclidean);
    assert_eq!(DistanceMetric::from_name(""), DistanceMetric::Euclidean);
}
