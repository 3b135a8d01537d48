use kcomprs::centroid::Centroid;
use kcomprs::cli::{DecodedImage, ProcessImageConfig};
use kcomprs::metric::DistanceMetric;
use kcomprs::model::{FitError, Fraction, Trainer};

fn black_and_white() -> Vec<[u8; 4]> {
    vec![[0, 0, 0, 255], [0, 0, 0, 255], [255, 255, 255, 255], [255, 255, 255, 255]]
}

fn job(colors: usize, round: usize, num: u64, den: u64) -> DecodedImage {
    DecodedImage {
        pixels: black_and_white(),
        width: 2,
        height: 2,
        path: String::from("two.png"),
        config: ProcessImageConfig {
            colors,
            round,
            jpeg: 0,
            output: None,
            overwrite: false,
            metric: DistanceMetric::Euclidean,
            delta: Fraction { num, den },
            palette: false,
        },
    }
}

#[test]
fn two_by_two_image_in_two_colours() {
    let t = Trainer {
        k: 2,
        metric: DistanceMetric::Euclidean,
        max_iterations: 10,
        delta: Fraction { num: 1, den: 2 },
    };
    let model = t.fit_with_seeds(&black_and_white(), &vec![0, 2]).unwrap();
    assert_eq!(model.centroids.len(), 2);
    assert_eq!(model.centroids[0], Centroid { sum: [0, 0, 0, 510], count: 2 });
    assert_eq!(model.centroids[1], Centroid { sum: [510, 510, 510, 510], count: 2 });
    assert_eq!(model.centroids[0].rounded(), [0, 0, 0, 255]);
    assert_eq!(model.centroids[1].rounded(), [255, 255, 255, 255]);
    assert_eq!(model.mapping, vec![0, 0, 1, 1]);
    assert!(model.iter <= 2);
}

#[test]
fn two_by_two_image_seeded_the_other_way_round() {
    let t = Trainer {
        k: 2,
        metric: DistanceMetric::EuclideanSquared,
        max_iterations: 10,
        delta: Fraction { num: 1, den: 2 },
    };
    let model = t.fit_with_seeds(&black_and_white(), &vec![3, 1]).unwrap();
    assert_eq!(model.centroids[0].rounded(), [255, 255, 255, 255]);
    assert_eq!(model.centroids[1].rounded(), [0, 0, 0, 255]);
    assert_eq!(model.centroids[0].count, 2);
    assert_eq!(model.centroids[1].count, 2);
    assert_eq!(model.mapping, vec![1, 1, 0, 0]);
    assert!(model.iter <= 2);
}

#[test]
fn two_by_two_image_with_a_zero_threshold_runs_every_round() {
    // Five in a thousand of four samples is less than one changed label.
    let q = job(2, 10, 5, 1000).quantize_with_seeds(&vec![0, 2]).unwrap();
    assert_eq!(q.model.iter, 10);
    assert_eq!(q.pixels, black_and_white());
}

#[test]
fn quantized_image_keeps_its_size_and_takes_the_colours_of_the_centres() {
    let q = job(2, 10, 1, 2).quantize_with_seeds(&vec![1, 3]).unwrap();
    assert_eq!(q.width, 2);
    assert_eq!(q.height, 2);
    assert_eq!(q.pixels, black_and_white());
    assert!(q.model.iter <= 2);
}

#[test]
fn quantized_image_in_one_colour_is_grey() {
    let q = job(1, 10, 1, 2).quantize().unwrap();
    assert_eq!(q.model.centroids, vec![Centroid { sum: [510, 510, 510, 1020], count: 4 }]);
    assert_eq!(q.pixels, vec![[128, 128, 128, 255]; 4]);
    assert_eq!(q.model.iter, 1);
}

#[test]
fn quantize_with_drawn_seeds_finds_both_colours_or_one() {
    for _ in 0..50 {
        let q = job(2, 10, 1, 2).quantize().unwrap();
        assert_eq!(q.pixels.len(), 4);
        assert_eq!(q.model.centroids.len(), 2);
        for (i, p) in q.pixels.iter().enumerate() {
            assert_eq!(*p, q.model.centroids[q.model.mapping[i]].rounded());
        }
    }
}

#[test]
fn job_with_bad_settings_fails() {
    assert_eq!(job(0, 10, 1, 2).quantize().unwrap_err(), FitError::NoClusters);
    assert_eq!(job(5, 10, 1, 2).quantize().unwrap_err(), FitError::TooManyClusters);
    assert_eq!(job(2, 10, 2, 2).quantize().unwrap_err(), FitError::InvalidDelta);
    assert_eq!(
        job(2, 10, 1, 2).quantize_with_seeds(&vec![0, 9]).unwrap_err(),
        FitError::InvalidSeeds
    );
}
