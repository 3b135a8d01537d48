use kcomprs::centroid::{Centroid, MAX_SAMPLES};

#[test]
fn centre_on_a_sample() {
    let c = Centroid::at(&[7, 0, 255, 128]);
    assert_eq!(c.sum, [7, 0, 255, 128]);
    assert_eq!(c.count, 1);
}

#[test]
fn closer_compares_exact_distances() {
    let near = Centroid::at(&[10, 10, 10, 255]);
    let far = Centroid::at(&[20, 10, 10, 255]);
    let x = [12, 10, 10, 255];
    assert!(near.closer(&far, &x));
    assert!(!far.closer(&near, &x));
}

#[test]
fn closer_is_strict_on_a_tie() {
    let left = Centroid::at(&[10, 0, 0, 0]);
    let right = Centroid::at(&[20, 0, 0, 0]);
    let middle = [15, 0, 0, 0];
    assert!(!left.closer(&right, &middle));
    assert!(!right.closer(&left, &middle));
}

#[test]
fn closer_with_fractional_means() {
    // The means are 10.5 and 11 in the first channel; 10.7 is nearer to 10.5,
    // which no sample can be, but 11 is nearer to 11 and 10 nearer to 10.5.
    let half = Centroid { sum: [21, 0, 0, 0], count: 2 };
    let whole = Centroid { sum: [33, 0, 0, 0], count: 3 };
    assert!(half.closer(&whole, &[10, 0, 0, 0]));
    assert!(whole.closer(&half, &[11, 0, 0, 0]));
    // A third is nearer to zero than a half is.
    let third = Centroid { sum: [1, 0, 0, 0], count: 3 };
    let one_half = Centroid { sum: [1, 0, 0, 0], count: 2 };
    assert!(third.closer(&one_half, &[0, 0, 0, 0]));
    assert!(one_half.closer(&third, &[1, 0, 0, 0]));
}

#[test]
fn closer_sees_a_difference_of_one_part_in_the_largest_count() {
    let n = MAX_SAMPLES as u64;
    let a = Centroid { sum: [100 * n, 0, 0, 0], count: n };
    let b = Centroid { sum: [100 * n + 1, 0, 0, 0], count: n };
    assert!(a.closer(&b, &[0, 0, 0, 0]));
    assert!(b.closer(&a, &[255, 0, 0, 0]));
    assert!(!a.closer(&a, &[255, 0, 0, 0]));
}

#[test]
fn closer_at_the_largest_values() {
    let n = MAX_SAMPLES as u64;
    let dark = Centroid { sum: [0, 0, 0, 0], count: n };
    let bright = Centroid { sum: [255 * n, 255 * n, 255 * n, 255 * n], count: n };
    assert!(bright.closer(&dark, &[255, 255, 255, 255]));
    assert!(dark.closer(&bright, &[0, 0, 0, 0]));
}

#[test]
fn rounded_rounds_to_the_nearest() {
    let c = Centroid { sum: [10, 11, 14, 765], count: 3 };
    // 3.33, 3.67, 4.67, 255
    assert_eq!(c.rounded(), [3, 4, 5, 255]);
}

#[test]
fn rounded_rounds_a_half_up() {
    let c = Centroid { sum: [1, 5, 255, 509], count: 2 };
    // 0.5, 2.5, 127.5, 254.5
    assert_eq!(c.rounded(), [1, 3, 128, 255]);
}

#[test]
fn rounded_of_a_sample_is_the_sample() {
    let x = [0, 1, 254, 255];
    assert_eq!(Centroid::at(&x).rounded(), x);
}
