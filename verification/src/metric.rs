//! Samples and the distance between them.

use vstd::prelude::*;

verus! {

/// One pixel: red, green, blue and alpha.
pub type Sample = [u8; 4];

/// The pixels of an image in row-major order.
pub type Dataset = Vec<Sample>;

/// The largest squared distance between two samples: four channels that
/// differ by 255 each.
pub const MAX_DISTANCE_SQUARED: u32 = 260100;

/// The square of an integer.
pub open spec fn square(x: int) -> int {
    x * x
}

/// The squared Euclidean distance between two samples.
pub open spec fn distance_squared(a: Sample, b: Sample) -> int {
    square(a[0] - b[0]) + square(a[1] - b[1]) + square(a[2] - b[2]) + square(a[3] - b[3])
}

/// A squared channel difference is at most 255 squared.
pub proof fn lemma_square_of_difference(x: u8, y: u8)
    ensures
        0 <= square(x - y) <= 65025,
        square(x - y) == square(y - x),
        square(x - y) == 0 <==> x == y,
{
    let d = x - y;
    assert(0 <= d * d <= 65025 && d * d == (-d) * (-d) && (d * d == 0 <==> d == 0))
        by (nonlinear_arith)
        requires
            -255 <= d <= 255,
    ;
}

fn channel_gap(x: u8, y: u8) -> (r: u32)
    ensures
        r == square(x - y),
{
    proof {
        lemma_square_of_difference(x, y);
    }
    let d: u32 = if x >= y {
        (x - y) as u32
    } else {
        (y - x) as u32
    };
    assert(d * d == square(x - y)) by (nonlinear_arith)
        requires
            d == x - y || d == y - x,
    ;
    d * d
}

/// Squared Euclidean distance: the sum over the four channels of the squared
/// difference.
pub fn euclidean_distance_squared(a: &Sample, b: &Sample) -> (d: u32)
    ensures
        d == distance_squared(*a, *b),
        d <= MAX_DISTANCE_SQUARED,
{
    proof {
        lemma_square_of_difference(a[0], b[0]);
        lemma_square_of_difference(a[1], b[1]);
        lemma_square_of_difference(a[2], b[2]);
        lemma_square_of_difference(a[3], b[3]);
    }
    channel_gap(a[0], b[0]) + channel_gap(a[1], b[1]) + channel_gap(a[2], b[2]) + channel_gap(
        a[3],
        b[3],
    )
}

/// The distance is symmetric, never negative, and zero only between equal
/// samples.
pub proof fn lemma_distance_is_a_metric(a: Sample, b: Sample)
    ensures
        distance_squared(a, b) == distance_squared(b, a),
        0 <= distance_squared(a, b) <= MAX_DISTANCE_SQUARED,
        distance_squared(a, b) == 0 <==> a == b,
{
    lemma_square_of_difference(a[0], b[0]);
    lemma_square_of_difference(a[1], b[1]);
    lemma_square_of_difference(a[2], b[2]);
    lemma_square_of_difference(a[3], b[3]);
    if distance_squared(a, b) == 0 {
        assert(a =~= b);
    }
}

/// The measure of distance that a fit is configured with.
#[derive(Clone, Copy, Debug, PartialEq, Eq, Structural)]
pub enum DistanceMetric {
    /// The Euclidean distance.
    Euclidean,
    /// The square of the Euclidean distance.
    EuclideanSquared,
}

/// The largest weight a sample can have when seeds are drawn.
pub const MAX_WEIGHT: u64 = 67652010000;

impl DistanceMetric {
    /// The weight of a sample at `b` when the nearest seed is at `a`: the
    /// square of the distance that the metric measures between them.
    pub open spec fn spec_weight(self, a: Sample, b: Sample) -> int {
        match self {
            DistanceMetric::Euclidean => distance_squared(a, b),
            DistanceMetric::EuclideanSquared => square(distance_squared(a, b)),
        }
    }

    /// The square of the distance that the metric measures between two
    /// samples.
    pub fn weight(&self, a: &Sample, b: &Sample) -> (w: u64)
        ensures
            w == self.spec_weight(*a, *b),
            w <= MAX_WEIGHT,
    {
        let d: u64 = euclidean_distance_squared(a, b) as u64;
        match self {
            DistanceMetric::Euclidean => d,
            DistanceMetric::EuclideanSquared => {
                assert(d * d <= 67652010000) by (nonlinear_arith)
                    requires
                        0 <= d <= 260100,
                ;
                d * d
            },
        }
    }

    /// Both metrics order any two distances alike, so both weights do too.
    pub proof fn lemma_weight_order(self, a: Sample, b: Sample, c: Sample, d: Sample)
        ensures
            self.spec_weight(a, b) <= self.spec_weight(c, d) <==> distance_squared(a, b)
                <= distance_squared(c, d),
            0 <= self.spec_weight(a, b) <= MAX_WEIGHT,
    {
        lemma_distance_is_a_metric(a, b);
        lemma_distance_is_a_metric(c, d);
        let p = distance_squared(a, b);
        let q = distance_squared(c, d);
        assert((p * p <= q * q <==> p <= q) && 0 <= p * p <= 67652010000) by (nonlinear_arith)
            requires
                0 <= p <= 260100,
                0 <= q <= 260100,
        ;
    }

    /// The metric that a name stands for: the squared distance for
    /// `EuclideanDistanceSquared`, the Euclidean distance for any other name.
    pub open spec fn named(name: Seq<char>) -> DistanceMetric {
        if name == "EuclideanDistanceSquared"@ {
            DistanceMetric::EuclideanSquared
        } else {
            DistanceMetric::Euclidean
        }
    }

    /// The metric that a name stands for.
    pub fn from_name(name: &str) -> (metric: DistanceMetric)
        ensures
            metric == DistanceMetric::named(name@),
    {
        let given = String::from_str(name);
        let squared = String::from_str("EuclideanDistanceSquared");
        if given == squared {
            DistanceMetric::EuclideanSquared
        } else {
            DistanceMetric::Euclidean
        }
    }
}

} // verus!
