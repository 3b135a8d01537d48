//! Cluster centres as exact rationals.

use vstd::prelude::*;
use crate::metric::{Sample, square};

verus! {

/// The largest number of samples one fit accepts.  With at most this many
/// samples behind a centre, comparing two distances fits in 128 bits.
pub const MAX_SAMPLES: usize = 134217728;

/// The centre of a cluster: the channel-wise sum of the samples in it and
/// their number.  It stands for the point whose channels are `sum / count`.
#[derive(Clone, Copy, Debug, PartialEq, Eq)]
pub struct Centroid {
    pub sum: [u64; 4],
    pub count: u64,
}

/// The square of a real number.
pub open spec fn square_real(x: real) -> real {
    x * x
}

/// `r` is the integer nearest to `q`, a tie going to the larger one.
pub open spec fn rounds_to(q: real, r: int) -> bool {
    (2 * r - 1) as real <= q + q < (2 * r + 1) as real
}

impl Centroid {
    /// A centre is the mean of at least one and at most `MAX_SAMPLES`
    /// eight-bit samples.
    pub open spec fn wf(&self) -> bool {
        &&& 1 <= self.count <= MAX_SAMPLES
        &&& self.sum[0] <= 255 * self.count
        &&& self.sum[1] <= 255 * self.count
        &&& self.sum[2] <= 255 * self.count
        &&& self.sum[3] <= 255 * self.count
    }

    /// The value of one channel of the centre.
    pub open spec fn mean(&self, channel: int) -> real {
        self.sum[channel] as real / self.count as real
    }

    /// The squared Euclidean distance from the centre to a sample.
    pub open spec fn distance_squared(&self, x: Sample) -> real {
        square_real(x[0] as real - self.mean(0)) + square_real(x[1] as real - self.mean(1))
            + square_real(x[2] as real - self.mean(2)) + square_real(x[3] as real - self.mean(3))
    }

    /// The squared distance to a sample, multiplied by the square of `count`:
    /// an integer.
    pub open spec fn scaled_distance(&self, x: Sample) -> int {
        square(self.count * x[0] - self.sum[0]) + square(self.count * x[1] - self.sum[1])
            + square(self.count * x[2] - self.sum[2]) + square(self.count * x[3] - self.sum[3])
    }

    /// `p` is the centre with each channel rounded to the nearest integer.
    pub open spec fn rounds_into(&self, p: Sample) -> bool {
        &&& rounds_to(self.mean(0), p[0] as int)
        &&& rounds_to(self.mean(1), p[1] as int)
        &&& rounds_to(self.mean(2), p[2] as int)
        &&& rounds_to(self.mean(3), p[3] as int)
    }

    /// The centre that stands on one sample.
    pub open spec fn spec_at(x: Sample) -> Centroid {
        Centroid { sum: [x[0] as u64, x[1] as u64, x[2] as u64, x[3] as u64], count: 1 }
    }

    /// The centre that stands on one sample.
    pub fn at(x: &Sample) -> (c: Centroid)
        ensures
            c == Centroid::spec_at(*x),
            c.wf(),
    {
        let c = Centroid { sum: [x[0] as u64, x[1] as u64, x[2] as u64, x[3] as u64], count: 1 };
        assert(c.sum =~= Centroid::spec_at(*x).sum);
        c
    }
}

/// One channel of the scaled distance is the real channel distance times the
/// square of the count.
pub proof fn lemma_channel_scaling(x: int, s: int, n: int)
    requires
        n > 0,
    ensures
        square(n * x - s) as real == square_real(x as real - s as real / n as real) * square_real(
            n as real,
        ),
{
    let xr = x as real;
    let sr = s as real;
    let nr = n as real;
    assert((n * x - s) as real == nr * xr - sr) by (nonlinear_arith)
        requires
            xr == x as real,
            sr == s as real,
            nr == n as real,
    ;
    let g = n * x - s;
    assert((g * g) as real == (g as real) * (g as real)) by (nonlinear_arith);
    assert((nr * xr - sr) * (nr * xr - sr) == ((xr - sr / nr) * (xr - sr / nr)) * (nr * nr))
        by (nonlinear_arith)
        requires
            nr > 0real,
    ;
}

impl Centroid {
    /// The scaled distance is the real distance times the square of the count.
    pub proof fn lemma_scaled_distance(&self, x: Sample)
        requires
            self.count > 0,
        ensures
            self.scaled_distance(x) as real == self.distance_squared(x) * square_real(
                self.count as real,
            ),
            self.scaled_distance(x) >= 0,
            self.distance_squared(x) >= 0real,
    {
        let n = self.count as int;
        lemma_channel_scaling(x[0] as int, self.sum[0] as int, n);
        lemma_channel_scaling(x[1] as int, self.sum[1] as int, n);
        lemma_channel_scaling(x[2] as int, self.sum[2] as int, n);
        lemma_channel_scaling(x[3] as int, self.sum[3] as int, n);
        let q = square_real(n as real);
        let d0 = square_real(x[0] as real - self.mean(0));
        let d1 = square_real(x[1] as real - self.mean(1));
        let d2 = square_real(x[2] as real - self.mean(2));
        let d3 = square_real(x[3] as real - self.mean(3));
        assert((d0 + d1 + d2 + d3) * q == d0 * q + d1 * q + d2 * q + d3 * q) by (nonlinear_arith);
        assert(d0 >= 0real && d1 >= 0real && d2 >= 0real && d3 >= 0real) by (nonlinear_arith)
            requires
                d0 == square_real(x[0] as real - self.mean(0)),
                d1 == square_real(x[1] as real - self.mean(1)),
                d2 == square_real(x[2] as real - self.mean(2)),
                d3 == square_real(x[3] as real - self.mean(3)),
        ;
        assert(forall|g: int| #[trigger] square(g) >= 0) by (nonlinear_arith);
    }
}

/// Comparing two fractions with positive denominators by cross-multiplying.
pub proof fn lemma_cross_multiply(a: int, n2: int, b: int, m2: int, da: real, db: real)
    requires
        n2 > 0,
        m2 > 0,
        a as real == da * (n2 as real),
        b as real == db * (m2 as real),
    ensures
        (a * m2 < b * n2) <==> (da < db),
{
    let ar = a as real;
    let br = b as real;
    let nr = n2 as real;
    let mr = m2 as real;
    assert((a * m2) as real == ar * mr) by (nonlinear_arith)
        requires
            ar == a as real,
            mr == m2 as real,
    ;
    assert((b * n2) as real == br * nr) by (nonlinear_arith)
        requires
            br == b as real,
            nr == n2 as real,
    ;
    assert((ar * mr < br * nr) <==> (da < db)) by (nonlinear_arith)
        requires
            nr > 0real,
            mr > 0real,
            ar == da * nr,
            br == db * mr,
    ;
}

fn scaled_channel(count: u64, sum: u64, x: u8) -> (g: u128)
    requires
        1 <= count <= MAX_SAMPLES,
        sum <= 255 * count,
    ensures
        g == square(count * x - sum),
        g <= 65025 * (count * count),
{
    assert(count * x <= 255 * count) by (nonlinear_arith)
        requires
            x <= 255,
            count >= 0,
    ;
    let p: u64 = count * (x as u64);
    let d: u64 = if p >= sum {
        p - sum
    } else {
        sum - p
    };
    assert(d * d == square(count * x - sum) && d * d <= 65025 * (count * count)) by (nonlinear_arith)
        requires
            d == count * x - sum || d == sum - count * x,
            0 <= d <= 255 * count,
    ;
    assert(count * count <= 134217728 * 134217728) by (nonlinear_arith)
        requires
            0 <= count <= 134217728,
    ;
    (d as u128) * (d as u128)
}

impl Centroid {
    fn scaled(&self, x: &Sample) -> (g: u128)
        requires
            self.wf(),
        ensures
            g == self.scaled_distance(*x),
            g <= 260100 * (self.count * self.count),
    {
        assert(self.count * self.count <= 134217728 * 134217728) by (nonlinear_arith)
            requires
                0 <= self.count <= 134217728,
        ;
        let g0 = scaled_channel(self.count, self.sum[0], x[0]);
        let g1 = scaled_channel(self.count, self.sum[1], x[1]);
        let g2 = scaled_channel(self.count, self.sum[2], x[2]);
        let g3 = scaled_channel(self.count, self.sum[3], x[3]);
        g0 + g1 + g2 + g3
    }

    /// Whether this centre is strictly nearer to `x` than `other` is.
    pub fn closer(&self, other: &Centroid, x: &Sample) -> (r: bool)
        requires
            self.wf(),
            other.wf(),
        ensures
            r == (self.distance_squared(*x) < other.distance_squared(*x)),
    {
        let a = self.scaled(x);
        let b = other.scaled(x);
        let n = self.count as u128;
        let m = other.count as u128;
        proof {
            let lim: int = 134217728int * 134217728int;
            assert(n * n <= lim && n * n > 0) by (nonlinear_arith)
                requires
                    1 <= n <= 134217728,
                    lim == 134217728 * 134217728,
            ;
            assert(m * m <= lim && m * m > 0) by (nonlinear_arith)
                requires
                    1 <= m <= 134217728,
                    lim == 134217728 * 134217728,
            ;
            assert(a * (m * m) <= (260100 * lim) * lim) by (nonlinear_arith)
                requires
                    0 <= a <= 260100 * (n * n),
                    0 <= n * n <= lim,
                    0 <= m * m <= lim,
            ;
            assert(b * (n * n) <= (260100 * lim) * lim) by (nonlinear_arith)
                requires
                    0 <= b <= 260100 * (m * m),
                    0 <= n * n <= lim,
                    0 <= m * m <= lim,
            ;
            self.lemma_scaled_distance(*x);
            other.lemma_scaled_distance(*x);
            assert((n * n) as real == square_real(self.count as real)) by (nonlinear_arith)
                requires
                    n == self.count,
            ;
            assert((m * m) as real == square_real(other.count as real)) by (nonlinear_arith)
                requires
                    m == other.count,
            ;
            lemma_cross_multiply(
                a as int,
                n * n,
                b as int,
                m * m,
                self.distance_squared(*x),
                other.distance_squared(*x),
            );
        }
        a * (m * m) < b * (n * n)
    }

    fn rounded_channel(&self, channel: usize) -> (r: u8)
        requires
            self.wf(),
            channel < 4,
        ensures
            rounds_to(self.mean(channel as int), r as int),
    {
        let s: u64 = self.sum[channel];
        let n: u64 = self.count;
        let q: u64 = (2 * s + n) / (2 * n);
        proof {
            let t: int = 2 * s + n;
            let d: int = 2 * n;
            assert(d * q <= t < d * (q + 1) && q <= 255) by (nonlinear_arith)
                requires
                    q == t / d,
                    d > 0,
                    0 <= t <= 255 * d + n,
                    d == 2 * n,
            ;
            let sr = s as real;
            let nr = n as real;
            let qr = q as real;
            assert((d * q) as real == 2real * nr * qr && (d * (q + 1)) as real == 2real * nr * (qr
                + 1real)) by (nonlinear_arith)
                requires
                    d == 2 * n,
                    nr == n as real,
                    qr == q as real,
            ;
            assert((2 * q - 1) as real <= sr / nr + sr / nr < (2 * q + 1) as real)
                by (nonlinear_arith)
                requires
                    nr > 0real,
                    qr == q as real,
                    2real * nr * qr <= 2real * sr + nr,
                    2real * sr + nr < 2real * nr * (qr + 1real),
            ;
        }
        q as u8
    }

    /// The centre with each channel rounded to the nearest eight-bit value.
    pub fn rounded(&self) -> (p: Sample)
        requires
            self.wf(),
        ensures
            self.rounds_into(p),
    {
        [
            self.rounded_channel(0),
            self.rounded_channel(1),
            self.rounded_channel(2),
            self.rounded_channel(3),
        ]
    }
}

/// Only one integer is the nearest to a real number.
pub proof fn lemma_rounding_is_unique(q: real, a: int, b: int)
    requires
        rounds_to(q, a),
        rounds_to(q, b),
    ensures
        a == b,
{
}

impl Centroid {
    /// A centre rounds into one sample only.
    pub proof fn lemma_rounded_is_unique(&self, p: Sample, q: Sample)
        requires
            self.rounds_into(p),
            self.rounds_into(q),
        ensures
            p == q,
    {
        lemma_rounding_is_unique(self.mean(0), p[0] as int, q[0] as int);
        lemma_rounding_is_unique(self.mean(1), p[1] as int, q[1] as int);
        lemma_rounding_is_unique(self.mean(2), p[2] as int, q[2] as int);
        lemma_rounding_is_unique(self.mean(3), p[3] as int, q[3] as int);
        assert(p =~= q);
    }
}

} // verus!
