//! Choosing the first centres: each new seed is drawn with a weight that
//! grows with its distance from the seeds already chosen.

use vstd::prelude::*;
use rand::Rng;
use crate::model::Model;
use crate::metric::{
    lemma_distance_is_a_metric, square, Sample, Dataset, DistanceMetric, MAX_WEIGHT,
};

verus! {

/// The smaller of two integers.
pub open spec fn least(a: int, b: int) -> int {
    if b < a {
        b
    } else {
        a
    }
}

/// The weight of a sample at `x`: the least weight that the metric gives it
/// from any of the first `upto` seeds.
pub open spec fn weight_of(
    metric: DistanceMetric,
    data: Seq<Sample>,
    seeds: Seq<usize>,
    x: Sample,
    upto: int,
) -> int
    decreases upto,
{
    if upto <= 1 {
        metric.spec_weight(data[seeds[0] as int], x)
    } else {
        least(
            weight_of(metric, data, seeds, x, upto - 1),
            metric.spec_weight(data[seeds[upto - 1] as int], x),
        )
    }
}

/// The weight of every sample of the dataset, given the seeds chosen so far.
pub open spec fn weights(metric: DistanceMetric, data: Seq<Sample>, seeds: Seq<usize>) -> Seq<u64> {
    Seq::new(data.len(), |j: int| weight_of(metric, data, seeds, data[j], seeds.len() as int) as u64)
}

/// The sum of the first `upto` weights.
pub open spec fn cumulative(weights: Seq<u64>, upto: int) -> int
    decreases upto,
{
    if upto <= 0 {
        0
    } else {
        cumulative(weights, upto - 1) + weights[upto - 1]
    }
}

/// The sum of all weights.
pub open spec fn total(weights: Seq<u64>) -> int {
    cumulative(weights, weights.len() as int)
}

/// `j` is the first sample at which the running sum of the weights reaches
/// the threshold `t`.
pub open spec fn is_pick(weights: Seq<u64>, t: int, j: int) -> bool {
    &&& 0 <= j < weights.len()
    &&& cumulative(weights, j + 1) >= t
    &&& forall|i: int| 0 <= i < j ==> #[trigger] cumulative(weights, i + 1) < t
}

/// `j` can follow the seeds `chosen`: some threshold below the total weight
/// (zero where the total is zero) picks it.
pub open spec fn can_follow(
    metric: DistanceMetric,
    data: Seq<Sample>,
    chosen: Seq<usize>,
    j: int,
) -> bool {
    exists|t: int|
        {
            &&& 0 <= t
            &&& t < total(weights(metric, data, chosen)) || t == 0
            &&& #[trigger] is_pick(weights(metric, data, chosen), t, j)
        }
}

/// Every seed but the first can follow the seeds before it.
pub open spec fn spread(metric: DistanceMetric, data: Seq<Sample>, seeds: Seq<usize>) -> bool {
    forall|i: int|
        1 <= i < seeds.len() ==> can_follow(metric, data, #[trigger] seeds.take(i), seeds[i] as int)
}

/// A weight is never negative and never above `MAX_WEIGHT`.
pub proof fn lemma_weight_of_bounds(
    metric: DistanceMetric,
    data: Seq<Sample>,
    seeds: Seq<usize>,
    x: Sample,
    upto: int,
)
    ensures
        0 <= weight_of(metric, data, seeds, x, upto) <= MAX_WEIGHT,
    decreases upto,
{
    if upto <= 1 {
        metric.lemma_weight_order(data[seeds[0] as int], x, x, x);
    } else {
        lemma_weight_of_bounds(metric, data, seeds, x, upto - 1);
        metric.lemma_weight_order(data[seeds[upto - 1] as int], x, x, x);
    }
}

/// The running sum never falls, and `upto` weights sum to at most `upto`
/// times the largest 64-bit value.
pub proof fn lemma_cumulative_grows(weights: Seq<u64>, from: int, upto: int)
    requires
        0 <= from <= upto,
    ensures
        0 <= cumulative(weights, from) <= cumulative(weights, upto) <= upto * u64::MAX,
    decreases upto,
{
    if from < upto {
        lemma_cumulative_grows(weights, from, upto - 1);
    } else if upto > 0 {
        lemma_cumulative_grows(weights, from - 1, upto - 1);
    }
}

/// The weight of a sample is at most what the metric gives it from any of
/// the seeds, and no sample has a weight where a seed lies on it.
pub proof fn lemma_weight_of_is_least(
    metric: DistanceMetric,
    data: Seq<Sample>,
    seeds: Seq<usize>,
    x: Sample,
    upto: int,
    g: int,
)
    requires
        0 <= g < upto,
    ensures
        weight_of(metric, data, seeds, x, upto) <= metric.spec_weight(data[seeds[g] as int], x),
        data[seeds[g] as int] == x ==> weight_of(metric, data, seeds, x, upto) == 0,
    decreases upto,
{
    if g < upto - 1 {
        lemma_weight_of_is_least(metric, data, seeds, x, upto - 1, g);
    }
    lemma_weight_of_bounds(metric, data, seeds, x, upto);
    lemma_distance_is_a_metric(data[seeds[g] as int], x);
    assert(square(0) == 0);
}

/// A seed that follows others is the first sample of the dataset or a
/// sample that differs from every seed before it.
pub proof fn lemma_follower_is_new(
    metric: DistanceMetric,
    data: Seq<Sample>,
    chosen: Seq<usize>,
    j: int,
    g: int,
)
    requires
        can_follow(metric, data, chosen, j),
        0 <= g < chosen.len(),
        j != 0,
    ensures
        data[chosen[g] as int] != data[j],
{
    let w = weights(metric, data, chosen);
    let t = choose|t: int|
        {
            &&& 0 <= t
            &&& t < total(w) || t == 0
            &&& #[trigger] is_pick(w, t, j)
        };
    assert(cumulative(w, j - 1 + 1) < t);
    assert(w[j] > 0);
    lemma_weight_of_bounds(metric, data, chosen, data[j], chosen.len() as int);
    lemma_weight_of_is_least(metric, data, chosen, data[j], chosen.len() as int, g);
}

/// The weight of every sample, given the seeds chosen so far.
pub fn seeding_weights(metric: DistanceMetric, data: &Dataset, seeds: &Vec<usize>) -> (w: Vec<u64>)
    requires
        seeds.len() >= 1,
        forall|i: int| 0 <= i < seeds.len() ==> (#[trigger] seeds@[i]) < data.len(),
    ensures
        w@ == weights(metric, data@, seeds@),
{
    let mut w: Vec<u64> = Vec::new();
    let mut j: usize = 0;
    while j < data.len()
        invariant
            0 <= j <= data.len(),
            seeds.len() >= 1,
            forall|i: int| 0 <= i < seeds.len() ==> (#[trigger] seeds@[i]) < data.len(),
            w.len() == j,
            forall|p: int|
                0 <= p < j ==> w@[p] == weight_of(
                    metric,
                    data@,
                    seeds@,
                    data@[p],
                    seeds.len() as int,
                ),
        decreases data.len() - j,
    {
        let x = data[j];
        let mut lowest: u64 = metric.weight(&data[seeds[0]], &x);
        let mut g: usize = 1;
        while g < seeds.len()
            invariant
                1 <= g <= seeds.len(),
                forall|i: int| 0 <= i < seeds.len() ==> (#[trigger] seeds@[i]) < data.len(),
                lowest == weight_of(metric, data@, seeds@, x, g as int),
            decreases seeds.len() - g,
        {
            let f = metric.weight(&data[seeds[g]], &x);
            if f < lowest {
                lowest = f;
            }
            g += 1;
        }
        w.push(lowest);
        j += 1;
    }
    assert(w@ =~= weights(metric, data@, seeds@)) by {
        assert forall|p: int| 0 <= p < data.len() implies w@[p] == weights(
            metric,
            data@,
            seeds@,
        )[p] by {
            lemma_weight_of_bounds(metric, data@, seeds@, data@[p], seeds.len() as int);
        }
    }
    w
}

/// The sum of all weights.
pub fn total_weight(weights: &Vec<u64>) -> (s: u128)
    ensures
        s == total(weights@),
{
    let mut s: u128 = 0;
    let mut i: usize = 0;
    while i < weights.len()
        invariant
            0 <= i <= weights.len(),
            s == cumulative(weights@, i as int),
            s <= i * u64::MAX,
        decreases weights.len() - i,
    {
        assert((i + 1) * u64::MAX <= u64::MAX * u64::MAX) by (nonlinear_arith)
            requires
                0 <= i < u64::MAX,
        ;
        s = s + weights[i] as u128;
        i += 1;
    }
    s
}

/// The first sample at which the running sum of the weights reaches `t`.
pub fn pick_weighted(weights: &Vec<u64>, t: u128) -> (j: usize)
    requires
        weights.len() > 0,
        t <= total(weights@),
    ensures
        is_pick(weights@, t as int, j as int),
{
    let mut j: usize = 0;
    let mut s: u128 = weights[0] as u128;
    assert(cumulative(weights@, 1) == cumulative(weights@, 0) + weights@[0]);
    while s < t
        invariant
            0 <= j < weights.len(),
            s == cumulative(weights@, j + 1),
            t <= total(weights@),
            forall|i: int| 0 <= i < j ==> #[trigger] cumulative(weights@, i + 1) < t,
        decreases weights.len() - j,
    {
        proof {
            if j + 1 == weights.len() {
                assert(s == total(weights@));
            }
            lemma_cumulative_grows(weights@, j + 2, weights.len() as int);
            assert(weights.len() * u64::MAX <= u64::MAX * u64::MAX) by (nonlinear_arith)
                requires
                    0 <= weights.len() <= u64::MAX,
            ;
        }
        j += 1;
        s = s + weights[j] as u128;
    }
    j
}

/// A number below `bound`, drawn by `rand::Rng::random_range` over
/// `0..bound` from the generator that `rand::rng()` keeps for the calling
/// thread.  Nothing is claimed of which number comes but that it lies in the
/// range.  The range is never empty, which `random_range` would panic on;
/// `rand::rng()` itself panics where the operating system has no entropy to
/// seed the generator with.
#[verifier::external_body]
fn random_below(bound: u128) -> (r: u128)
    requires
        bound > 0,
    ensures
        r < bound,
{
    rand::rng().random_range(0..bound)
}

impl Model {
    /// Draws `k` seeds: the first uniformly from the dataset, each later one
    /// with the weights that the seeds before it give.
    pub fn initialize_mean(metric: DistanceMetric, data: &Dataset, k: usize) -> (seeds: Vec<
        usize,
    >)
        requires
            1 <= k <= data.len(),
        ensures
            seeds.len() == k,
            forall|i: int| 0 <= i < seeds.len() ==> (#[trigger] seeds@[i]) < data.len(),
            spread(metric, data@, seeds@),
    {
        let mut seeds: Vec<usize> = Vec::new();
        let first = random_below(data.len() as u128);
        seeds.push(first as usize);
        while seeds.len() < k
            invariant
                1 <= seeds.len() <= k <= data.len(),
                forall|i: int| 0 <= i < seeds.len() ==> (#[trigger] seeds@[i]) < data.len(),
                spread(metric, data@, seeds@),
            decreases k - seeds.len(),
        {
            let w = seeding_weights(metric, data, &seeds);
            let s = total_weight(&w);
            let t: u128 = if s == 0 {
                0
            } else {
                random_below(s)
            };
            let j = pick_weighted(&w, t);
            let ghost before = seeds@;
            seeds.push(j);
            proof {
                assert(seeds@.take(before.len() as int) =~= before);
                assert(is_pick(weights(metric, data@, before), t as int, j as int));
                assert(can_follow(metric, data@, before, j as int));
                assert forall|i: int| 1 <= i < seeds@.len() implies can_follow(
                    metric,
                    data@,
                    #[trigger] seeds@.take(i),
                    seeds@[i] as int,
                ) by {
                    if i < before.len() {
                        assert(seeds@.take(i) =~= before.take(i));
                    }
                }
            }
        }
        seeds
    }
}

} // verus!
