//! What holds of every fit.

use vstd::prelude::*;
use crate::metric::Sample;
use crate::centroid::{Centroid, MAX_SAMPLES};
use crate::lloyd::{
    changed, channel_total, cluster_mean, members, nearest, nearest_among, refined, seeded,
    seeds_wf, step, ModelView,
};
use crate::model::Trainer;

verus! {

/// The sum of one channel over the first `upto` samples.
pub open spec fn channel_sum(data: Seq<Sample>, channel: int, upto: int) -> int
    decreases upto,
{
    if upto <= 0 {
        0
    } else {
        channel_sum(data, channel, upto - 1) + data[upto - 1][channel]
    }
}

/// The mean of one channel over the whole dataset.
pub open spec fn dataset_mean(data: Seq<Sample>, channel: int) -> real {
    channel_sum(data, channel, data.len() as int) as real / data.len() as real
}

/// The labels of a dataset of `n` samples that all lie in the first cluster.
pub open spec fn all_first(n: nat) -> Seq<usize> {
    Seq::new(n, |i: int| 0usize)
}

proof fn lemma_first_cluster_holds_all(data: Seq<Sample>, upto: int)
    requires
        0 <= upto <= data.len(),
    ensures
        members(all_first(data.len()), 0, upto) == upto,
        channel_total(data, all_first(data.len()), 0, 0, upto) == channel_sum(data, 0, upto),
        channel_total(data, all_first(data.len()), 0, 1, upto) == channel_sum(data, 1, upto),
        channel_total(data, all_first(data.len()), 0, 2, upto) == channel_sum(data, 2, upto),
        channel_total(data, all_first(data.len()), 0, 3, upto) == channel_sum(data, 3, upto),
        0 <= channel_sum(data, 0, upto) <= 255 * upto,
        0 <= channel_sum(data, 1, upto) <= 255 * upto,
        0 <= channel_sum(data, 2, upto) <= 255 * upto,
        0 <= channel_sum(data, 3, upto) <= 255 * upto,
    decreases upto,
{
    if upto > 0 {
        lemma_first_cluster_holds_all(data, upto - 1);
    }
}

proof fn lemma_other_clusters_hold_none(n: nat, j: int, upto: int)
    requires
        j != 0,
        0 <= upto <= n,
    ensures
        members(all_first(n), j, upto) == 0,
    decreases upto,
{
    if upto > 0 {
        lemma_other_clusters_hold_none(n, j, upto - 1);
    }
}

proof fn lemma_nothing_changed(labels: Seq<usize>, upto: int)
    ensures
        changed(labels, labels, upto) == 0,
    decreases upto,
{
    if upto > 0 {
        lemma_nothing_changed(labels, upto - 1);
    }
}

/// The model that refinement reaches with a single cluster: the centre is
/// the sum of all samples over their number, every label is zero.
proof fn lemma_single_cluster_refined(
    data: Seq<Sample>,
    m: ModelView,
    max_iterations: int,
    threshold: int,
)
    requires
        1 <= data.len() <= MAX_SAMPLES,
        m.centroids.len() == 1,
        m.mapping == all_first(data.len()),
        m.iter < max_iterations,
    ensures
        ({
            let r = refined(data, m, max_iterations, threshold);
            &&& r.centroids.len() == 1
            &&& r.centroids[0].count == data.len()
            &&& r.centroids[0].sum[0] == channel_sum(data, 0, data.len() as int)
            &&& r.centroids[0].sum[1] == channel_sum(data, 1, data.len() as int)
            &&& r.centroids[0].sum[2] == channel_sum(data, 2, data.len() as int)
            &&& r.centroids[0].sum[3] == channel_sum(data, 3, data.len() as int)
            &&& r.mapping == all_first(data.len())
            &&& r.iter == if threshold >= 1 {
                m.iter + 1
            } else {
                max_iterations
            }
        }),
    decreases max_iterations - m.iter,
{
    let n = data.len() as int;
    let next = step(data, m);
    assert(next.mapping =~= all_first(data.len()));
    lemma_first_cluster_holds_all(data, n);
    lemma_nothing_changed(m.mapping, n);
    assert(changed(m.mapping, next.mapping, n) == 0);
    assert(next.centroids[0] == cluster_mean(data, next.mapping, 0, m.centroids[0]));
    if threshold >= 1 {
        assert(refined(data, m, max_iterations, threshold) == next);
    } else if next.iter < max_iterations {
        lemma_single_cluster_refined(data, next, max_iterations, threshold);
        assert(refined(data, m, max_iterations, threshold) == refined(
            data,
            next,
            max_iterations,
            threshold,
        ));
    } else {
        assert(refined(data, next, max_iterations, threshold) == next);
        assert(refined(data, m, max_iterations, threshold) == next);
    }
}

/// With one cluster the centre is the exact mean of the dataset in every
/// channel and every sample is labelled zero.  The fit runs one iteration
/// where the threshold is at least one changed label, and all of them
/// where it is zero.
pub proof fn lemma_single_cluster(trainer: Trainer, data: Seq<Sample>, seeds: Seq<usize>)
    requires
        trainer.k == 1,
        trainer.max_iterations >= 1,
        trainer.refusal(data.len() as int) is None,
        seeds_wf(seeds, 1, data.len() as int),
    ensures
        ({
            let m = trainer.fitted(data, seeds);
            &&& m.centroids.len() == 1
            &&& m.centroids[0].wf()
            &&& m.centroids[0].mean(0) == dataset_mean(data, 0)
            &&& m.centroids[0].mean(1) == dataset_mean(data, 1)
            &&& m.centroids[0].mean(2) == dataset_mean(data, 2)
            &&& m.centroids[0].mean(3) == dataset_mean(data, 3)
            &&& m.mapping == all_first(data.len())
            &&& m.iter == if trainer.threshold(data.len() as int) >= 1 {
                1
            } else {
                trainer.max_iterations as int
            }
        }),
{
    let start = seeded(data, seeds);
    assert(start.mapping =~= all_first(data.len()));
    lemma_single_cluster_refined(
        data,
        start,
        trainer.max_iterations as int,
        trainer.threshold(data.len() as int),
    );
    lemma_first_cluster_holds_all(data, data.len() as int);
}

/// Every sample of the dataset equals `x`.
pub open spec fn all_equal(data: Seq<Sample>, x: Sample) -> bool {
    forall|i: int| 0 <= i < data.len() ==> #[trigger] data[i] == x
}

proof fn lemma_one_more_copy(n: int, v: int)
    ensures
        (n - 1) * v + v == n * v,
{
    assert((n - 1) * v + v == n * v) by (nonlinear_arith);
}

proof fn lemma_equal_samples_total(data: Seq<Sample>, x: Sample, upto: int)
    requires
        all_equal(data, x),
        0 <= upto <= data.len(),
    ensures
        channel_sum(data, 0, upto) == upto * x[0],
        channel_sum(data, 1, upto) == upto * x[1],
        channel_sum(data, 2, upto) == upto * x[2],
        channel_sum(data, 3, upto) == upto * x[3],
    decreases upto,
{
    if upto > 0 {
        lemma_equal_samples_total(data, x, upto - 1);
        assert(data[upto - 1] == x);
        lemma_one_more_copy(upto, x[0] as int);
        lemma_one_more_copy(upto, x[1] as int);
        lemma_one_more_copy(upto, x[2] as int);
        lemma_one_more_copy(upto, x[3] as int);
    } else {
        assert(upto * x[0] == 0 && upto * x[1] == 0 && upto * x[2] == 0 && upto * x[3] == 0)
            by (nonlinear_arith)
            requires
                upto == 0,
        ;
    }
}

proof fn lemma_equal_centres_nearest(cs: Seq<Centroid>, x: Sample, upto: int)
    requires
        forall|j: int| 0 <= j < cs.len() ==> #[trigger] cs[j] == cs[0],
        upto <= cs.len(),
    ensures
        nearest_among(cs, x, upto) == 0,
    decreases upto,
{
    if upto > 1 {
        lemma_equal_centres_nearest(cs, x, upto - 1);
        assert(cs[upto - 1] == cs[0]);
    }
}

proof fn lemma_mean_of_copies(n: int, v: int)
    requires
        n > 0,
    ensures
        (n * v) as real / n as real == v as real,
{
    assert((n * v) as real == (n as real) * (v as real)) by (nonlinear_arith);
    assert((n as real) * (v as real) / (n as real) == v as real) by (nonlinear_arith)
        requires
            n as real > 0real,
    ;
}

/// Where every sample is the same and the threshold is at least one changed
/// label, the fit runs one iteration, every centre is well formed and lies on
/// that sample, and every sample is labelled zero.
pub proof fn lemma_identical_samples(
    trainer: Trainer,
    data: Seq<Sample>,
    seeds: Seq<usize>,
    x: Sample,
)
    requires
        all_equal(data, x),
        trainer.max_iterations >= 1,
        trainer.threshold(data.len() as int) >= 1,
        trainer.refusal(data.len() as int) is None,
        seeds_wf(seeds, trainer.k as int, data.len() as int),
    ensures
        ({
            let m = trainer.fitted(data, seeds);
            &&& m.iter == 1
            &&& m.centroids.len() == trainer.k
            &&& m.mapping == all_first(data.len())
            &&& forall|j: int|
                0 <= j < m.centroids.len() ==> {
                    &&& (#[trigger] m.centroids[j]).wf()
                    &&& m.centroids[j].mean(0) == x[0] as real
                    &&& m.centroids[j].mean(1) == x[1] as real
                    &&& m.centroids[j].mean(2) == x[2] as real
                    &&& m.centroids[j].mean(3) == x[3] as real
                }
        }),
{
    let n = data.len() as int;
    let start = seeded(data, seeds);
    let next = step(data, start);
    assert forall|j: int| 0 <= j < start.centroids.len() implies #[trigger] start.centroids[j]
        == Centroid::spec_at(x) by {
        assert(data[seeds[j] as int] == x);
    }
    assert forall|i: int| 0 <= i < n implies nearest(start.centroids, #[trigger] data[i]) == 0 by {
        lemma_equal_centres_nearest(start.centroids, data[i], start.centroids.len() as int);
    }
    assert(next.mapping =~= all_first(data.len()));
    assert(start.mapping =~= all_first(data.len()));
    lemma_nothing_changed(start.mapping, n);
    assert(trainer.fitted(data, seeds) == next);
    lemma_first_cluster_holds_all(data, n);
    lemma_equal_samples_total(data, x, n);
    lemma_mean_of_copies(n, x[0] as int);
    lemma_mean_of_copies(n, x[1] as int);
    lemma_mean_of_copies(n, x[2] as int);
    lemma_mean_of_copies(n, x[3] as int);
    lemma_mean_of_copies(1, x[0] as int);
    lemma_mean_of_copies(1, x[1] as int);
    lemma_mean_of_copies(1, x[2] as int);
    lemma_mean_of_copies(1, x[3] as int);
    assert forall|j: int| 0 <= j < next.centroids.len() implies {
        &&& (#[trigger] next.centroids[j]).wf()
        &&& next.centroids[j].mean(0) == x[0] as real
        &&& next.centroids[j].mean(1) == x[1] as real
        &&& next.centroids[j].mean(2) == x[2] as real
        &&& next.centroids[j].mean(3) == x[3] as real
    } by {
        if j != 0 {
            lemma_other_clusters_hold_none(data.len(), j, n);
            assert(next.centroids[j] == start.centroids[j]);
        }
    }
}

/// A fit is a function of the dataset, the seeds, the iteration cap and the
/// convergence fraction: two fits that agree on these give the same centres,
/// the same labels and the same number of iterations.
pub proof fn lemma_fit_is_deterministic(
    first: Trainer,
    second: Trainer,
    data: Seq<Sample>,
    seeds: Seq<usize>,
)
    requires
        first.max_iterations == second.max_iterations,
        first.delta == second.delta,
    ensures
        first.fitted(data, seeds) == second.fitted(data, seeds),
{
}

} // verus!
