//! The cost of a model, and why an iteration never raises it.

use vstd::prelude::*;
use crate::metric::Sample;
use crate::centroid::{Centroid, MAX_SAMPLES, square_real};
use crate::lloyd::{
    assigned, channel_total, cluster_mean, labels_wf, lemma_nearest, lemma_tally_bounds, members,
    nearest, recentred, refined, step, ModelView,
};

verus! {

/// The sum, over the first `upto` samples, of the squared distance from the
/// sample to the centre that its label names.
pub open spec fn cost(cs: Seq<Centroid>, data: Seq<Sample>, labels: Seq<usize>, upto: int) -> real
    decreases upto,
{
    if upto <= 0 {
        0real
    } else {
        cost(cs, data, labels, upto - 1) + cs[labels[upto - 1] as int].distance_squared(
            data[upto - 1],
        )
    }
}

/// The cost of a model on a dataset.
pub open spec fn model_cost(m: ModelView, data: Seq<Sample>) -> real {
    cost(m.centroids, data, m.mapping, data.len() as int)
}

/// The sum of the squared distances from `c` to those of the first `upto`
/// samples that carry the label `j`.
pub open spec fn scatter(c: Centroid, data: Seq<Sample>, labels: Seq<usize>, j: int, upto: int)
    -> real
    decreases upto,
{
    if upto <= 0 {
        0real
    } else {
        scatter(c, data, labels, j, upto - 1) + if labels[upto - 1] == j {
            c.distance_squared(data[upto - 1])
        } else {
            0real
        }
    }
}

/// The scatter of the first `clusters` clusters about their centres, added up.
pub open spec fn scatter_sum(
    cs: Seq<Centroid>,
    data: Seq<Sample>,
    labels: Seq<usize>,
    clusters: int,
    upto: int,
) -> real
    decreases clusters,
{
    if clusters <= 0 {
        0real
    } else {
        scatter_sum(cs, data, labels, clusters - 1, upto) + scatter(
            cs[clusters - 1],
            data,
            labels,
            clusters - 1,
            upto,
        )
    }
}

/// The sum of the squares of one channel over those of the first `upto`
/// samples that carry the label `j`.
pub open spec fn square_total(
    data: Seq<Sample>,
    labels: Seq<usize>,
    j: int,
    channel: int,
    upto: int,
) -> int
    decreases upto,
{
    if upto <= 0 {
        0
    } else {
        square_total(data, labels, j, channel, upto - 1) + if labels[upto - 1] == j {
            data[upto - 1][channel] * data[upto - 1][channel]
        } else {
            0int
        }
    }
}

/// The sum of `(x - m)^2` over `n` numbers `x` whose sum is `s` and whose
/// squares sum to `q`.
pub open spec fn deviation(q: int, s: int, n: int, m: real) -> real {
    q as real - (m + m) * s as real + n as real * (m * m)
}

proof fn lemma_deviation_grows(q: int, s: int, n: int, x: int, m: real)
    ensures
        deviation(q + x * x, s + x, n + 1, m) == deviation(q, s, n, m) + square_real(x as real - m),
{
    let qr = q as real;
    let sr = s as real;
    let nr = n as real;
    let xr = x as real;
    assert((x * x) as real == xr * xr) by (nonlinear_arith)
        requires
            xr == x as real,
    ;
    assert((qr + xr * xr) - (m + m) * (sr + xr) + (nr + 1real) * (m * m) == (qr - (m + m) * sr + nr
        * (m * m)) + (xr - m) * (xr - m)) by (nonlinear_arith);
}

proof fn lemma_deviation_of_nothing(m: real)
    ensures
        deviation(0, 0, 0, m) == 0real,
{
    assert(0real - (m + m) * 0real + 0real * (m * m) == 0real) by (nonlinear_arith);
}

proof fn lemma_mean_deviates_least(q: int, s: int, n: int, m: real)
    requires
        n > 0,
    ensures
        deviation(q, s, n, s as real / n as real) <= deviation(q, s, n, m),
{
    let qr = q as real;
    let sr = s as real;
    let nr = n as real;
    let mu = sr / nr;
    assert(mu * nr == sr) by (nonlinear_arith)
        requires
            nr > 0real,
            mu == sr / nr,
    ;
    assert((qr - (m + m) * sr + nr * (m * m)) - (qr - (mu + mu) * sr + nr * (mu * mu)) == nr * ((m
        - mu) * (m - mu))) by (nonlinear_arith)
        requires
            mu * nr == sr,
    ;
    assert(nr * ((m - mu) * (m - mu)) >= 0real) by (nonlinear_arith)
        requires
            nr > 0real,
    ;
}

/// The scatter of a cluster about any point, from the cluster's tallies.
proof fn lemma_scatter_from_tallies(
    c: Centroid,
    data: Seq<Sample>,
    labels: Seq<usize>,
    j: int,
    upto: int,
)
    requires
        0 <= upto,
    ensures
        scatter(c, data, labels, j, upto) == deviation(
            square_total(data, labels, j, 0, upto),
            channel_total(data, labels, j, 0, upto),
            members(labels, j, upto),
            c.mean(0),
        ) + deviation(
            square_total(data, labels, j, 1, upto),
            channel_total(data, labels, j, 1, upto),
            members(labels, j, upto),
            c.mean(1),
        ) + deviation(
            square_total(data, labels, j, 2, upto),
            channel_total(data, labels, j, 2, upto),
            members(labels, j, upto),
            c.mean(2),
        ) + deviation(
            square_total(data, labels, j, 3, upto),
            channel_total(data, labels, j, 3, upto),
            members(labels, j, upto),
            c.mean(3),
        ),
    decreases upto,
{
    if upto > 0 {
        lemma_scatter_from_tallies(c, data, labels, j, upto - 1);
        if labels[upto - 1] == j {
            let x = data[upto - 1];
            let n = members(labels, j, upto - 1);
            lemma_deviation_grows(
                square_total(data, labels, j, 0, upto - 1),
                channel_total(data, labels, j, 0, upto - 1),
                n,
                x[0] as int,
                c.mean(0),
            );
            lemma_deviation_grows(
                square_total(data, labels, j, 1, upto - 1),
                channel_total(data, labels, j, 1, upto - 1),
                n,
                x[1] as int,
                c.mean(1),
            );
            lemma_deviation_grows(
                square_total(data, labels, j, 2, upto - 1),
                channel_total(data, labels, j, 2, upto - 1),
                n,
                x[2] as int,
                c.mean(2),
            );
            lemma_deviation_grows(
                square_total(data, labels, j, 3, upto - 1),
                channel_total(data, labels, j, 3, upto - 1),
                n,
                x[3] as int,
                c.mean(3),
            );
        }
    } else {
        lemma_deviation_of_nothing(c.mean(0));
        lemma_deviation_of_nothing(c.mean(1));
        lemma_deviation_of_nothing(c.mean(2));
        lemma_deviation_of_nothing(c.mean(3));
    }
}

/// The samples of a cluster lie at least as near to their mean as to any
/// other point.
pub proof fn lemma_mean_scatters_least(
    c: Centroid,
    data: Seq<Sample>,
    labels: Seq<usize>,
    j: int,
)
    requires
        labels.len() == data.len(),
        data.len() <= MAX_SAMPLES,
    ensures
        scatter(cluster_mean(data, labels, j, c), data, labels, j, data.len() as int) <= scatter(
            c,
            data,
            labels,
            j,
            data.len() as int,
        ),
{
    let n = data.len() as int;
    let size = members(labels, j, n);
    lemma_tally_bounds(data, labels, j, n);
    if size > 0 {
        let mean = cluster_mean(data, labels, j, c);
        lemma_scatter_from_tallies(c, data, labels, j, n);
        lemma_scatter_from_tallies(mean, data, labels, j, n);
        lemma_mean_deviates_least(
            square_total(data, labels, j, 0, n),
            channel_total(data, labels, j, 0, n),
            size,
            c.mean(0),
        );
        lemma_mean_deviates_least(
            square_total(data, labels, j, 1, n),
            channel_total(data, labels, j, 1, n),
            size,
            c.mean(1),
        );
        lemma_mean_deviates_least(
            square_total(data, labels, j, 2, n),
            channel_total(data, labels, j, 2, n),
            size,
            c.mean(2),
        );
        lemma_mean_deviates_least(
            square_total(data, labels, j, 3, n),
            channel_total(data, labels, j, 3, n),
            size,
            c.mean(3),
        );
        assert(mean.count == size);
        assert(mean.sum[0] == channel_total(data, labels, j, 0, n));
        assert(mean.sum[1] == channel_total(data, labels, j, 1, n));
        assert(mean.sum[2] == channel_total(data, labels, j, 2, n));
        assert(mean.sum[3] == channel_total(data, labels, j, 3, n));
    }
}

proof fn lemma_scatter_sum_grows(
    cs: Seq<Centroid>,
    data: Seq<Sample>,
    labels: Seq<usize>,
    clusters: int,
    upto: int,
)
    requires
        0 <= clusters,
        0 < upto,
    ensures
        scatter_sum(cs, data, labels, clusters, upto) == scatter_sum(
            cs,
            data,
            labels,
            clusters,
            upto - 1,
        ) + if labels[upto - 1] < clusters {
            cs[labels[upto - 1] as int].distance_squared(data[upto - 1])
        } else {
            0real
        },
    decreases clusters,
{
    if clusters > 0 {
        lemma_scatter_sum_grows(cs, data, labels, clusters - 1, upto);
    }
}

proof fn lemma_scatter_sum_of_nothing(
    cs: Seq<Centroid>,
    data: Seq<Sample>,
    labels: Seq<usize>,
    clusters: int,
)
    ensures
        scatter_sum(cs, data, labels, clusters, 0) == 0real,
    decreases clusters,
{
    if clusters > 0 {
        lemma_scatter_sum_of_nothing(cs, data, labels, clusters - 1);
    }
}

/// The cost is the scatter of the clusters about their centres, added up.
pub proof fn lemma_cost_by_cluster(
    cs: Seq<Centroid>,
    data: Seq<Sample>,
    labels: Seq<usize>,
    upto: int,
)
    requires
        labels_wf(labels, cs.len() as int),
        0 <= upto <= labels.len(),
    ensures
        cost(cs, data, labels, upto) == scatter_sum(cs, data, labels, cs.len() as int, upto),
    decreases upto,
{
    if upto > 0 {
        lemma_cost_by_cluster(cs, data, labels, upto - 1);
        lemma_scatter_sum_grows(cs, data, labels, cs.len() as int, upto);
    } else {
        lemma_scatter_sum_of_nothing(cs, data, labels, cs.len() as int);
    }
}

proof fn lemma_recentred_scatter_sum(
    cs: Seq<Centroid>,
    data: Seq<Sample>,
    labels: Seq<usize>,
    clusters: int,
)
    requires
        labels.len() == data.len(),
        data.len() <= MAX_SAMPLES,
        0 <= clusters <= cs.len(),
    ensures
        scatter_sum(recentred(cs, data, labels), data, labels, clusters, data.len() as int)
            <= scatter_sum(cs, data, labels, clusters, data.len() as int),
    decreases clusters,
{
    if clusters > 0 {
        lemma_recentred_scatter_sum(cs, data, labels, clusters - 1);
        lemma_mean_scatters_least(cs[clusters - 1], data, labels, clusters - 1);
    }
}

/// Moving every centre to the mean of its cluster never raises the cost.
pub proof fn lemma_recentre_never_raises_cost(
    cs: Seq<Centroid>,
    data: Seq<Sample>,
    labels: Seq<usize>,
)
    requires
        labels.len() == data.len(),
        data.len() <= MAX_SAMPLES,
        labels_wf(labels, cs.len() as int),
    ensures
        cost(recentred(cs, data, labels), data, labels, data.len() as int) <= cost(
            cs,
            data,
            labels,
            data.len() as int,
        ),
{
    let n = data.len() as int;
    lemma_cost_by_cluster(cs, data, labels, n);
    lemma_cost_by_cluster(recentred(cs, data, labels), data, labels, n);
    lemma_recentred_scatter_sum(cs, data, labels, cs.len() as int);
}

/// Giving every sample the label of its nearest centre never raises the
/// cost.
pub proof fn lemma_relabel_never_raises_cost(
    cs: Seq<Centroid>,
    data: Seq<Sample>,
    labels: Seq<usize>,
    upto: int,
)
    requires
        1 <= cs.len() <= usize::MAX,
        labels.len() == data.len(),
        labels_wf(labels, cs.len() as int),
        0 <= upto <= data.len(),
    ensures
        cost(cs, data, assigned(cs, data), upto) <= cost(cs, data, labels, upto),
    decreases upto,
{
    if upto > 0 {
        lemma_relabel_never_raises_cost(cs, data, labels, upto - 1);
        lemma_nearest(cs, data[upto - 1]);
        assert(cs[nearest(cs, data[upto - 1])].distance_squared(data[upto - 1])
            <= cs[labels[upto - 1] as int].distance_squared(data[upto - 1]));
    }
}

/// The labels that centres give name those centres.
pub proof fn lemma_assigned_labels(cs: Seq<Centroid>, data: Seq<Sample>)
    requires
        1 <= cs.len() <= usize::MAX,
    ensures
        labels_wf(assigned(cs, data), cs.len() as int),
        assigned(cs, data).len() == data.len(),
{
    assert forall|i: int| 0 <= i < data.len() implies (#[trigger] assigned(cs, data)[i])
        < cs.len() by {
        lemma_nearest(cs, data[i]);
    }
}

/// One iteration never raises the cost: the sum over all samples of the
/// squared distance to the centre of their cluster is, after the iteration,
/// at most what it was before.
pub proof fn lemma_step_never_raises_cost(data: Seq<Sample>, m: ModelView)
    requires
        1 <= m.centroids.len() <= usize::MAX,
        m.mapping.len() == data.len(),
        data.len() <= MAX_SAMPLES,
        labels_wf(m.mapping, m.centroids.len() as int),
    ensures
        model_cost(step(data, m), data) <= model_cost(m, data),
{
    let labels = assigned(m.centroids, data);
    lemma_assigned_labels(m.centroids, data);
    lemma_relabel_never_raises_cost(m.centroids, data, m.mapping, data.len() as int);
    lemma_recentre_never_raises_cost(m.centroids, data, labels);
}

/// Refinement never raises the cost: the fitted model costs at most what
/// the model it started from does.
pub proof fn lemma_refined_never_raises_cost(
    data: Seq<Sample>,
    m: ModelView,
    max_iterations: int,
    threshold: int,
)
    requires
        1 <= m.centroids.len() <= usize::MAX,
        m.mapping.len() == data.len(),
        data.len() <= MAX_SAMPLES,
        labels_wf(m.mapping, m.centroids.len() as int),
    ensures
        model_cost(refined(data, m, max_iterations, threshold), data) <= model_cost(m, data),
    decreases max_iterations - m.iter,
{
    if m.iter < max_iterations {
        let next = step(data, m);
        lemma_step_never_raises_cost(data, m);
        lemma_assigned_labels(m.centroids, data);
        lemma_refined_never_raises_cost(data, next, max_iterations, threshold);
    }
}

} // verus!
