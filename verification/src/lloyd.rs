//! What one fit computes, as mathematics: the nearest centre of a sample,
//! the means of the clusters, and the refinement that repeats both.

use vstd::prelude::*;
use crate::metric::Sample;
use crate::centroid::Centroid;

verus! {

/// Every centre of `cs` is well formed.
pub open spec fn centres_wf(cs: Seq<Centroid>) -> bool {
    forall|j: int| 0 <= j < cs.len() ==> (#[trigger] cs[j]).wf()
}

/// Every label of `labels` names one of `k` clusters.
pub open spec fn labels_wf(labels: Seq<usize>, k: int) -> bool {
    forall|i: int| 0 <= i < labels.len() ==> (#[trigger] labels[i]) < k
}

/// `j` is the label of the centre nearest to `x`: no centre is nearer, and
/// every centre with a lower label is farther.
pub open spec fn is_nearest(cs: Seq<Centroid>, x: Sample, j: int) -> bool {
    &&& 0 <= j < cs.len()
    &&& forall|i: int|
        0 <= i < cs.len() ==> cs[j].distance_squared(x) <= (#[trigger] cs[i]).distance_squared(x)
    &&& forall|i: int|
        0 <= i < j ==> cs[j].distance_squared(x) < (#[trigger] cs[i]).distance_squared(x)
}

/// The label of the nearest centre among the first `upto`, found by a scan
/// in which a later centre wins only when it is strictly nearer.
pub open spec fn nearest_among(cs: Seq<Centroid>, x: Sample, upto: int) -> int
    decreases upto,
{
    if upto <= 1 {
        0
    } else {
        let best = nearest_among(cs, x, upto - 1);
        if cs[upto - 1].distance_squared(x) < cs[best].distance_squared(x) {
            upto - 1
        } else {
            best
        }
    }
}

/// The label of the centre nearest to `x`.
pub open spec fn nearest(cs: Seq<Centroid>, x: Sample) -> int {
    nearest_among(cs, x, cs.len() as int)
}

/// The scan finds the nearest of the centres it has seen.
pub proof fn lemma_nearest_among(cs: Seq<Centroid>, x: Sample, upto: int)
    requires
        1 <= upto <= cs.len(),
    ensures
        is_nearest(cs.take(upto), x, nearest_among(cs, x, upto)),
    decreases upto,
{
    if upto > 1 {
        lemma_nearest_among(cs, x, upto - 1);
        let best = nearest_among(cs, x, upto - 1);
        let j = nearest_among(cs, x, upto);
        let shorter = cs.take(upto - 1);
        let longer = cs.take(upto);
        assert forall|i: int| 0 <= i < longer.len() implies longer[j].distance_squared(x) <= (
        #[trigger] longer[i]).distance_squared(x) by {
            if i < upto - 1 {
                assert(shorter[i] == longer[i]);
            }
        }
        assert forall|i: int| 0 <= i < j implies longer[j].distance_squared(x) < (
        #[trigger] longer[i]).distance_squared(x) by {
            if i < upto - 1 {
                assert(shorter[i] == longer[i]);
            }
            if i < best {
                assert(shorter[best].distance_squared(x) < shorter[i].distance_squared(x));
            }
        }
    }
}

/// The scan over all centres finds the nearest one.
pub proof fn lemma_nearest(cs: Seq<Centroid>, x: Sample)
    requires
        cs.len() >= 1,
    ensures
        is_nearest(cs, x, nearest(cs, x)),
{
    lemma_nearest_among(cs, x, cs.len() as int);
    assert(cs.take(cs.len() as int) =~= cs);
}

/// Only one label is the nearest.
pub proof fn lemma_nearest_unique(cs: Seq<Centroid>, x: Sample, a: int, b: int)
    requires
        is_nearest(cs, x, a),
        is_nearest(cs, x, b),
    ensures
        a == b,
{
    if a < b {
        assert(cs[b].distance_squared(x) < cs[a].distance_squared(x));
    } else if b < a {
        assert(cs[a].distance_squared(x) < cs[b].distance_squared(x));
    }
}

/// The labels that the centres `cs` give to the samples of `data`.
pub open spec fn assigned(cs: Seq<Centroid>, data: Seq<Sample>) -> Seq<usize> {
    Seq::new(data.len(), |i: int| nearest(cs, data[i]) as usize)
}

/// How many of the first `upto` samples carry the label `j`.
pub open spec fn members(labels: Seq<usize>, j: int, upto: int) -> int
    decreases upto,
{
    if upto <= 0 {
        0
    } else {
        members(labels, j, upto - 1) + if labels[upto - 1] == j {
            1int
        } else {
            0int
        }
    }
}

/// The sum of one channel over those of the first `upto` samples that carry
/// the label `j`.
pub open spec fn channel_total(
    data: Seq<Sample>,
    labels: Seq<usize>,
    j: int,
    channel: int,
    upto: int,
) -> int
    decreases upto,
{
    if upto <= 0 {
        0
    } else {
        channel_total(data, labels, j, channel, upto - 1) + if labels[upto - 1] == j {
            data[upto - 1][channel] as int
        } else {
            0int
        }
    }
}

/// The mean of the samples labelled `j`, as a centre; the centre `prior`
/// where no sample carries that label.
pub open spec fn cluster_mean(data: Seq<Sample>, labels: Seq<usize>, j: int, prior: Centroid)
    -> Centroid {
    let n = data.len() as int;
    if members(labels, j, n) == 0 {
        prior
    } else {
        Centroid {
            sum: [
                channel_total(data, labels, j, 0, n) as u64,
                channel_total(data, labels, j, 1, n) as u64,
                channel_total(data, labels, j, 2, n) as u64,
                channel_total(data, labels, j, 3, n) as u64,
            ],
            count: members(labels, j, n) as u64,
        }
    }
}

/// The centres after an update: each the mean of its cluster, an empty
/// cluster keeping the centre it had.
pub open spec fn recentred(cs: Seq<Centroid>, data: Seq<Sample>, labels: Seq<usize>) -> Seq<
    Centroid,
> {
    Seq::new(cs.len(), |j: int| cluster_mean(data, labels, j, cs[j]))
}

/// How many of the first `upto` samples have different labels in `before`
/// and `after`.
pub open spec fn changed(before: Seq<usize>, after: Seq<usize>, upto: int) -> int
    decreases upto,
{
    if upto <= 0 {
        0
    } else {
        changed(before, after, upto - 1) + if before[upto - 1] != after[upto - 1] {
            1int
        } else {
            0int
        }
    }
}

/// A cluster has between zero and `upto` members, and each channel total is
/// at most 255 for each member.
pub proof fn lemma_tally_bounds(data: Seq<Sample>, labels: Seq<usize>, j: int, upto: int)
    requires
        0 <= upto <= data.len(),
        labels.len() == data.len(),
    ensures
        0 <= members(labels, j, upto) <= upto,
        0 <= channel_total(data, labels, j, 0, upto) <= 255 * members(labels, j, upto),
        0 <= channel_total(data, labels, j, 1, upto) <= 255 * members(labels, j, upto),
        0 <= channel_total(data, labels, j, 2, upto) <= 255 * members(labels, j, upto),
        0 <= channel_total(data, labels, j, 3, upto) <= 255 * members(labels, j, upto),
    decreases upto,
{
    if upto > 0 {
        lemma_tally_bounds(data, labels, j, upto - 1);
    }
}

/// What a model holds, as mathematics: the centres, the label of every
/// sample, and the number of iterations run so far.
pub struct ModelView {
    pub centroids: Seq<Centroid>,
    pub mapping: Seq<usize>,
    pub iter: int,
}

impl ModelView {
    /// Every centre is well formed and every label names a centre.
    pub open spec fn wf(self) -> bool {
        &&& centres_wf(self.centroids)
        &&& labels_wf(self.mapping, self.centroids.len() as int)
    }
}

/// `seeds` names `k` samples of a dataset of `n`.
pub open spec fn seeds_wf(seeds: Seq<usize>, k: int, n: int) -> bool {
    &&& seeds.len() == k
    &&& forall|i: int| 0 <= i < seeds.len() ==> (#[trigger] seeds[i]) < n
}

/// The model before the first iteration: a centre on each seed sample and
/// every sample labelled zero.
pub open spec fn seeded(data: Seq<Sample>, seeds: Seq<usize>) -> ModelView {
    ModelView {
        centroids: Seq::new(seeds.len(), |i: int| Centroid::spec_at(data[seeds[i] as int])),
        mapping: Seq::new(data.len(), |i: int| 0usize),
        iter: 0,
    }
}

/// One iteration: every sample takes the label of its nearest centre, then
/// every centre moves to the mean of its cluster.
pub open spec fn step(data: Seq<Sample>, m: ModelView) -> ModelView {
    let mapping = assigned(m.centroids, data);
    ModelView {
        centroids: recentred(m.centroids, data, mapping),
        mapping,
        iter: m.iter + 1,
    }
}

/// The model after refinement: iterations are run until one changes fewer
/// than `threshold` labels or `max_iterations` have been run.
pub open spec fn refined(data: Seq<Sample>, m: ModelView, max_iterations: int, threshold: int)
    -> ModelView
    decreases max_iterations - m.iter,
{
    if m.iter >= max_iterations {
        m
    } else {
        let next = step(data, m);
        if changed(m.mapping, next.mapping, data.len() as int) < threshold {
            next
        } else {
            refined(data, next, max_iterations, threshold)
        }
    }
}

} // verus!
