//! The clustering engine: a trainer and the model it fits.

use vstd::prelude::*;
use crate::metric::{Sample, Dataset, DistanceMetric};
use crate::centroid::{Centroid, MAX_SAMPLES};
use crate::seeding::spread;
use crate::lloyd::{
    assigned, centres_wf, changed, channel_total, cluster_mean, is_nearest, labels_wf,
    lemma_nearest, lemma_tally_bounds, members, nearest, nearest_among, recentred, refined,
    seeded, seeds_wf, ModelView,
};

verus! {

/// A fitted model: the centres, the label of every sample, and the number of
/// iterations that were run.
#[derive(Debug)]
pub struct Model {
    pub centroids: Vec<Centroid>,
    pub mapping: Vec<usize>,
    pub iter: usize,
}

impl View for Model {
    type V = ModelView;

    open spec fn view(&self) -> ModelView {
        ModelView { centroids: self.centroids@, mapping: self.mapping@, iter: self.iter as int }
    }
}

/// The label of the centre nearest to `x`, the lowest label winning a tie.
pub fn nearest_centroid(centroids: &Vec<Centroid>, x: &Sample) -> (label: usize)
    requires
        centroids.len() >= 1,
        centres_wf(centroids@),
    ensures
        label == nearest(centroids@, *x),
        is_nearest(centroids@, *x, label as int),
{
    let mut best: usize = 0;
    let mut j: usize = 1;
    while j < centroids.len()
        invariant
            1 <= j <= centroids.len(),
            best < j,
            best == nearest_among(centroids@, *x, j as int),
            centres_wf(centroids@),
        decreases centroids.len() - j,
    {
        if centroids[j].closer(&centroids[best], x) {
            best = j;
        }
        j += 1;
    }
    proof {
        lemma_nearest(centroids@, *x);
    }
    best
}

/// Gives every sample the label of its nearest centre and returns how many
/// labels changed.
pub fn relabel(centroids: &Vec<Centroid>, data: &Dataset, mapping: &mut Vec<usize>) -> (changes:
    usize)
    requires
        centroids.len() >= 1,
        centres_wf(centroids@),
        old(mapping).len() == data.len(),
    ensures
        final(mapping)@ == assigned(centroids@, data@),
        changes == changed(old(mapping)@, final(mapping)@, data.len() as int),
        labels_wf(final(mapping)@, centroids.len() as int),
{
    let ghost before = mapping@;
    let ghost after = assigned(centroids@, data@);
    let mut changes: usize = 0;
    let mut i: usize = 0;
    while i < data.len()
        invariant
            0 <= i <= data.len(),
            mapping.len() == data.len(),
            centroids.len() >= 1,
            centres_wf(centroids@),
            after == assigned(centroids@, data@),
            forall|p: int| 0 <= p < i ==> mapping@[p] == after[p],
            forall|p: int| i <= p < data.len() ==> mapping@[p] == before[p],
            changes == changed(before, after, i as int),
            changes <= i,
        decreases data.len() - i,
    {
        let label = nearest_centroid(centroids, &data[i]);
        if mapping[i] != label {
            changes += 1;
        }
        mapping[i] = label;
        i += 1;
    }
    assert(mapping@ =~= after);
    assert forall|p: int| 0 <= p < mapping@.len() implies (#[trigger] mapping@[p])
        < centroids.len() by {
        lemma_nearest(centroids@, data@[p]);
    }
    changes
}

/// The tallies of the clusters over the first `upto` samples: for each label
/// the number of samples that carry it and their channel-wise sum.
pub open spec fn tallied(
    tallies: Seq<Centroid>,
    data: Seq<Sample>,
    labels: Seq<usize>,
    upto: int,
) -> bool {
    forall|j: int|
        0 <= j < tallies.len() ==> {
            &&& (#[trigger] tallies[j]).count == members(labels, j, upto)
            &&& tallies[j].sum[0] == channel_total(data, labels, j, 0, upto)
            &&& tallies[j].sum[1] == channel_total(data, labels, j, 1, upto)
            &&& tallies[j].sum[2] == channel_total(data, labels, j, 2, upto)
            &&& tallies[j].sum[3] == channel_total(data, labels, j, 3, upto)
        }
}

fn tally(k: usize, data: &Dataset, mapping: &Vec<usize>) -> (tallies: Vec<Centroid>)
    requires
        mapping.len() == data.len(),
        data.len() <= MAX_SAMPLES,
        labels_wf(mapping@, k as int),
    ensures
        tallies.len() == k,
        tallied(tallies@, data@, mapping@, data.len() as int),
{
    let mut tallies: Vec<Centroid> = Vec::new();
    let mut j: usize = 0;
    while j < k
        invariant
            0 <= j <= k,
            tallies.len() == j,
            tallied(tallies@, data@, mapping@, 0),
        decreases k - j,
    {
        tallies.push(Centroid { sum: [0, 0, 0, 0], count: 0 });
        j += 1;
    }
    let mut i: usize = 0;
    while i < data.len()
        invariant
            0 <= i <= data.len(),
            mapping.len() == data.len(),
            data.len() <= MAX_SAMPLES,
            labels_wf(mapping@, k as int),
            tallies.len() == k,
            tallied(tallies@, data@, mapping@, i as int),
        decreases data.len() - i,
    {
        let label = mapping[i];
        let x = data[i];
        let t = tallies[label];
        proof {
            lemma_tally_bounds(data@, mapping@, label as int, i as int);
        }
        let ghost before = tallies@;
        tallies[label] = Centroid {
            sum: [
                t.sum[0] + x[0] as u64,
                t.sum[1] + x[1] as u64,
                t.sum[2] + x[2] as u64,
                t.sum[3] + x[3] as u64,
            ],
            count: t.count + 1,
        };
        proof {
            assert forall|j: int| 0 <= j < tallies@.len() implies {
                &&& (#[trigger] tallies@[j]).count == members(mapping@, j, i + 1)
                &&& tallies@[j].sum[0] == channel_total(data@, mapping@, j, 0, i + 1)
                &&& tallies@[j].sum[1] == channel_total(data@, mapping@, j, 1, i + 1)
                &&& tallies@[j].sum[2] == channel_total(data@, mapping@, j, 2, i + 1)
                &&& tallies@[j].sum[3] == channel_total(data@, mapping@, j, 3, i + 1)
            } by {
                if j != label {
                    assert(tallies@[j] == before[j]);
                }
            }
        }
        i += 1;
    }
    tallies
}

/// Moves every centre to the mean of the samples that carry its label.  A
/// centre whose label no sample carries stays where it is.
pub fn recentre(centroids: &mut Vec<Centroid>, data: &Dataset, mapping: &Vec<usize>)
    requires
        centres_wf(old(centroids)@),
        mapping.len() == data.len(),
        data.len() <= MAX_SAMPLES,
        labels_wf(mapping@, old(centroids).len() as int),
    ensures
        final(centroids)@ == recentred(old(centroids)@, data@, mapping@),
        centres_wf(final(centroids)@),
{
    let ghost prior = centroids@;
    let ghost n = data.len() as int;
    let k = centroids.len();
    let tallies = tally(k, data, mapping);
    let mut j: usize = 0;
    while j < k
        invariant
            0 <= j <= k,
            k == centroids.len(),
            k == prior.len(),
            k == tallies.len(),
            n == data.len(),
            n <= MAX_SAMPLES,
            mapping.len() == n,
            centres_wf(prior),
            tallied(tallies@, data@, mapping@, n),
            forall|p: int| 0 <= p < j ==> centroids@[p] == cluster_mean(data@, mapping@, p, prior[p]),
            forall|p: int| j <= p < k ==> centroids@[p] == prior[p],
            forall|p: int| 0 <= p < j ==> (#[trigger] centroids@[p]).wf(),
        decreases k - j,
    {
        let t = tallies[j];
        proof {
            lemma_tally_bounds(data@, mapping@, j as int, n);
            assert(tallies@[j as int].count == members(mapping@, j as int, n));
        }
        if t.count > 0 {
            centroids[j] = t;
            proof {
                let mean = cluster_mean(data@, mapping@, j as int, prior[j as int]);
                assert(t.sum =~= mean.sum);
            }
        } else {
            assert(prior[j as int].wf());
        }
        j += 1;
    }
    assert(centroids@ =~= recentred(prior, data@, mapping@));
    assert forall|p: int| 0 <= p < centroids@.len() implies (#[trigger] centroids@[p]).wf() by {}
}

/// A fraction of the dataset, as a numerator and a denominator.
#[derive(Clone, Copy, Debug, PartialEq, Eq, Structural)]
pub struct Fraction {
    pub num: u64,
    pub den: u64,
}

impl Fraction {
    /// The fraction lies in the half-open interval from zero to one.
    pub open spec fn wf(&self) -> bool {
        self.num < self.den
    }

    /// The fraction as a real number.
    pub open spec fn value(&self) -> real {
        self.num as real / self.den as real
    }

    /// The fraction of `n`, truncated to an integer.
    pub open spec fn spec_of(&self, n: int) -> int {
        (n * self.num) / (self.den as int)
    }

    /// The fraction of `n`, truncated to an integer.
    pub fn of(&self, n: usize) -> (r: usize)
        requires
            self.wf(),
        ensures
            r == self.spec_of(n as int),
            r as real <= n as real * self.value() < (r + 1) as real,
            r <= n,
    {
        assert(0 <= n * self.num <= n * self.den && n * self.den <= u64::MAX * u64::MAX)
            by (nonlinear_arith)
            requires
                0 <= n <= u64::MAX,
                0 <= self.num < self.den <= u64::MAX,
        ;
        let product: u128 = (n as u128) * (self.num as u128);
        let q: u128 = product / (self.den as u128);
        proof {
            let t: int = n * self.num;
            let d: int = self.den as int;
            assert(d * q <= t < d * (q + 1) && q <= n) by (nonlinear_arith)
                requires
                    q == t / d,
                    d > 0,
                    0 <= t <= n * d,
                    n >= 0,
            ;
            let nr = n as real;
            let mr = self.num as real;
            let dr = self.den as real;
            let qr = q as real;
            assert(t as real == nr * mr && (d * q) as real == dr * qr && (d * (q + 1)) as real == dr
                * (qr + 1real)) by (nonlinear_arith)
                requires
                    t == n * self.num,
                    d == self.den,
                    nr == n as real,
                    mr == self.num as real,
                    dr == self.den as real,
                    qr == q as real,
            ;
            assert(qr <= nr * (mr / dr) < qr + 1real) by (nonlinear_arith)
                requires
                    dr > 0real,
                    dr * qr <= nr * mr,
                    nr * mr < dr * (qr + 1real),
            ;
        }
        q as usize
    }
}

/// Why a fit was refused.
#[derive(Clone, Copy, Debug, PartialEq, Eq, Structural)]
pub enum FitError {
    /// No cluster was asked for.
    NoClusters,
    /// More clusters were asked for than there are samples.
    TooManyClusters,
    /// The dataset holds more than `MAX_SAMPLES` samples.
    TooManySamples,
    /// The convergence fraction does not lie between zero and one.
    InvalidDelta,
    /// The seeds are not one sample of the dataset for each cluster.
    InvalidSeeds,
}

/// The configuration of a fit.
#[derive(Clone, Copy, Debug)]
pub struct Trainer {
    /// The number of clusters.
    pub k: usize,
    /// The measure of distance by which seeds are weighted.
    pub metric: DistanceMetric,
    /// The largest number of iterations to run.
    pub max_iterations: usize,
    /// An iteration that changes fewer labels than this fraction of the
    /// dataset ends the fit.
    pub delta: Fraction,
}

impl Model {
    /// The model before the first iteration: a centre on each seed sample
    /// and every sample labelled zero.
    pub fn start(data: &Dataset, seeds: &Vec<usize>) -> (model: Model)
        requires
            seeds.len() >= 1,
            seeds_wf(seeds@, seeds.len() as int, data.len() as int),
        ensures
            model@ == seeded(data@, seeds@),
            model@.wf(),
    {
        let mut centroids: Vec<Centroid> = Vec::new();
        let mut i: usize = 0;
        while i < seeds.len()
            invariant
                0 <= i <= seeds.len(),
                seeds_wf(seeds@, seeds.len() as int, data.len() as int),
                centroids.len() == i,
                centres_wf(centroids@),
                forall|p: int|
                    0 <= p < i ==> centroids@[p] == Centroid::spec_at(data@[seeds@[p] as int]),
            decreases seeds.len() - i,
        {
            centroids.push(Centroid::at(&data[seeds[i]]));
            i += 1;
        }
        let mut mapping: Vec<usize> = Vec::new();
        let mut j: usize = 0;
        while j < data.len()
            invariant
                0 <= j <= data.len(),
                mapping.len() == j,
                forall|p: int| 0 <= p < j ==> mapping@[p] == 0,
            decreases data.len() - j,
        {
            mapping.push(0);
            j += 1;
        }
        assert(centroids@ =~= seeded(data@, seeds@).centroids);
        assert(mapping@ =~= seeded(data@, seeds@).mapping);
        Model { centroids, mapping, iter: 0 }
    }
}

impl Trainer {
    /// Why a dataset of `n` samples cannot be fitted, if it cannot.
    pub open spec fn refusal(&self, n: int) -> Option<FitError> {
        if self.k == 0 {
            Some(FitError::NoClusters)
        } else if self.k > n {
            Some(FitError::TooManyClusters)
        } else if n > MAX_SAMPLES {
            Some(FitError::TooManySamples)
        } else if !self.delta.wf() {
            Some(FitError::InvalidDelta)
        } else {
            None
        }
    }

    /// The number of changed labels below which an iteration ends the fit.
    pub open spec fn threshold(&self, n: int) -> int {
        self.delta.spec_of(n)
    }

    /// The model that the fit gives from the seeds `seeds`.
    pub open spec fn fitted(&self, data: Seq<Sample>, seeds: Seq<usize>) -> ModelView {
        refined(
            data,
            seeded(data, seeds),
            self.max_iterations as int,
            self.threshold(data.len() as int),
        )
    }

    /// Tells whether a dataset of `n` samples can be fitted.
    pub fn check(&self, n: usize) -> (r: Result<(), FitError>)
        ensures
            match r {
                Ok(_) => self.refusal(n as int) is None,
                Err(e) => self.refusal(n as int) == Some(e),
            },
    {
        if self.k == 0 {
            Err(FitError::NoClusters)
        } else if self.k > n {
            Err(FitError::TooManyClusters)
        } else if n > MAX_SAMPLES {
            Err(FitError::TooManySamples)
        } else if self.delta.num >= self.delta.den {
            Err(FitError::InvalidDelta)
        } else {
            Ok(())
        }
    }

    /// Refines a model until an iteration changes fewer labels than the
    /// threshold or the iteration cap is reached.
    pub fn refine(&self, data: &Dataset, model: Model) -> (fitted: Model)
        requires
            self.delta.wf(),
            data.len() <= MAX_SAMPLES,
            model.centroids.len() >= 1,
            model@.wf(),
            model.mapping.len() == data.len(),
        ensures
            fitted@ == refined(
                data@,
                model@,
                self.max_iterations as int,
                self.threshold(data.len() as int),
            ),
            fitted@.wf(),
            fitted.centroids.len() == model.centroids.len(),
            fitted.mapping.len() == data.len(),
            fitted.iter <= self.max_iterations || fitted.iter == model.iter,
    {
        let ghost goal = refined(
            data@,
            model@,
            self.max_iterations as int,
            self.threshold(data.len() as int),
        );
        let threshold = self.delta.of(data.len());
        let mut centroids = model.centroids;
        let mut mapping = model.mapping;
        let mut iter = model.iter;
        let mut settled = false;
        while !settled && iter < self.max_iterations
            invariant
                data.len() <= MAX_SAMPLES,
                threshold == self.threshold(data.len() as int),
                centroids.len() == model.centroids.len(),
                centroids.len() >= 1,
                centres_wf(centroids@),
                mapping.len() == data.len(),
                iter <= self.max_iterations || iter == model.iter,
                ({
                    let now = ModelView { centroids: centroids@, mapping: mapping@, iter: iter as int };
                    &&& goal == if settled {
                        now
                    } else {
                        refined(data@, now, self.max_iterations as int, threshold as int)
                    }
                    &&& now.wf()
                }),
            decreases self.max_iterations - iter,
        {
            let changes = relabel(&centroids, data, &mut mapping);
            recentre(&mut centroids, data, &mapping);
            iter += 1;
            settled = changes < threshold;
        }
        Model { centroids, mapping, iter }
    }

    /// Fits a model to the dataset: draws the seeds, places a centre on each
    /// and refines.  Whatever seeds were drawn, the model is the one that
    /// `fit_with_seeds` gives from them.
    pub fn fit(&self, data: Dataset) -> (r: Result<Model, FitError>)
        ensures
            match r {
                Ok(model) => {
                    &&& self.refusal(data.len() as int) is None
                    &&& exists|seeds: Seq<usize>|
                        {
                            &&& seeds_wf(seeds, self.k as int, data.len() as int)
                            &&& spread(self.metric, data@, seeds)
                            &&& model@ == #[trigger] self.fitted(data@, seeds)
                        }
                    &&& model@.wf()
                    &&& model.centroids.len() == self.k
                    &&& model.mapping.len() == data.len()
                    &&& model.iter <= self.max_iterations
                },
                Err(e) => self.refusal(data.len() as int) == Some(e),
            },
    {
        match self.check(data.len()) {
            Err(e) => Err(e),
            Ok(_) => {
                let seeds = Model::initialize_mean(self.metric, &data, self.k);
                let model = Model::start(&data, &seeds);
                let fitted = self.refine(&data, model);
                assert(fitted@ == self.fitted(data@, seeds@));
                Ok(fitted)
            },
        }
    }

    /// Fits from given seeds: a centre is placed on each seed sample and the
    /// model is refined.  The same seeds give the same model.
    pub fn fit_with_seeds(&self, data: &Dataset, seeds: &Vec<usize>) -> (r: Result<Model, FitError>)
        ensures
            match r {
                Ok(model) => {
                    &&& self.refusal(data.len() as int) is None
                    &&& seeds_wf(seeds@, self.k as int, data.len() as int)
                    &&& model@ == self.fitted(data@, seeds@)
                    &&& model@.wf()
                    &&& model.centroids.len() == self.k
                    &&& model.mapping.len() == data.len()
                    &&& model.iter <= self.max_iterations
                },
                Err(e) => if self.refusal(data.len() as int) is None {
                    e == FitError::InvalidSeeds && !seeds_wf(
                        seeds@,
                        self.k as int,
                        data.len() as int,
                    )
                } else {
                    self.refusal(data.len() as int) == Some(e)
                },
            },
    {
        match self.check(data.len()) {
            Err(e) => Err(e),
            Ok(_) => {
                if !seeds_in_range(seeds, self.k, data.len()) {
                    Err(FitError::InvalidSeeds)
                } else {
                    let model = Model::start(data, seeds);
                    Ok(self.refine(data, model))
                }
            },
        }
    }
}

/// Whether `seeds` names `k` samples of a dataset of `n`.
pub fn seeds_in_range(seeds: &Vec<usize>, k: usize, n: usize) -> (r: bool)
    ensures
        r == seeds_wf(seeds@, k as int, n as int),
{
    if seeds.len() != k {
        return false;
    }
    let mut i: usize = 0;
    while i < seeds.len()
        invariant
            0 <= i <= seeds.len(),
            seeds.len() == k,
            forall|p: int| 0 <= p < i ==> (#[trigger] seeds@[p]) < n,
        decreases seeds.len() - i,
    {
        if seeds[i] >= n {
            return false;
        }
        i += 1;
    }
    true
}

} // verus!
