//! The settings of a run and the jobs they turn an image into.

use vstd::prelude::*;
use crate::metric::{Dataset, DistanceMetric};
use crate::model::{Fraction, Trainer};

verus! {

/// The settings of a run, as given on the command line.
#[derive(Debug)]
pub struct Cli {
    /// The image files and directories to process.
    pub files: Vec<String>,
    /// The number of colours to reduce an image to.
    pub colors: usize,
    /// The directory to write to; beside the input where there is none.
    pub output: Option<String>,
    /// The number of outputs to make of one image, with a growing number
    /// of colours.
    pub series: Option<usize>,
    /// The largest number of iterations of one fit.
    pub round: usize,
    /// Trade accuracy for speed.
    pub quick: bool,
    /// Replace an output file that exists.
    pub overwrite: bool,
    /// The number of workers; zero asks for one for each processor.
    pub concurrency: usize,
    /// Reserved; nothing reads it.
    pub kmeans_concurrency: Option<usize>,
    /// The convergence fraction of a fit.
    pub delta: Fraction,
    /// The name of the distance metric.
    pub distance_algo: String,
    /// The quality of a JPEG output; without it the output is a PNG.
    pub jpeg: Option<u32>,
    /// Also write an image of the palette.
    pub palette: bool,
    /// Log more.
    pub debug: bool,
}

/// The settings of one job.
#[derive(Debug)]
pub struct ProcessImageConfig {
    pub colors: usize,
    pub round: usize,
    /// The quality of a JPEG output; zero asks for a PNG.
    pub jpeg: u32,
    pub output: Option<String>,
    pub overwrite: bool,
    pub metric: DistanceMetric,
    pub delta: Fraction,
    pub palette: bool,
}

/// One job: an image, where it came from, and what to do with it.
#[derive(Debug)]
pub struct DecodedImage {
    /// The pixels in row-major order.
    pub pixels: Dataset,
    pub width: u32,
    pub height: u32,
    pub path: String,
    pub config: ProcessImageConfig,
}

/// The convergence fraction of quick mode: one hundredth.
pub open spec fn quick_delta() -> Fraction {
    Fraction { num: 1, den: 100 }
}

/// The iteration cap of quick mode.
pub const QUICK_ROUND: usize = 50;

/// The number of workers for a requested number and a number of
/// processors: the requested number, or where that is zero one worker for
/// each processor, and one at least.
pub open spec fn spec_worker_budget(requested: usize, cpus: usize) -> usize {
    if requested > 0 {
        requested
    } else if cpus > 0 {
        cpus
    } else {
        1
    }
}

/// The number of workers for a requested number and a number of processors.
pub fn worker_budget(requested: usize, cpus: usize) -> (w: usize)
    ensures
        w == spec_worker_budget(requested, cpus),
        w >= 1,
{
    if requested > 0 {
        requested
    } else if cpus > 0 {
        cpus
    } else {
        1
    }
}

/// The number of processors that `num_cpus::get` reports for this process.
/// Nothing is claimed of it.
#[verifier::external_body]
fn available_cpus() -> (n: usize) {
    num_cpus::get()
}

/// The number of workers of a run that asks for none: one for each
/// processor, and one at least.
pub fn default_concurrency() -> (w: usize)
    ensures
        w >= 1,
{
    worker_budget(0, available_cpus())
}

/// The colour counts of the jobs of one image, in the order of the jobs.
/// A series of more than one asks for a job at each multiple of
/// `colors / series` below `series` times it or, where that step is at most
/// one, at each count from two up to `colors` less one.  The last job is
/// always the one at `colors`.
pub open spec fn series_colors(colors: usize, series: Option<usize>) -> Seq<usize> {
    if series is Some && series->0 > 1 {
        let step = colors as int / series->0 as int;
        if step <= 1 {
            Seq::new(
                if colors > 2 {
                    (colors - 2) as nat
                } else {
                    0
                },
                |i: int| (i + 2) as usize,
            ).push(colors)
        } else {
            Seq::new((series->0 - 1) as nat, |i: int| (step * (i + 1)) as usize).push(colors)
        }
    } else {
        seq![colors]
    }
}

/// The colour counts of a series grow strictly and end at `colors`, so
/// exactly one job is at `colors`.
pub proof fn lemma_series_grows(colors: usize, series: Option<usize>)
    ensures
        series_colors(colors, series).len() >= 1,
        series_colors(colors, series).last() == colors,
        forall|i: int, j: int|
            0 <= i < j < series_colors(colors, series).len() ==> series_colors(colors, series)[i]
                < series_colors(colors, series)[j],
        forall|i: int|
            0 <= i < series_colors(colors, series).len() - 1 ==> series_colors(colors, series)[i]
                != colors,
{
    let ks = series_colors(colors, series);
    if series is Some && series->0 > 1 {
        let s = series->0 as int;
        let step = colors as int / s;
        if step > 1 {
            assert(step * s <= colors) by (nonlinear_arith)
                requires
                    step == colors as int / s,
                    s > 0,
                    colors >= 0,
            ;
            assert forall|i: int, j: int| 0 <= i < j < ks.len() implies ks[i] < ks[j] by {
                assert(step * (i + 1) < step * (i + 2) && step * (i + 2) <= step * s && 0 < step * (
                i + 1)) by (nonlinear_arith)
                    requires
                        step > 1,
                        0 <= i,
                        i + 2 <= s,
                ;
                if j < ks.len() - 1 {
                    assert(step * (i + 1) < step * (j + 1) && step * (j + 1) < step * s)
                        by (nonlinear_arith)
                        requires
                            step > 1,
                            0 <= i < j,
                            j + 1 < s,
                    ;
                } else {
                    assert(step * (i + 1) < step * s) by (nonlinear_arith)
                        requires
                            step > 1,
                            0 <= i,
                            i + 1 < s,
                    ;
                }
            }
        }
    }
    assert forall|i: int| 0 <= i < ks.len() - 1 implies ks[i] != colors by {
        assert(ks[i] < ks[ks.len() - 1]);
    }
}

/// The colour counts of the jobs of one image.
pub fn job_colors(colors: usize, series: Option<usize>) -> (ks: Vec<usize>)
    ensures
        ks@ == series_colors(colors, series),
{
    let mut ks: Vec<usize> = Vec::new();
    match series {
        Some(s) => {
            if s > 1 {
                let step = colors / s;
                if step <= 1 {
                    let mut k: usize = 2;
                    while k < colors
                        invariant
                            2 <= k,
                            k == 2 || k <= colors,
                            ks.len() == k - 2,
                            forall|i: int| 0 <= i < ks.len() ==> ks@[i] == i + 2,
                        decreases colors - k,
                    {
                        ks.push(k);
                        k += 1;
                    }
                } else {
                    let mut i: usize = 1;
                    while i < s
                        invariant
                            1 <= i <= s,
                            step == colors as int / s as int,
                            step > 1,
                            ks.len() == i - 1,
                            forall|p: int| 0 <= p < ks.len() ==> ks@[p] == step * (p + 1),
                        decreases s - i,
                    {
                        assert(0 <= step * i < step * s <= colors) by (nonlinear_arith)
                            requires
                                step == colors as int / s as int,
                                step > 1,
                                1 <= i < s,
                        ;
                        ks.push(step * i);
                        i += 1;
                    }
                }
            }
        },
        None => {},
    }
    ks.push(colors);
    proof {
        let goal = series_colors(colors, series);
        assert(ks@.len() == goal.len());
        assert forall|p: int| 0 <= p < ks@.len() implies ks@[p] == goal[p] by {
            if series is Some && series->0 > 1 {
                let s = series->0 as int;
                let step = colors as int / s;
                if step > 1 && p < ks@.len() - 1 {
                    assert(0 <= step * (p + 1) < step * s <= colors) by (nonlinear_arith)
                        requires
                            step == colors as int / s,
                            step > 1,
                            0 <= p,
                            p + 1 < s,
                    ;
                }
            }
        }
        assert(ks@ =~= goal);
    }
    ks
}

pub(crate) fn copy_pixels(pixels: &Dataset) -> (copy: Dataset)
    ensures
        copy@ == pixels@,
{
    let mut copy: Dataset = Vec::new();
    let mut i: usize = 0;
    while i < pixels.len()
        invariant
            0 <= i <= pixels.len(),
            copy@ == pixels@.take(i as int),
        decreases pixels.len() - i,
    {
        copy.push(pixels[i]);
        assert(copy@ =~= pixels@.take(i + 1));
        i += 1;
    }
    assert(pixels@.take(pixels.len() as int) =~= pixels@);
    copy
}

fn copy_name(name: &Option<String>) -> (copy: Option<String>)
    ensures
        copy == *name,
{
    match name {
        Some(s) => Some(s.clone()),
        None => None,
    }
}

impl DecodedImage {
    /// The image has a pixel for every position of its grid.
    pub open spec fn wf(&self) -> bool {
        self.pixels.len() == self.width * self.height
    }
}

impl ProcessImageConfig {
    /// The trainer that this job fits with.
    pub open spec fn spec_trainer(&self) -> Trainer {
        Trainer {
            k: self.colors,
            metric: self.metric,
            max_iterations: self.round,
            delta: self.delta,
        }
    }

    /// The trainer that this job fits with: as many clusters as colours, as
    /// many iterations as rounds.
    pub fn trainer(&self) -> (t: Trainer)
        ensures
            t == self.spec_trainer(),
    {
        Trainer {
            k: self.colors,
            metric: self.metric,
            max_iterations: self.round,
            delta: self.delta,
        }
    }
}

impl Cli {
    /// The settings of a run on a machine with `cpus` processors: quick
    /// mode sets the convergence fraction to one hundredth and the iteration
    /// cap to fifty, and a worker count of zero becomes one worker for each
    /// processor.
    pub open spec fn resolved(self, cpus: usize) -> Cli {
        Cli {
            concurrency: spec_worker_budget(self.concurrency, cpus),
            delta: if self.quick {
                quick_delta()
            } else {
                self.delta
            },
            round: if self.quick {
                QUICK_ROUND
            } else {
                self.round
            },
            ..self
        }
    }

    /// The settings of a run on a machine with `cpus` processors.
    pub fn on_cpus(parsed: Cli, cpus: usize) -> (cli: Cli)
        ensures
            cli == parsed.resolved(cpus),
    {
        let concurrency = worker_budget(parsed.concurrency, cpus);
        let delta = if parsed.quick {
            Fraction { num: 1, den: 100 }
        } else {
            parsed.delta
        };
        let round = if parsed.quick {
            QUICK_ROUND
        } else {
            parsed.round
        };
        Cli { concurrency, delta, round, ..parsed }
    }

    /// The settings of a run on this machine.
    pub fn new(parsed: Cli) -> (cli: Cli)
        ensures
            exists|cpus: usize| cli == #[trigger] parsed.resolved(cpus),
            cli.concurrency >= 1,
    {
        let cpus = available_cpus();
        Cli::on_cpus(parsed, cpus)
    }

    /// Whether `config` is what these settings give a job, but for its
    /// number of colours.
    pub open spec fn configures(&self, config: ProcessImageConfig) -> bool {
        &&& config.round == self.round
        &&& config.jpeg == if self.jpeg is Some {
            self.jpeg->0
        } else {
            0
        }
        &&& config.output == self.output
        &&& config.overwrite == self.overwrite
        &&& config.metric == DistanceMetric::named(self.distance_algo@)
        &&& config.delta == self.delta
        &&& config.palette == self.palette
    }

    /// The settings of the job at the full number of colours.
    pub fn config(&self) -> (config: ProcessImageConfig)
        ensures
            self.configures(config),
            config.colors == self.colors,
    {
        ProcessImageConfig {
            colors: self.colors,
            round: self.round,
            jpeg: match self.jpeg {
                Some(q) => q,
                None => 0,
            },
            output: copy_name(&self.output),
            overwrite: self.overwrite,
            metric: DistanceMetric::from_name(self.distance_algo.as_str()),
            delta: self.delta,
            palette: self.palette,
        }
    }

    /// The jobs of one image: one for each colour count of the series, the
    /// last at the full number of colours, each with a copy of the pixels of
    /// its own.
    pub fn materialize(&self, pixels: &Dataset, width: u32, height: u32, path: &str) -> (jobs: Vec<
        DecodedImage,
    >)
        ensures
            jobs.len() == series_colors(self.colors, self.series).len(),
            forall|i: int|
                0 <= i < jobs.len() ==> {
                    &&& (#[trigger] jobs@[i]).config.colors == series_colors(
                        self.colors,
                        self.series,
                    )[i]
                    &&& self.configures(jobs@[i].config)
                    &&& jobs@[i].pixels@ == pixels@
                    &&& jobs@[i].width == width
                    &&& jobs@[i].height == height
                    &&& jobs@[i].path@ == path@
                    &&& pixels.len() == width * height ==> jobs@[i].wf()
                },
    {
        let ks = job_colors(self.colors, self.series);
        let mut jobs: Vec<DecodedImage> = Vec::new();
        let mut i: usize = 0;
        while i < ks.len()
            invariant
                0 <= i <= ks.len(),
                ks@ == series_colors(self.colors, self.series),
                jobs.len() == i,
                forall|p: int|
                    0 <= p < jobs.len() ==> {
                        &&& (#[trigger] jobs@[p]).config.colors == ks@[p]
                        &&& self.configures(jobs@[p].config)
                        &&& jobs@[p].pixels@ == pixels@
                        &&& jobs@[p].width == width
                        &&& jobs@[p].height == height
                        &&& jobs@[p].path@ == path@
                    },
            decreases ks.len() - i,
        {
            let mut config = self.config();
            config.colors = ks[i];
            jobs.push(
                DecodedImage {
                    pixels: copy_pixels(pixels),
                    width,
                    height,
                    path: String::from_str(path),
                    config,
                },
            );
            i += 1;
        }
        jobs
    }
}

} // verus!
