use kcomprs::cli::{default_concurrency, job_colors, worker_budget, Cli, QUICK_ROUND};
use kcomprs::metric::DistanceMetric;
use kcomprs::model::Fraction;

fn settings() -> Cli {
    Cli {
        files: vec![String::from("a.png"), String::from("dir")],
        colors: 15,
        output: None,
        series: None,
        round: 100,
        quick: false,
        overwrite: false,
        concurrency: 4,
        kmeans_concurrency: None,
        delta: Fraction { num: 5, den: 1000 },
        distance_algo: String::from("EuclideanDistance"),
        jpeg: None,
        palette: false,
        debug: false,
    }
}

#[test]
fn series_of_four_up_to_ten_colours() {
    let ks = job_colors(10, Some(4));
    assert_eq!(ks, vec![2, 4, 6, 10]);
    assert_eq!(ks.iter().filter(|&&k| k == 10).count(), 1);
}

#[test]
fn series_with_a_small_step_counts_up_from_two() {
    assert_eq!(job_colors(5, Some(4)), vec![2, 3, 4, 5]);
    assert_eq!(job_colors(5, Some(5)), vec![2, 3, 4, 5]);
    assert_eq!(job_colors(5, Some(9)), vec![2, 3, 4, 5]);
    assert_eq!(job_colors(3, Some(2)), vec![2, 3]);
}

#[test]
fn series_of_few_colours_is_the_final_job_alone() {
    assert_eq!(job_colors(2, Some(3)), vec![2]);
    assert_eq!(job_colors(1, Some(3)), vec![1]);
    assert_eq!(job_colors(0, Some(3)), vec![0]);
}

#[test]
fn no_series_is_the_final_job_alone() {
    assert_eq!(job_colors(15, None), vec![15]);
    assert_eq!(job_colors(15, Some(1)), vec![15]);
    assert_eq!(job_colors(15, Some(0)), vec![15]);
}

#[test]
fn series_steps_by_the_quotient() {
    assert_eq!(job_colors(15, Some(3)), vec![5, 10, 15]);
    assert_eq!(job_colors(16, Some(3)), vec![5, 10, 16]);
    assert_eq!(job_colors(100, Some(2)), vec![50, 100]);
    assert_eq!(job_colors(256, Some(5)), vec![51, 102, 153, 204, 256]);
}

#[test]
fn every_series_grows_and_ends_at_the_number_of_colours() {
    for colors in 0..40usize {
        for series in 0..45usize {
            let ks = job_colors(colors, Some(series));
            assert_eq!(*ks.last().unwrap(), colors);
            assert_eq!(ks.iter().filter(|&&k| k == colors).count(), 1);
            assert!(ks.windows(2).all(|w| w[0] < w[1]));
        }
    }
}

#[test]
fn worker_budget_of_zero_is_the_number_of_processors() {
    assert_eq!(worker_budget(0, 8), 8);
    assert_eq!(worker_budget(0, 1), 1);
    assert_eq!(worker_budget(0, 0), 1);
    assert_eq!(worker_budget(3, 8), 3);
    assert_eq!(worker_budget(16, 0), 16);
}

#[test]
fn default_concurrency_is_at_least_one() {
    assert!(default_concurrency() >= 1);
}

#[test]
fn quick_mode_relaxes_the_fit() {
    let mut parsed = settings();
    parsed.quick = true;
    let cli = Cli::on_cpus(parsed, 8);
    assert_eq!(cli.delta, Fraction { num: 1, den: 100 });
    assert_eq!(cli.round, 50);
    assert_eq!(cli.round, QUICK_ROUND);
    assert_eq!(cli.concurrency, 4);
    assert_eq!(cli.colors, 15);
    assert_eq!(cli.files, vec![String::from("a.png"), String::from("dir")]);
}

#[test]
fn settings_without_quick_mode_keep_the_fit() {
    let mut parsed = settings();
    parsed.concurrency = 0;
    let cli = Cli::on_cpus(parsed, 6);
    assert_eq!(cli.delta, Fraction { num: 5, den: 1000 });
    assert_eq!(cli.round, 100);
    assert_eq!(cli.concurrency, 6);
    assert!(!cli.quick);
}

#[test]
fn settings_on_this_machine_have_a_worker() {
    let mut parsed = settings();
    parsed.concurrency = 0;
    let cli = Cli::new(parsed);
    assert!(cli.concurrency >= 1);
    let cli = Cli::new(settings());
    assert_eq!(cli.concurrency, 4);
    assert_eq!(cli.round, 100);
}

#[test]
fn job_settings_follow_the_run() {
    let mut cli = settings();
    cli.jpeg = Some(80);
    cli.output = Some(String::from("out"));
    cli.overwrite = true;
    cli.palette = true;
    cli.distance_algo = String::from("EuclideanDistanceSquared");
    let config = cli.config();
    assert_eq!(config.colors, 15);
    assert_eq!(config.round, 100);
    assert_eq!(config.jpeg, 80);
    assert_eq!(config.output, Some(String::from("out")));
    assert!(config.overwrite);
    assert!(config.palette);
    assert_eq!(config.metric, DistanceMetric::EuclideanSquared);
    assert_eq!(config.delta, Fraction { num: 5, den: 1000 });
    let plain = settings().config();
    assert_eq!(plain.jpeg, 0);
    assert_eq!(plain.output, None);
    assert_eq!(plain.metric, DistanceMetric::Euclidean);
}

#[test]
fn job_trainer_follows_the_job() {
    let mut config = settings().config();
    config.colors = 7;
    let t = config.trainer();
    assert_eq!(t.k, 7);
    assert_eq!(t.max_iterations, 100);
    assert_eq!(t.delta, Fraction { num: 5, den: 1000 });
    assert_eq!(t.metric, DistanceMetric::Euclidean);
}

#[test]
fn one_image_becomes_one_job_for_each_colour_count() {
    let mut cli = settings();
    cli.colors = 10;
    cli.series = Some(4);
    let pixels = vec![[1, 2, 3, 4], [5, 6, 7, 8]];
    let mut jobs = cli.materialize(&pixels, 2, 1, "pics/a.png");
    let ks: Vec<usize> = jobs.iter().map(|j| j.config.colors).collect();
    assert_eq!(ks, vec![2, 4, 6, 10]);
    for job in &jobs {
        assert_eq!(job.pixels, pixels);
        assert_eq!(job.width, 2);
        assert_eq!(job.height, 1);
        assert_eq!(job.path, "pics/a.png");
        assert_eq!(job.config.round, 100);
    }
    // Each job owns its pixels.
    jobs[0].pixels[0] = [9, 9, 9, 9];
    assert_eq!(jobs[1].pixels[0], [1, 2, 3, 4]);
    assert_eq!(pixels[0], [1, 2, 3, 4]);
}

#[test]
fn one_image_without_series_becomes_one_job() {
    let cli = settings();
    let jobs = cli.materialize(&vec![[1, 2, 3, 4]], 1, 1, "a.png");
    assert_eq!(jobs.len(), 1);
    assert_eq!(jobs[0].config.colors, 15);
}
