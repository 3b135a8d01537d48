use kcomprs::dispatch::{plan, JobPool, Plan};
use std::sync::Mutex;

#[test]
fn nothing_to_do_without_jobs() {
    assert_eq!(plan(0, 4), Plan::Idle);
    assert_eq!(plan(0, 0), Plan::Idle);
}

#[test]
fn a_single_job_runs_in_place() {
    assert_eq!(plan(1, 8), Plan::Sequential);
}

#[test]
fn a_single_worker_runs_in_place() {
    assert_eq!(plan(5, 1), Plan::Sequential);
    assert_eq!(plan(5, 0), Plan::Sequential);
}

#[test]
fn many_jobs_go_to_the_workers() {
    assert_eq!(plan(2, 2), Plan::Workers(2));
    assert_eq!(plan(100, 3), Plan::Workers(3));
    assert_eq!(plan(3, 100), Plan::Workers(100));
}

#[test]
fn claim_hands_out_the_last_job_first() {
    let mut pool = JobPool::new(vec![10, 20, 30]);
    assert_eq!(pool.len(), 3);
    assert!(!pool.is_empty());
    assert_eq!(pool.claim(), Some(30));
    assert_eq!(pool.claim(), Some(20));
    assert_eq!(pool.len(), 1);
    assert_eq!(pool.claim(), Some(10));
    assert!(pool.is_empty());
    assert_eq!(pool.claim(), None);
    assert_eq!(pool.claim(), None);
}

#[test]
fn an_empty_pool_hands_out_nothing() {
    let mut pool: JobPool<String> = JobPool::new(vec![]);
    assert!(pool.is_empty());
    assert_eq!(pool.claim(), None);
}

#[test]
fn workers_taking_turns_process_every_job_once() {
    let jobs: Vec<usize> = (0..10).collect();
    let pool = Mutex::new(JobPool::new(jobs));
    let workers = 3;
    let mut done = vec![0usize; 10];
    let mut retired = vec![false; workers];
    let mut turn = 0;
    while retired.iter().any(|r| !r) {
        let w = turn % workers;
        turn += 1;
        if retired[w] {
            continue;
        }
        match pool.lock().unwrap().claim() {
            Some(id) => done[id] += 1,
            None => retired[w] = true,
        }
    }
    assert_eq!(done, vec![1; 10]);
    assert!(pool.lock().unwrap().is_empty());
}

#[test]
fn uneven_workers_process_every_job_once() {
    // The first worker claims three jobs for each one of the second.
    let mut pool = JobPool::new((0..25usize).collect());
    let mut by_worker = [Vec::new(), Vec::new()];
    let mut turn = 0;
    loop {
        let w = if turn % 4 == 3 { 1 } else { 0 };
        turn += 1;
        match pool.claim() {
            Some(id) => by_worker[w].push(id),
            None => break,
        }
    }
    let mut all: Vec<usize> = by_worker.concat();
    assert_eq!(all.len(), 25);
    all.sort();
    assert_eq!(all, (0..25).collect::<Vec<usize>>());
    assert!(by_worker[0].iter().all(|id| !by_worker[1].contains(id)));
}
