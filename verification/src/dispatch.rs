//! Handing jobs to workers: how many workers run, and the pool from which
//! each worker claims one job at a time.

use vstd::prelude::*;
use vstd::seq_lib::*;
use vstd::multiset::*;

verus! {

/// How the jobs of a run are executed.
#[derive(Clone, Copy, Debug, PartialEq, Eq, Structural)]
pub enum Plan {
    /// There is nothing to do.
    Idle,
    /// The jobs run one after another where they were submitted.
    Sequential,
    /// This many workers claim the jobs from a shared pool.
    Workers(usize),
}

/// How `jobs` jobs are executed with a budget of `budget` workers: one
/// after another where there is a single job or at most one worker, else by
/// `budget` workers.
pub fn plan(jobs: usize, budget: usize) -> (p: Plan)
    ensures
        p == if jobs == 0 {
            Plan::Idle
        } else if jobs == 1 || budget <= 1 {
            Plan::Sequential
        } else {
            Plan::Workers(budget)
        },
{
    if jobs == 0 {
        Plan::Idle
    } else if jobs == 1 || budget <= 1 {
        Plan::Sequential
    } else {
        Plan::Workers(budget)
    }
}

/// The pool of pending jobs that the workers share.  It remembers what it
/// handed out, so that its contracts can say that every job leaves it once.
pub struct JobPool<T> {
    pending: Vec<T>,
    claimed: Ghost<Seq<T>>,
}

impl<T> JobPool<T> {
    /// The jobs that wait, the next to be claimed last.
    pub closed spec fn pending(&self) -> Seq<T> {
        self.pending@
    }

    /// The jobs that were claimed, in the order of the claims.
    pub closed spec fn claimed(&self) -> Seq<T> {
        self.claimed@
    }

    /// The jobs that were submitted: those that wait, followed by those
    /// that were claimed, the latest claim first.
    pub open spec fn submitted(&self) -> Seq<T> {
        self.pending() + self.claimed().reverse()
    }

    /// A pool that holds `jobs`.
    pub fn new(jobs: Vec<T>) -> (pool: Self)
        ensures
            pool.submitted() == jobs@,
            pool.pending() == jobs@,
            pool.claimed() == Seq::<T>::empty(),
    {
        let ghost all = jobs@;
        let pool = JobPool { pending: jobs, claimed: Ghost(Seq::empty()) };
        assert(Seq::<T>::empty().reverse() =~= Seq::<T>::empty());
        assert(all + Seq::<T>::empty() =~= all);
        pool
    }

    /// The number of jobs that wait.
    pub fn len(&self) -> (n: usize)
        ensures
            n == self.pending().len(),
    {
        self.pending.len()
    }

    /// Whether no job waits.
    pub fn is_empty(&self) -> (r: bool)
        ensures
            r == (self.pending().len() == 0),
    {
        self.pending.len() == 0
    }

    /// Claims the next job: takes it out of the pool and hands it to the
    /// caller, or tells that the pool is empty.  What was submitted stays
    /// what it was: the job that leaves the waiting ones joins the claimed
    /// ones.
    pub fn claim(&mut self) -> (r: Option<T>)
        ensures
            final(self).submitted() == old(self).submitted(),
            match r {
                Some(job) => {
                    &&& old(self).pending().len() > 0
                    &&& job == old(self).pending().last()
                    &&& job == handed_at(old(self).submitted(), old(self).claimed().len() as int)
                    &&& final(self).pending() == old(self).pending().drop_last()
                    &&& final(self).claimed() == old(self).claimed().push(job)
                },
                None => {
                    &&& old(self).pending().len() == 0
                    &&& final(self).pending() == old(self).pending()
                    &&& final(self).claimed() == old(self).claimed()
                },
            },
    {
        let ghost before = self.pending@;
        let ghost done = self.claimed@;
        let r = self.pending.pop();
        proof {
            if r is Some {
                let job = r->0;
                self.claimed = Ghost(done.push(job));
                assert(done.push(job).reverse() =~= seq![job] + done.reverse());
                assert(before =~= before.drop_last() + seq![job]);
                assert(before + done.reverse() =~= before.drop_last() + (seq![job]
                    + done.reverse()));
            }
        }
        r
    }

    /// Once the pool is empty every submitted job has been claimed exactly
    /// once: the claims, in their order, are the submitted jobs from the last
    /// to the first.
    pub proof fn lemma_drained(&self)
        requires
            self.pending().len() == 0,
        ensures
            self.claimed() == self.submitted().reverse(),
            self.claimed().len() == self.submitted().len(),
            forall|i: int|
                0 <= i < self.submitted().len() ==> self.claimed()[self.submitted().len() - 1 - i]
                    == #[trigger] self.submitted()[i],
    {
        assert(self.pending() =~= Seq::<T>::empty());
        assert(self.submitted() =~= self.claimed().reverse());
        assert(self.claimed().reverse().reverse() =~= self.claimed());
    }

    /// At every moment each submitted job either waits or has been claimed,
    /// and none does both: a job submitted at a position below the number of
    /// waiting jobs waits there, and any other was claimed, the later
    /// submitted the earlier.
    pub proof fn lemma_nothing_lost(&self)
        ensures
            self.pending().len() + self.claimed().len() == self.submitted().len(),
            forall|i: int|
                0 <= i < self.pending().len() ==> self.pending()[i] == #[trigger] self.submitted()[i],
            forall|i: int|
                self.pending().len() <= i < self.submitted().len() ==> self.claimed()[
                    self.submitted().len() - 1 - i] == #[trigger] self.submitted()[i],
    {
    }
}

/// The job that claim number `claim` hands out of a pool made with
/// `submitted`, the first claim being number zero: the last job first.
pub open spec fn handed_at<T>(submitted: Seq<T>, claim: int) -> T {
    submitted[submitted.len() - 1 - claim]
}

/// The jobs that worker `w` is handed by the first `claims` claims of a run
/// in which claim number `c` is made by worker `schedule[c]`.  A claim made
/// after the pool is empty hands out nothing.
pub open spec fn share<T>(submitted: Seq<T>, schedule: Seq<int>, w: int, claims: int) -> Seq<T>
    decreases claims,
{
    if claims <= 0 {
        Seq::empty()
    } else {
        let before = share(submitted, schedule, w, claims - 1);
        if claims <= submitted.len() && schedule[claims - 1] == w {
            before.push(handed_at(submitted, claims - 1))
        } else {
            before
        }
    }
}

/// The shares of the first `workers` workers, thrown together.
pub open spec fn shares<T>(submitted: Seq<T>, schedule: Seq<int>, workers: int, claims: int)
    -> Multiset<T>
    decreases workers,
{
    if workers <= 0 {
        Multiset::empty()
    } else {
        shares(submitted, schedule, workers - 1, claims).add(
            share(submitted, schedule, workers - 1, claims).to_multiset(),
        )
    }
}

proof fn lemma_claim_joins_one_share<T>(
    submitted: Seq<T>,
    schedule: Seq<int>,
    workers: int,
    claims: int,
)
    requires
        1 <= claims,
        0 <= workers,
    ensures
        shares(submitted, schedule, workers, claims) == if claims <= submitted.len() && 0
            <= schedule[claims - 1] < workers {
            shares(submitted, schedule, workers, claims - 1).insert(
                handed_at(submitted, claims - 1),
            )
        } else {
            shares(submitted, schedule, workers, claims - 1)
        },
    decreases workers,
{
    broadcast use group_to_multiset_ensures;

    if workers > 0 {
        lemma_claim_joins_one_share(submitted, schedule, workers - 1, claims);
        let w = workers - 1;
        let rest = shares(submitted, schedule, w, claims - 1);
        let mine = share(submitted, schedule, w, claims - 1).to_multiset();
        let job = handed_at(submitted, claims - 1);
        assert(rest.insert(job).add(mine) =~= rest.add(mine).insert(job));
        assert(rest.add(mine.insert(job)) =~= rest.add(mine).insert(job));
    }
}

/// After `claims` claims the workers together hold the jobs that were
/// handed out, each as often as it was submitted among them.
pub proof fn lemma_shares_are_the_claimed<T>(
    submitted: Seq<T>,
    schedule: Seq<int>,
    workers: int,
    claims: int,
)
    requires
        0 <= claims <= submitted.len(),
        0 <= workers,
        forall|c: int| 0 <= c < claims ==> 0 <= #[trigger] schedule[c] < workers,
    ensures
        shares(submitted, schedule, workers, claims) == submitted.subrange(
            submitted.len() - claims,
            submitted.len() as int,
        ).to_multiset(),
    decreases claims,
{
    broadcast use group_to_multiset_ensures;

    let n = submitted.len() as int;
    if claims == 0 {
        lemma_no_claim_no_share(submitted, schedule, workers);
        assert(submitted.subrange(n, n) =~= Seq::<T>::empty());
    } else {
        lemma_shares_are_the_claimed(submitted, schedule, workers, claims - 1);
        lemma_claim_joins_one_share(submitted, schedule, workers, claims);
        let tail = submitted.subrange(n - claims + 1, n);
        let job = handed_at(submitted, claims - 1);
        assert(submitted.subrange(n - claims, n) =~= seq![job] + tail);
        lemma_multiset_commutative(seq![job], tail);
        assert(seq![job] =~= Seq::<T>::empty().push(job));
        assert(seq![job].to_multiset() =~= Multiset::<T>::empty().insert(job));
        assert(Multiset::<T>::empty().insert(job).add(tail.to_multiset())
            =~= tail.to_multiset().insert(job));
    }
}

proof fn lemma_no_claim_no_share<T>(submitted: Seq<T>, schedule: Seq<int>, workers: int)
    ensures
        shares(submitted, schedule, workers, 0) == Multiset::<T>::empty(),
    decreases workers,
{
    broadcast use group_to_multiset_ensures;

    if workers > 0 {
        lemma_no_claim_no_share(submitted, schedule, workers - 1);
        assert(share(submitted, schedule, workers - 1, 0).to_multiset()
            =~= Multiset::<T>::empty());
        assert(Multiset::<T>::empty().add(Multiset::<T>::empty()) =~= Multiset::<T>::empty());
    }
}

proof fn lemma_late_claims_hand_out_nothing<T>(
    submitted: Seq<T>,
    schedule: Seq<int>,
    workers: int,
    claims: int,
)
    requires
        submitted.len() <= claims,
        0 <= workers,
    ensures
        shares(submitted, schedule, workers, claims) == shares(
            submitted,
            schedule,
            workers,
            submitted.len() as int,
        ),
    decreases claims,
{
    if claims > submitted.len() {
        lemma_late_claims_hand_out_nothing(submitted, schedule, workers, claims - 1);
        lemma_claim_joins_one_share(submitted, schedule, workers, claims);
    }
}

/// Every job is processed exactly once.  Whatever the number of workers and
/// whichever of them makes which claim, once as many claims were made as
/// jobs were submitted the workers together were handed the submitted jobs,
/// none twice and none left out, and later claims hand out nothing.
pub proof fn lemma_every_job_once<T>(
    submitted: Seq<T>,
    schedule: Seq<int>,
    workers: int,
    claims: int,
)
    requires
        submitted.len() <= claims,
        0 <= workers,
        forall|c: int| 0 <= c < claims ==> 0 <= #[trigger] schedule[c] < workers,
    ensures
        shares(submitted, schedule, workers, claims) == submitted.to_multiset(),
{
    let n = submitted.len() as int;
    lemma_late_claims_hand_out_nothing(submitted, schedule, workers, claims);
    lemma_shares_are_the_claimed(submitted, schedule, workers, n);
    assert(submitted.subrange(0, n) =~= submitted);
}

} // verus!
