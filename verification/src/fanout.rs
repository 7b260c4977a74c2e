//! Fanning out a fixed list of jobs and joining their results in order.
use crate::error::ParallelError;
use crate::join::{failed_workers, lemma_failed_workers};
use vstd::prelude::*;

verus! {

/// One step of the calling thread while it runs a list of jobs.
#[derive(Clone, Copy, Debug, PartialEq, Eq, Structural)]
pub enum Step {
    /// Start the job of this position on a thread of its own.
    Fork(usize),
    /// Run the job of this position on the calling thread.
    Run(usize),
    /// Wait for the forked job of this position and take its outcome.
    Join(usize),
}

/// The steps for `jobs` jobs: none for no job; otherwise every job but the
/// first is forked, in the order given, then the first runs on the calling
/// thread, then the forked ones are joined in the order in which they were
/// forked.
pub open spec fn fan_out_steps(jobs: int) -> Seq<Step> {
    if jobs <= 0 {
        Seq::empty()
    } else {
        Seq::new((jobs - 1) as nat, |i: int| Step::Fork((i + 1) as usize)) + seq![Step::Run(0)]
            + Seq::new((jobs - 1) as nat, |i: int| Step::Join((i + 1) as usize))
    }
}

/// Every job is started exactly once, and every forked job is joined exactly
/// once, after its fork and after the first job has run: with `jobs` jobs,
/// job `i` from 1 on is forked at step `i - 1` and joined at step
/// `jobs + i - 1`, job 0 runs at step `jobs - 1`, and there are no other
/// steps. With one job there is no fork at all.
pub proof fn lemma_fan_out_steps(jobs: int)
    requires
        0 <= jobs <= usize::MAX,
    ensures
        jobs == 0 ==> fan_out_steps(jobs).len() == 0,
        jobs == 1 ==> fan_out_steps(jobs) == seq![Step::Run(0)],
        jobs >= 1 ==> fan_out_steps(jobs).len() == 2 * jobs - 1 && fan_out_steps(jobs)[jobs - 1]
            == Step::Run(0),
        forall|i: int|
            1 <= i < jobs ==> #[trigger] fan_out_steps(jobs)[i - 1] == Step::Fork(i as usize),
        forall|i: int|
            1 <= i < jobs ==> #[trigger] fan_out_steps(jobs)[jobs + i - 1] == Step::Join(
                i as usize,
            ),
{
    if jobs == 1 {
        assert(fan_out_steps(jobs) =~= seq![Step::Run(0)]);
    }
}

/// The steps by which the calling thread runs `jobs` independent jobs.
pub fn fan_out(jobs: usize) -> (steps: Vec<Step>)
    ensures
        steps@ == fan_out_steps(jobs as int),
{
    let mut steps: Vec<Step> = Vec::new();
    if jobs == 0 {
        assert(steps@ =~= fan_out_steps(jobs as int));
        return steps;
    }
    let mut i: usize = 1;
    while i < jobs
        invariant
            1 <= i <= jobs,
            steps@ == Seq::new((i - 1) as nat, |k: int| Step::Fork((k + 1) as usize)),
        decreases jobs - i,
    {
        steps.push(Step::Fork(i));
        i = i + 1;
        assert(steps@ =~= Seq::new((i - 1) as nat, |k: int| Step::Fork((k + 1) as usize)));
    }
    steps.push(Step::Run(0));
    let ghost forks = Seq::new((jobs - 1) as nat, |k: int| Step::Fork((k + 1) as usize))
        + seq![Step::Run(0)];
    assert(steps@ =~= forks);
    let mut j: usize = 1;
    while j < jobs
        invariant
            1 <= j <= jobs,
            steps@ == forks + Seq::new((j - 1) as nat, |k: int| Step::Join((k + 1) as usize)),
        decreases jobs - j,
    {
        steps.push(Step::Join(j));
        j = j + 1;
        assert(steps@ =~= forks + Seq::new(
            (j - 1) as nat,
            |k: int| Step::Join((k + 1) as usize),
        ));
    }
    steps
}

/// Which jobs ended normally: `true` at the positions that hold a result.
pub open spec fn succeeded<R>(outcomes: Seq<Option<R>>) -> Seq<bool> {
    outcomes.map_values(|o: Option<R>| o is Some)
}

/// Puts the outcomes of all jobs of one list, in the order of the jobs, into
/// the list's result. `outcomes[i]` holds what job `i` returned, or nothing
/// where the job failed. With a result from every job the call gives the
/// results in the order of the jobs; otherwise it fails and names every job
/// that failed.
pub fn collect<R>(outcomes: Vec<Option<R>>) -> (result: Result<Vec<R>, ParallelError>)
    ensures
        result is Ok <==> forall|i: int| 0 <= i < outcomes@.len() ==> #[trigger] outcomes@[i] is Some,
        result matches Ok(results) ==> results@.len() == outcomes@.len() && forall|i: int|
            0 <= i < outcomes@.len() ==> outcomes@[i] == Some(#[trigger] results@[i]),
        result is Err ==> (result matches Err(ParallelError::WorkerFailure { failed }) && failed@
            == failed_workers(succeeded(outcomes@))),
{
    let ghost given = outcomes@;
    let mut outcomes = outcomes;
    let n: usize = outcomes.len();
    let mut results: Vec<R> = Vec::new();
    let mut failed: Vec<usize> = Vec::new();
    let mut i: usize = 0;
    while i < n
        invariant
            i <= n,
            n == given.len(),
            outcomes@.len() == n,
            forall|k: int| i <= k < n ==> outcomes@[k] == given[k],
            failed@ == failed_workers(succeeded(given).subrange(0, i as int)),
            failed@.len() == 0 ==> results@.len() == i && forall|k: int|
                0 <= k < i ==> given[k] == Some(#[trigger] results@[k]),
        decreases n - i,
    {
        proof {
            let next = succeeded(given).subrange(0, i + 1);
            assert(next.drop_last() =~= succeeded(given).subrange(0, i as int));
        }
        match outcomes[i].take() {
            Some(r) => {
                results.push(r);
            },
            None => {
                failed.push(i);
            },
        }
        i = i + 1;
    }
    proof {
        assert(succeeded(given).subrange(0, i as int) =~= succeeded(given));
        lemma_failed_workers(succeeded(given));
        if failed@.len() == 0 {
            assert forall|k: int| 0 <= k < given.len() implies #[trigger] given[k] is Some by {
                assert(succeeded(given)[k]);
            }
        } else {
            let k = failed@[0] as int;
            assert(!succeeded(given)[k]);
            assert(!(given[k] is Some));
        }
    }
    if failed.len() == 0 {
        Ok(results)
    } else {
        Err(ParallelError::WorkerFailure { failed })
    }
}

} // verus!
