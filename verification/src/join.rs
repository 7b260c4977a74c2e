//! Joining: how the outcomes of the workers of one call become its result.
use crate::error::ParallelError;
use vstd::prelude::*;

verus! {

/// The positions of the workers that failed, ascending. `outcomes[i]` tells
/// whether worker `i` ended normally.
pub open spec fn failed_workers(outcomes: Seq<bool>) -> Seq<usize>
    decreases outcomes.len(),
{
    if outcomes.len() == 0 {
        Seq::empty()
    } else if outcomes.last() {
        failed_workers(outcomes.drop_last())
    } else {
        failed_workers(outcomes.drop_last()).push((outcomes.len() - 1) as usize)
    }
}

/// `failed_workers` holds exactly the positions of the `false` outcomes, each
/// once, in ascending order.
pub proof fn lemma_failed_workers(outcomes: Seq<bool>)
    requires
        outcomes.len() <= usize::MAX,
    ensures
        failed_workers(outcomes).len() <= outcomes.len(),
        forall|k: int|
            0 <= k < failed_workers(outcomes).len() ==> 0 <= (#[trigger] failed_workers(
                outcomes,
            )[k]) < outcomes.len() && !outcomes[failed_workers(outcomes)[k] as int],
        forall|j: int, k: int|
            0 <= j < k < failed_workers(outcomes).len() ==> failed_workers(outcomes)[j]
                < failed_workers(outcomes)[k],
        forall|i: int|
            0 <= i < outcomes.len() && !#[trigger] outcomes[i] ==> failed_workers(
                outcomes,
            ).contains(i as usize),
        failed_workers(outcomes).len() == 0 <==> forall|i: int|
            0 <= i < outcomes.len() ==> #[trigger] outcomes[i],
    decreases outcomes.len(),
{
    if outcomes.len() > 0 {
        let init = outcomes.drop_last();
        let last = (outcomes.len() - 1) as usize;
        lemma_failed_workers(init);
        let f = failed_workers(outcomes);
        let fi = failed_workers(init);
        assert forall|i: int| 0 <= i < outcomes.len() && !#[trigger] outcomes[i] implies f.contains(
            i as usize,
        ) by {
            if i < init.len() {
                assert(!init[i]);
                let k = choose|k: int| 0 <= k < fi.len() && fi[k] == i as usize;
                assert(f[k] == i as usize);
            } else {
                assert(f[f.len() - 1] == last);
            }
        }
        if f.len() == 0 {
            assert forall|i: int| 0 <= i < outcomes.len() implies #[trigger] outcomes[i] by {
                if i < init.len() {
                    assert(init[i]);
                }
            }
        }
        if forall|i: int| 0 <= i < outcomes.len() ==> #[trigger] outcomes[i] {
            assert forall|i: int| 0 <= i < init.len() implies #[trigger] init[i] by {
                assert(outcomes[i]);
            }
            assert(outcomes[outcomes.len() - 1]);
        }
    }
}

/// Folds the outcomes of all workers of one call, in fork order, into the
/// call's result. The call succeeds only if every worker did; otherwise the
/// error names every worker that failed.
///
/// It takes the outcome of every worker, so it can be called only once each
/// of them has been waited for.
pub fn conclude(outcomes: &Vec<bool>) -> (result: Result<(), ParallelError>)
    ensures
        result is Ok <==> forall|i: int| 0 <= i < outcomes@.len() ==> #[trigger] outcomes@[i],
        result is Err ==> (result matches Err(ParallelError::WorkerFailure { failed }) && failed@
            == failed_workers(outcomes@)),
{
    let mut failed: Vec<usize> = Vec::new();
    let mut i: usize = 0;
    while i < outcomes.len()
        invariant
            i <= outcomes@.len(),
            failed@ == failed_workers(outcomes@.subrange(0, i as int)),
        decreases outcomes@.len() - i,
    {
        proof {
            let next = outcomes@.subrange(0, i + 1);
            assert(next.drop_last() =~= outcomes@.subrange(0, i as int));
        }
        if !outcomes[i] {
            failed.push(i);
        }
        i = i + 1;
    }
    proof {
        assert(outcomes@.subrange(0, i as int) =~= outcomes@);
        lemma_failed_workers(outcomes@);
    }
    if failed.len() == 0 {
        Ok(())
    } else {
        Err(ParallelError::WorkerFailure { failed })
    }
}

} // verus!
