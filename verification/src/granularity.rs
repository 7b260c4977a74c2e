//! Granularity: the size of a chunk, given by the caller or derived from the
//! parallelism that the host reports.
use crate::error::ParallelError;
use vstd::prelude::*;

verus! {

/// The granularity chosen for a buffer of `len` elements on a host with
/// `parallelism` hardware threads: `len / parallelism`, but never less than 1.
pub open spec fn auto_size(len: int, parallelism: int) -> int
    recommends
        0 <= len,
        0 < parallelism,
{
    if len / parallelism >= 1 {
        len / parallelism
    } else {
        1
    }
}

/// The granularity that a call works with: the one asked for, or the
/// automatic one where the caller left it open.
pub open spec fn effective_granularity(
    len: int,
    granularity: Option<usize>,
    parallelism: int,
) -> int {
    match granularity {
        Some(g) => g as int,
        None => auto_size(len, parallelism),
    }
}

/// The automatic granularity is at least 1 and at most `max(len, 1)`.
pub proof fn lemma_auto_size_bounds(len: int, parallelism: int)
    requires
        0 <= len,
        0 < parallelism,
    ensures
        1 <= auto_size(len, parallelism),
        auto_size(len, parallelism) <= if len >= 1 { len } else { 1 },
{
    assert(len / parallelism <= len) by (nonlinear_arith)
        requires
            0 <= len,
            0 < parallelism,
    ;
}

/// The automatic granularity for a buffer of `len` elements:
/// `max(len / parallelism, 1)`.
pub fn auto_granularity(len: usize, parallelism: usize) -> (g: usize)
    requires
        parallelism > 0,
    ensures
        g == auto_size(len as int, parallelism as int),
        1 <= g,
        g <= len || g == 1,
{
    proof {
        lemma_auto_size_bounds(len as int, parallelism as int);
    }
    let share: usize = len / parallelism;
    if share >= 1 {
        share
    } else {
        1
    }
}

/// Settles the granularity of one call. An explicit granularity of zero is
/// refused; any other explicit one is taken as it is; an open one is derived
/// from `parallelism`, which is read in that case only.
pub fn resolve_granularity(len: usize, granularity: Option<usize>, parallelism: usize) -> (result:
    Result<usize, ParallelError>)
    requires
        granularity is None ==> parallelism > 0,
    ensures
        granularity == Some(0usize) <==> result is Err,
        result is Err ==> result matches Err(ParallelError::InvalidGranularity),
        result matches Ok(g) ==> g > 0 && g == effective_granularity(
            len as int,
            granularity,
            parallelism as int,
        ),
        granularity is None ==> (result matches Ok(g) && 1 <= g && (g <= len || g == 1)),
{
    match granularity {
        Some(g) => {
            if g == 0 {
                Err(ParallelError::InvalidGranularity)
            } else {
                Ok(g)
            }
        },
        None => Ok(auto_granularity(len, parallelism)),
    }
}

} // verus!
