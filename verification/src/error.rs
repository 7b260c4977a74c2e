//! The two ways in which a call can fail.
use vstd::prelude::*;

verus! {

/// Why a call did not succeed.
#[derive(Debug, PartialEq, Eq)]
pub enum ParallelError {
    /// The caller asked for chunks of zero elements. Found before any worker
    /// is started.
    InvalidGranularity,
    /// At least one worker ended abnormally. `failed` lists every such
    /// worker by its position in fork order, ascending; none is dropped.
    WorkerFailure { failed: Vec<usize> },
}

} // verus!
