//! Fork-join parallelism over a mutable buffer, with the decisions proved.
//!
//! A buffer of `N` elements is cut into consecutive chunks of a fixed
//! granularity, one worker per chunk. This crate holds every decision of that
//! scheme: which chunks there are and in what order they are handed out
//! ([`chunks`], [`plan`]), which granularity is chosen when the caller leaves
//! it open ([`resolve_granularity`]), what the buffer holds afterwards
//! ([`divide`], [`apply`]), how a fixed list of jobs is placed on threads
//! ([`fan_out`]) and how the outcomes of the workers are folded into one
//! result ([`conclude`], [`collect`]).
//!
//! Nothing here starts a thread. [`divide`] and [`apply`] visit the chunks on
//! the calling thread, in the order in which a threaded driver forks them; as
//! the chunks are disjoint, that is also what concurrent workers leave behind.
use vstd::prelude::*;

pub mod apply;
pub mod chunk;
pub mod divide;
pub mod error;
pub mod fanout;
pub mod granularity;
pub mod join;

pub use crate::apply::{apply, apply_each};
pub use crate::chunk::{chunks, Chunk};
pub use crate::divide::{divide, plan};
pub use crate::error::ParallelError;
pub use crate::fanout::{collect, fan_out, Step};
pub use crate::granularity::{auto_granularity, resolve_granularity};
pub use crate::join::conclude;

verus! {

} // verus!
