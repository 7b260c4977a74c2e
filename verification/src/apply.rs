//! Applying an operation to every element of a buffer.
use crate::chunk::{chunk_count, chunk_offset, lemma_chunk_bounds};
use crate::divide::{divide, is_window_at, lemma_window_index, window};
use crate::error::ParallelError;
use crate::granularity::{auto_size, lemma_auto_size_bounds};
use vstd::prelude::*;

verus! {

/// `after` is `before` with every element worked on once: the two have one
/// length, and `each` relates what an element was to what it is now.
pub open spec fn elementwise<T>(before: Seq<T>, after: Seq<T>, each: spec_fn(T, T) -> bool) -> bool {
    &&& after.len() == before.len()
    &&& forall|p: int| 0 <= p < before.len() ==> each(before[p], #[trigger] after[p])
}

/// Runs `operation` on every element of `chunk`, in index order.
pub fn apply_each<T, F>(chunk: &mut [T], operation: &F) where F: Fn(&mut T)
    requires
        forall|e: &mut T| old(chunk)@.contains(*e) ==> #[trigger] call_requires(*operation, (e,)),
    ensures
        elementwise(
            old(chunk)@,
            final(chunk)@,
            |x: T, y: T|
                exists|e: &mut T|
                    *e == x && *final(e) == y && #[trigger] call_ensures(*operation, (e,), ()),
        ),
{
    let n: usize = chunk.len();
    let ghost before = chunk@;
    let ghost each = |x: T, y: T|
        exists|e: &mut T|
            *e == x && *final(e) == y && #[trigger] call_ensures(*operation, (e,), ());
    let mut i: usize = 0;
    while i < n
        invariant
            i <= n,
            chunk@.len() == n,
            before.len() == n,
            forall|e: &mut T| before.contains(*e) ==> #[trigger] call_requires(*operation, (e,)),
            forall|x: T, y: T| #[trigger]
                each(x, y) <==> exists|e: &mut T|
                    *e == x && *final(e) == y && #[trigger] call_ensures(*operation, (e,), ()),
            forall|p: int| 0 <= p < i ==> each(before[p], #[trigger] chunk@[p]),
            forall|p: int| i <= p < n ==> chunk@[p] == before[p],
        decreases n - i,
    {
        assert(chunk@[i as int] == before[i as int]);
        operation(&mut chunk[i]);
        assert(each(before[i as int], chunk@[i as int]));
        i = i + 1;
    }
}

/// Runs `operation` once on every element of `data`, chunk by chunk with the
/// automatic granularity `max(len / parallelism, 1)`, and in index order
/// within each chunk.
///
/// Whatever the parallelism, every element is worked on exactly once, so the
/// result does not depend on it. The call cannot fail: the automatic
/// granularity is never zero.
pub fn apply<T, F>(data: &mut [T], parallelism: usize, operation: F) -> (result: Result<
    (),
    ParallelError,
>) where T: Send, F: Fn(&mut T) + Sync
    requires
        parallelism > 0,
        forall|e: &mut T| old(data)@.contains(*e) ==> #[trigger] call_requires(operation, (e,)),
    ensures
        result is Ok,
        elementwise(
            old(data)@,
            final(data)@,
            |x: T, y: T|
                exists|e: &mut T|
                    *e == x && *final(e) == y && #[trigger] call_ensures(operation, (e,), ()),
        ),
{
    let ghost before = data@;
    let ghost g = auto_size(before.len() as int, parallelism as int);
    let ghost each = |x: T, y: T|
        exists|e: &mut T| *e == x && *final(e) == y && #[trigger] call_ensures(operation, (e,), ());
    let shared: &F = &operation;
    let per_chunk = |chunk: &mut [T], offset: usize|
        requires
            forall|e: &mut T|
                old(chunk)@.contains(*e) ==> #[trigger] call_requires(*shared, (e,)),
        ensures
            elementwise(
                old(chunk)@,
                final(chunk)@,
                |x: T, y: T|
                    exists|e: &mut T|
                        *e == x && *final(e) == y && #[trigger] call_ensures(*shared, (e,), ()),
            ),
        { apply_each(chunk, shared) };
    proof {
        lemma_auto_size_bounds(before.len() as int, parallelism as int);
        assert forall|d: &mut [T], o: usize|
            is_window_at(before, g, d@, o as int) implies #[trigger] call_requires(
            per_chunk,
            (d, o),
        ) by {
            let i = choose|i: int|
                0 <= i < chunk_count(before.len() as int, g) && o as int == chunk_offset(g, i)
                    && d@ == #[trigger] window(before, g, i);
            lemma_chunk_bounds(before.len() as int, g, i);
            assert forall|e: &mut T| d@.contains(*e) implies #[trigger] call_requires(
                operation,
                (e,),
            ) by {
                let q = choose|q: int| 0 <= q < d@.len() && d@[q] == *e;
                assert(before[chunk_offset(g, i) + q] == *e);
            }
        }
    }
    let result = divide(data, None, parallelism, per_chunk);
    proof {
        let after = data@;
        assert forall|p: int| 0 <= p < before.len() implies each(before[p], #[trigger] after[p]) by {
            let k = p / g;
            lemma_window_index(before, g, p);
            lemma_window_index(after, g, p);
            lemma_chunk_bounds(before.len() as int, g, k);
            let o = chunk_offset(g, k) as usize;
            let d = choose|d: &mut [T]|
                d@ == window(before, g, k) && final(d)@ == window(after, g, k)
                    && #[trigger] call_ensures(per_chunk, (d, o), ());
            let q = p - chunk_offset(g, k);
            assert(each(d@[q], final(d)@[q]));
        }
    }
    result
}

} // verus!
