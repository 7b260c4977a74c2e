//! Dividing a buffer: the chunks of one call, and what an operation that is
//! run on each of them leaves in the buffer.
use crate::chunk::{
    chunk_count, chunk_length, chunk_offset, chunks, is_chunk_plan, is_partition,
    lemma_chunk_bounds, lemma_chunk_of_index, Chunk,
};
use crate::error::ParallelError;
use crate::granularity::{effective_granularity, resolve_granularity};
use vstd::prelude::*;

verus! {

/// What chunk `i` of `buffer` holds, for the cut at `granularity`.
pub open spec fn window<T>(buffer: Seq<T>, granularity: int, i: int) -> Seq<T> {
    buffer.subrange(
        chunk_offset(granularity, i),
        chunk_offset(granularity, i) + chunk_length(buffer.len() as int, granularity, i),
    )
}

/// Whether `held` is what some chunk of `buffer` holds, for the cut at
/// `granularity`, and `offset` is where that chunk starts.
pub open spec fn is_window_at<T>(
    buffer: Seq<T>,
    granularity: int,
    held: Seq<T>,
    offset: int,
) -> bool {
    exists|i: int|
        0 <= i < chunk_count(buffer.len() as int, granularity) && offset == chunk_offset(
            granularity,
            i,
        ) && held == #[trigger] window(buffer, granularity, i)
}

/// `after` is what `before` becomes when every chunk of the cut at
/// `granularity` has been worked on once: the two have one length, and for
/// each chunk `step` relates what the chunk held, its offset and what it
/// holds now.
pub open spec fn chunkwise<T>(
    before: Seq<T>,
    after: Seq<T>,
    granularity: int,
    step: spec_fn(Seq<T>, usize, Seq<T>) -> bool,
) -> bool {
    &&& after.len() == before.len()
    &&& forall|i: int|
        0 <= i < chunk_count(before.len() as int, granularity) ==> step(
            window(before, granularity, i),
            chunk_offset(granularity, i) as usize,
            #[trigger] window(after, granularity, i),
        )
}

/// Index `p` of a buffer, seen through its chunk: the chunk is number
/// `p / granularity`, and `p` stands in its window at `p` less the offset.
pub proof fn lemma_window_index<T>(buffer: Seq<T>, granularity: int, p: int)
    requires
        0 < granularity,
        0 <= p < buffer.len(),
    ensures
        0 <= p / granularity < chunk_count(buffer.len() as int, granularity),
        0 <= p - chunk_offset(granularity, p / granularity) < window(
            buffer,
            granularity,
            p / granularity,
        ).len(),
        window(buffer, granularity, p / granularity)[p - chunk_offset(granularity, p / granularity)]
            == buffer[p],
        window(buffer, granularity, p / granularity).len() == chunk_length(
            buffer.len() as int,
            granularity,
            p / granularity,
        ),
{
    lemma_chunk_of_index(buffer.len() as int, granularity, p);
    lemma_chunk_bounds(buffer.len() as int, granularity, p / granularity);
}

/// Copying through the chunks copies the whole: where the work on a chunk at
/// offset `o` leaves in it the elements of `source` from `o` on, the buffer
/// ends up equal to `source`, whatever the granularity.
pub proof fn lemma_chunkwise_copy<T>(
    before: Seq<T>,
    after: Seq<T>,
    granularity: int,
    step: spec_fn(Seq<T>, usize, Seq<T>) -> bool,
    source: Seq<T>,
)
    requires
        0 < granularity,
        before.len() <= usize::MAX,
        source.len() == before.len(),
        chunkwise(before, after, granularity, step),
        forall|b: Seq<T>, o: usize, a: Seq<T>| #[trigger]
            step(b, o, a) && o + b.len() <= source.len() ==> a == source.subrange(
                o as int,
                o + b.len(),
            ),
    ensures
        after == source,
{
    let len = before.len() as int;
    assert forall|p: int| 0 <= p < len implies after[p] == source[p] by {
        let k = p / granularity;
        lemma_window_index(before, granularity, p);
        lemma_window_index(after, granularity, p);
        lemma_chunk_bounds(len, granularity, k);
        let o = chunk_offset(granularity, k);
        assert(step(window(before, granularity, k), o as usize, window(after, granularity, k)));
        assert(window(after, granularity, k) == source.subrange(
            o,
            o + window(before, granularity, k).len(),
        ));
    }
    assert(after =~= source);
}

/// The granularity does not show in the result of work that is done element
/// by element: where the work on a chunk replaces each element `x` by
/// `point(x)`, the buffer ends up as `before` with `point` applied throughout,
/// for every granularity and so for every number of chunks.
pub proof fn lemma_chunkwise_pointwise<T>(
    before: Seq<T>,
    after: Seq<T>,
    granularity: int,
    step: spec_fn(Seq<T>, usize, Seq<T>) -> bool,
    point: spec_fn(T) -> T,
)
    requires
        0 < granularity,
        chunkwise(before, after, granularity, step),
        forall|b: Seq<T>, o: usize, a: Seq<T>| #[trigger]
            step(b, o, a) ==> a.len() == b.len() && forall|q: int|
                0 <= q < b.len() ==> a[q] == point(b[q]),
    ensures
        after == before.map_values(point),
{
    let len = before.len() as int;
    assert forall|p: int| 0 <= p < len implies after[p] == point(before[p]) by {
        let k = p / granularity;
        lemma_window_index(before, granularity, p);
        lemma_window_index(after, granularity, p);
        assert(step(
            window(before, granularity, k),
            chunk_offset(granularity, k) as usize,
            window(after, granularity, k),
        ));
    }
    assert(after =~= before.map_values(point));
}

/// Two granularities, one result: work that is done element by element
/// leaves the same buffer whether it is cut at `first` or at `second`.
pub proof fn lemma_granularity_independent<T>(
    before: Seq<T>,
    after_first: Seq<T>,
    after_second: Seq<T>,
    first: int,
    second: int,
    step: spec_fn(Seq<T>, usize, Seq<T>) -> bool,
    point: spec_fn(T) -> T,
)
    requires
        0 < first,
        0 < second,
        chunkwise(before, after_first, first, step),
        chunkwise(before, after_second, second, step),
        forall|b: Seq<T>, o: usize, a: Seq<T>| #[trigger]
            step(b, o, a) ==> a.len() == b.len() && forall|q: int|
                0 <= q < b.len() ==> a[q] == point(b[q]),
    ensures
        after_first == after_second,
{
    lemma_chunkwise_pointwise(before, after_first, first, step, point);
    lemma_chunkwise_pointwise(before, after_second, second, step, point);
}

/// The chunks of one call, in the order in which they are handed to workers.
/// An explicit granularity of zero is refused, and then there is no chunk to
/// hand out; otherwise the chunks partition `[0, len)`.
pub fn plan(len: usize, granularity: Option<usize>, parallelism: usize) -> (result: Result<
    Vec<Chunk>,
    ParallelError,
>)
    requires
        granularity is None ==> parallelism > 0,
    ensures
        granularity == Some(0usize) <==> result is Err,
        result is Err ==> result matches Err(ParallelError::InvalidGranularity),
        result matches Ok(cut) ==> is_chunk_plan(
            cut@,
            len as int,
            effective_granularity(len as int, granularity, parallelism as int),
        ) && is_partition(cut@, len as int),
{
    match resolve_granularity(len, granularity, parallelism) {
        Ok(g) => Ok(chunks(len, g)),
        Err(e) => Err(e),
    }
}

/// Runs `operation` once on each chunk of `data`, in ascending order, handing
/// it the chunk and the chunk's offset in `data`.
///
/// With `granularity` given, the chunks have that many elements (the last one
/// what is left); zero is refused and `data` stays as it is. With `None` the
/// granularity is `max(len / parallelism, 1)`.
///
/// The chunks are visited on the calling thread. Each run sees and changes its
/// own chunk only, so the result is also that of runs that overlap in time.
///
/// Unless the granularity is refused, `operation` has to accept every chunk
/// of the cut together with its offset, and has to say of such a run that the
/// chunk keeps its length. The buffer then ends up `chunkwise` related to what
/// it was: chunk by chunk, by what `operation` promises of one run.
pub fn divide<T, F>(
    data: &mut [T],
    granularity: Option<usize>,
    parallelism: usize,
    operation: F,
) -> (result: Result<(), ParallelError>) where T: Send, F: Fn(&mut [T], usize) + Sync
    requires
        granularity is None ==> parallelism > 0,
        granularity != Some(0usize) ==> forall|d: &mut [T], o: usize|
            is_window_at(
                old(data)@,
                effective_granularity(old(data)@.len() as int, granularity, parallelism as int),
                d@,
                o as int,
            ) ==> #[trigger] call_requires(operation, (d, o)),
        granularity != Some(0usize) ==> forall|d: &mut [T], o: usize|
            is_window_at(
                old(data)@,
                effective_granularity(old(data)@.len() as int, granularity, parallelism as int),
                d@,
                o as int,
            ) && #[trigger] call_ensures(operation, (d, o), ()) ==> final(d)@.len() == d@.len(),
    ensures
        granularity == Some(0usize) <==> result is Err,
        result is Err ==> (result matches Err(ParallelError::InvalidGranularity)) && final(data)@
            == old(data)@,
        result is Ok ==> chunkwise(
            old(data)@,
            final(data)@,
            effective_granularity(old(data)@.len() as int, granularity, parallelism as int),
            |b: Seq<T>, o: usize, a: Seq<T>|
                exists|d: &mut [T]|
                    d@ == b && final(d)@ == a && #[trigger] call_ensures(operation, (d, o), ()),
        ),
{
    let len: usize = data.len();
    let g: usize = match resolve_granularity(len, granularity, parallelism) {
        Ok(g) => g,
        Err(e) => {
            return Err(e);
        },
    };
    let cut = chunks(len, g);
    let ghost before = data@;
    let ghost step = |b: Seq<T>, o: usize, a: Seq<T>|
        exists|d: &mut [T]|
            d@ == b && final(d)@ == a && #[trigger] call_ensures(operation, (d, o), ());
    let ghost mut done: Seq<T> = Seq::empty();
    proof {
        assert(0 * g == 0) by (nonlinear_arith);
        assert(chunk_count(len as int, g as int) == 0 ==> len == 0) by (nonlinear_arith)
            requires
                0 < g,
                0 <= len,
        ;
    }
    let ghost in_the_end = final(data)@;
    let mut rest: &mut [T] = data;
    let mut i: usize = 0;
    while i < cut.len()
        invariant
            0 < g,
            before.len() == len,
            is_chunk_plan(cut@, len as int, g as int),
            i <= cut@.len(),
            done.len() == (if i < cut@.len() {
                chunk_offset(g as int, i as int)
            } else {
                len as int
            }),
            rest@ == before.subrange(done.len() as int, len as int),
            in_the_end == done + final(rest)@,
            forall|d: &mut [T], o: usize|
                is_window_at(before, g as int, d@, o as int) ==> #[trigger] call_requires(
                    operation,
                    (d, o),
                ),
            forall|d: &mut [T], o: usize|
                is_window_at(before, g as int, d@, o as int) && #[trigger] call_ensures(
                    operation,
                    (d, o),
                    (),
                ) ==> final(d)@.len() == d@.len(),
            forall|b: Seq<T>, o: usize, a: Seq<T>| #[trigger]
                step(b, o, a) <==> exists|d: &mut [T]|
                    d@ == b && final(d)@ == a && #[trigger] call_ensures(operation, (d, o), ()),
            forall|j: int|
                0 <= j < i ==> step(
                    window(before, g as int, j),
                    chunk_offset(g as int, j) as usize,
                    #[trigger] done.subrange(
                        chunk_offset(g as int, j),
                        chunk_offset(g as int, j) + chunk_length(len as int, g as int, j),
                    ),
                ),
        decreases cut@.len() - i,
    {
        let chunk = cut[i];
        proof {
            lemma_chunk_bounds(len as int, g as int, i as int);
        }
        let (head, tail) = rest.split_at_mut(chunk.length);
        let ghost held = head@;
        let ghost earlier = done;
        proof {
            assert(held =~= window(before, g as int, i as int));
            assert(is_window_at(before, g as int, held, chunk.offset as int));
        }
        operation(head, chunk.offset);
        proof {
            done = earlier + head@;
            assert(step(held, chunk.offset, head@));
            assert(done.subrange(chunk.offset as int, chunk.offset + chunk.length) =~= head@);
            assert forall|j: int| 0 <= j < i implies step(
                window(before, g as int, j),
                chunk_offset(g as int, j) as usize,
                #[trigger] done.subrange(
                    chunk_offset(g as int, j),
                    chunk_offset(g as int, j) + chunk_length(len as int, g as int, j),
                ),
            ) by {
                lemma_chunk_bounds(len as int, g as int, j);
                assert((j + 1) * g <= i * g) by (nonlinear_arith)
                    requires
                        j + 1 <= i,
                        0 < g,
                ;
                assert((j + 1) * g == j * g + g) by (nonlinear_arith);
                assert(done.subrange(
                    chunk_offset(g as int, j),
                    chunk_offset(g as int, j) + chunk_length(len as int, g as int, j),
                ) =~= earlier.subrange(
                    chunk_offset(g as int, j),
                    chunk_offset(g as int, j) + chunk_length(len as int, g as int, j),
                ));
            }
            assert(tail@ =~= before.subrange(done.len() as int, len as int));
            assert(earlier + (head@ + final(tail)@) =~= done + final(tail)@);
        }
        rest = tail;
        i = i + 1;
    }
    proof {
        assert(in_the_end =~= done);
        assert forall|j: int| 0 <= j < chunk_count(len as int, g as int) implies step(
            window(before, g as int, j),
            chunk_offset(g as int, j) as usize,
            #[trigger] window(in_the_end, g as int, j),
        ) by {
            assert(window(in_the_end, g as int, j) == done.subrange(
                chunk_offset(g as int, j),
                chunk_offset(g as int, j) + chunk_length(len as int, g as int, j),
            ));
        }
    }
    Ok(())
}

} // verus!
