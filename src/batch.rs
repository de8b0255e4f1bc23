//! A window of a list of strings, given by offset and limit, returned whole
//! or cut into chunks of a fixed size.
use vstd::prelude::*;

use crate::error::RequestError;

verus! {

/// The query of a batch request: where the window starts (default 0), how
/// long it is (default: to the end of the payload), and the chunk size, if
/// the window is to be chunked.
pub struct BatchQuery {
    pub offset: Option<usize>,
    pub limit: Option<usize>,
    pub split: Option<usize>,
}

/// The answer to a batch request: the window as one flat list, or as a list
/// of chunks when a chunk size was given.
pub enum BatchOutput {
    Flat(Vec<String>),
    Chunks(Vec<Vec<String>>),
}

/// The characters of each string.
pub open spec fn texts(v: Seq<String>) -> Seq<Seq<char>> {
    v.map_values(|s: String| s@)
}

/// The characters of each string of each chunk.
pub open spec fn chunk_texts(cs: Seq<Vec<String>>) -> Seq<Seq<Seq<char>>> {
    cs.map_values(|c: Vec<String>| texts(c@))
}

/// `s` cut into consecutive chunks of `k` items, the last one holding what
/// is left (between 1 and `k` items). An empty `s` has no chunks.
pub open spec fn chunked<T>(s: Seq<T>, k: nat) -> Seq<Seq<T>>
    recommends
        k > 0,
    decreases s.len(),
{
    if s.len() == 0 || k == 0 {
        Seq::empty()
    } else if s.len() <= k {
        seq![s]
    } else {
        seq![s.take(k as int)] + chunked(s.skip(k as int), k)
    }
}

/// Concatenation of a sequence of sequences, in order.
pub open spec fn flatten<T>(ss: Seq<Seq<T>>) -> Seq<T>
    decreases ss.len(),
{
    if ss.len() == 0 {
        Seq::empty()
    } else {
        ss[0] + flatten(ss.drop_first())
    }
}

/// The start of the window.
pub open spec fn window_offset(q: BatchQuery) -> int {
    match q.offset {
        Some(o) => o as int,
        None => 0,
    }
}

/// The length of the window in a payload of `len` items.
pub open spec fn window_limit(q: BatchQuery, len: int) -> int {
    match q.limit {
        Some(l) => l as int,
        None => len - window_offset(q),
    }
}

/// The window lies inside a payload of `len` items.
pub open spec fn window_fits(q: BatchQuery, len: int) -> bool {
    window_offset(q) <= len && window_offset(q) + window_limit(q, len) <= len
}

/// The window's items.
pub open spec fn window<T>(payload: Seq<T>, q: BatchQuery) -> Seq<T> {
    payload.subrange(
        window_offset(q),
        window_offset(q) + window_limit(q, payload.len() as int),
    )
}

/// What a successful batch request answers.
pub open spec fn batch_answer(payload: Seq<String>, q: BatchQuery, out: BatchOutput) -> bool {
    let w = texts(window(payload, q));
    match q.split {
        None => out matches BatchOutput::Flat(v) && texts(v@) == w,
        Some(k) => out matches BatchOutput::Chunks(cs) && chunk_texts(cs@) == chunked(w, k as nat),
    }
}

/// Chunking loses, adds and reorders nothing: the chunks put back together
/// give `s`. Every chunk but the last has `k` items; the last has between 1
/// and `k`.
pub proof fn lemma_chunks_rebuild<T>(s: Seq<T>, k: nat)
    requires
        k > 0,
    ensures
        flatten(chunked(s, k)) == s,
        forall|i: int|
            0 <= i < chunked(s, k).len() - 1 ==> (#[trigger] chunked(s, k)[i]).len() == k,
        chunked(s, k).len() > 0 ==> 1 <= chunked(s, k).last().len() <= k,
        s.len() == 0 <==> chunked(s, k).len() == 0,
    decreases s.len(),
{
    if s.len() == 0 {
    } else if s.len() <= k {
        let c = chunked(s, k);
        assert(c.drop_first() =~= Seq::<Seq<T>>::empty());
        assert(flatten(c.drop_first()) == Seq::<T>::empty());
        assert(c[0] + Seq::<T>::empty() =~= s);
    } else {
        let rest = s.skip(k as int);
        lemma_chunks_rebuild(rest, k);
        let c = chunked(s, k);
        assert(c.drop_first() =~= chunked(rest, k));
        assert(s =~= s.take(k as int) + rest);
        assert forall|i: int| 0 <= i < c.len() - 1 implies (#[trigger] c[i]).len() == k by {
            if i > 0 {
                assert(c[i] == chunked(rest, k)[i - 1]);
            }
        }
    }
}

/// A chunk size at least as large as a non-empty `s` gives one chunk: `s`.
pub proof fn lemma_large_split_single_chunk<T>(s: Seq<T>, k: nat)
    requires
        s.len() > 0,
        k >= s.len(),
    ensures
        chunked(s, k) == seq![s],
{
}

/// Whatever the payload and a query whose window fits: the window has the
/// query's limit as its length and holds the payload's items from the offset
/// on; a flat answer is the window, and the chunks of a chunked answer, put
/// back together, are the window, each chunk but the last of the asked size.
pub proof fn lemma_batch_round_trip(payload: Seq<String>, q: BatchQuery, out: BatchOutput)
    requires
        window_fits(q, payload.len() as int),
        q.split != Some(0usize),
        batch_answer(payload, q, out),
    ensures
        window(payload, q).len() == window_limit(q, payload.len() as int),
        forall|i: int|
            0 <= i < window(payload, q).len() ==> #[trigger] window(payload, q)[i] == payload[i
                + window_offset(q)],
        out matches BatchOutput::Flat(v) ==> texts(v@) == texts(window(payload, q)),
        out matches BatchOutput::Chunks(cs) ==> {
            &&& flatten(chunk_texts(cs@)) == texts(window(payload, q))
            &&& forall|i: int|
                0 <= i < cs@.len() - 1 ==> (#[trigger] cs@[i]@).len() == q.split->0
        },
{
    if let BatchOutput::Chunks(cs) = out {
        let k = q.split->0;
        let w = texts(window(payload, q));
        lemma_chunks_rebuild(w, k as nat);
        assert forall|i: int| 0 <= i < cs@.len() - 1 implies (#[trigger] cs@[i]@).len() == k by {
            assert(chunk_texts(cs@)[i] == texts(cs@[i]@));
            assert(chunked(w, k as nat)[i].len() == k);
        }
    }
}

fn clone_range(payload: &Vec<String>, from: usize, to: usize) -> (r: Vec<String>)
    requires
        from <= to <= payload@.len(),
    ensures
        texts(r@) == texts(payload@.subrange(from as int, to as int)),
{
    let mut r: Vec<String> = Vec::new();
    let mut i: usize = from;
    while i < to
        invariant
            from <= i <= to <= payload@.len(),
            texts(r@) == texts(payload@.subrange(from as int, i as int)),
        decreases to - i,
    {
        let s = payload[i].clone();
        proof {
            assert(texts(r@.push(s)) =~= texts(r@).push(s@));
            assert(payload@.subrange(from as int, i + 1) =~= payload@.subrange(
                from as int,
                i as int,
            ).push(payload@[i as int]));
            assert(texts(payload@.subrange(from as int, i + 1)) =~= texts(
                payload@.subrange(from as int, i as int),
            ).push(payload@[i as int]@));
        }
        r.push(s);
        i = i + 1;
    }
    r
}

/// Cuts `payload[from..to]` into chunks of `k` items.
fn chunk_range(payload: &Vec<String>, from: usize, to: usize, k: usize) -> (r: Vec<Vec<String>>)
    requires
        from <= to <= payload@.len(),
        k > 0,
    ensures
        chunk_texts(r@) == chunked(texts(payload@.subrange(from as int, to as int)), k as nat),
{
    let ghost whole = texts(payload@.subrange(from as int, to as int));
    let mut r: Vec<Vec<String>> = Vec::new();
    let mut start: usize = from;
    while start < to
        invariant
            from <= start <= to <= payload@.len(),
            k > 0,
            whole == texts(payload@.subrange(from as int, to as int)),
            chunked(whole, k as nat) =~= chunk_texts(r@) + chunked(
                texts(payload@.subrange(start as int, to as int)),
                k as nat,
            ),
        decreases to - start,
    {
        let end: usize = if to - start <= k {
            to
        } else {
            start + k
        };
        let chunk = clone_range(payload, start, end);
        proof {
            let rest = texts(payload@.subrange(start as int, to as int));
            let next = texts(payload@.subrange(end as int, to as int));
            if to - start <= k {
                assert(chunked(rest, k as nat) == seq![rest]);
                assert(next.len() == 0);
                assert(chunked(next, k as nat) =~= Seq::<Seq<Seq<char>>>::empty());
            } else {
                assert(rest.take(k as int) =~= texts(payload@.subrange(start as int, end as int)));
                assert(rest.skip(k as int) =~= next);
            }
        }
        let ghost before = r@;
        r.push(chunk);
        proof {
            assert(chunk_texts(r@) =~= chunk_texts(before).push(texts(chunk@)));
        }
        start = end;
    }
    proof {
        let rest = texts(payload@.subrange(start as int, to as int));
        assert(rest.len() == 0);
        assert(chunked(rest, k as nat) =~= Seq::<Seq<Seq<char>>>::empty());
        assert(chunked(whole, k as nat) =~= chunk_texts(r@));
    }
    r
}

/// Answers a batch request: the window of `payload` that the query names,
/// flat or in chunks. A window that reaches past the end of the payload and
/// a chunk size of zero are refused, in that order.
pub fn batch_slice(payload: &Vec<String>, query: BatchQuery) -> (r: Result<
    BatchOutput,
    RequestError,
>)
    ensures
        !window_fits(query, payload@.len() as int) ==> r == Err::<BatchOutput, RequestError>(
            RequestError::OutOfBounds,
        ),
        window_fits(query, payload@.len() as int) && query.split == Some(0usize) ==> r == Err::<
            BatchOutput,
            RequestError,
        >(RequestError::ZeroSplit),
        window_fits(query, payload@.len() as int) && query.split != Some(0usize) ==> (r matches Ok(
            out,
        ) && batch_answer(payload@, query, out)),
{
    let len = payload.len();
    let offset: usize = match query.offset {
        Some(o) => o,
        None => 0,
    };
    if offset > len {
        return Err(RequestError::OutOfBounds);
    }
    let limit: usize = match query.limit {
        Some(l) => l,
        None => len - offset,
    };
    if limit > len - offset {
        return Err(RequestError::OutOfBounds);
    }
    let end = offset + limit;
    match query.split {
        None => Ok(BatchOutput::Flat(clone_range(payload, offset, end))),
        Some(k) => {
            if k == 0 {
                Err(RequestError::ZeroSplit)
            } else {
                Ok(BatchOutput::Chunks(chunk_range(payload, offset, end, k)))
            }
        },
    }
}

} // verus!
