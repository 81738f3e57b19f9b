//! Splitting a list of instants into units of work.
//!
//! A list is cut into as few chunks as the chunk size allows, and the
//! instants are then spread over those chunks as evenly as they go: the
//! chunks differ in length by one instant at most, the longer ones first.

use vstd::prelude::*;

verus! {

/// The chunk size at which no list is ever split: every list that is not
/// empty makes one chunk.
pub const NO_SPLITTING: usize = usize::MAX;

/// Number of chunks for `len` instants at no more than `size` a chunk.
pub open spec fn chunk_count(len: nat, size: nat) -> nat
    recommends
        size > 0,
{
    if len % size == 0 {
        len / size
    } else {
        len / size + 1
    }
}

/// Length of chunk `k` where `len` instants are spread over `count` chunks.
pub open spec fn chunk_len(len: nat, count: nat, k: nat) -> nat
    recommends
        count > 0,
{
    len / count + if k < len % count {
        1nat
    } else {
        0nat
    }
}

/// Index of the first instant of chunk `k`.
pub open spec fn chunk_start(len: nat, count: nat, k: nat) -> nat
    recommends
        count > 0,
{
    k * (len / count) + if k < len % count {
        k
    } else {
        len % count
    }
}

/// Chunk `k` of `times` where they are spread over `count` chunks.
pub open spec fn chunk_of(times: Seq<i64>, count: nat, k: nat) -> Seq<i64>
    recommends
        count > 0,
{
    times.subrange(
        chunk_start(times.len(), count, k) as int,
        (chunk_start(times.len(), count, k) + chunk_len(times.len(), count, k)) as int,
    )
}

/// The chunks of a list that is not empty: as few as the size allows; none
/// empty, none over the size; one behind the other from the first instant to
/// the last; and no two of them differing in length by more than one.
pub proof fn lemma_chunks_even(len: nat, size: nat)
    requires
        len > 0,
        size > 0,
    ensures
        chunk_count(len, size) >= 1,
        (chunk_count(len, size) - 1) * size < len <= chunk_count(len, size) * size,
        chunk_start(len, chunk_count(len, size), 0) == 0,
        chunk_start(len, chunk_count(len, size), chunk_count(len, size)) == len,
        forall|k: nat|
            k <= chunk_count(len, size) ==> #[trigger] chunk_start(len, chunk_count(len, size), k)
                <= len,
        forall|k: nat|
            k < chunk_count(len, size) ==> {
                &&& 1 <= #[trigger] chunk_len(len, chunk_count(len, size), k) <= size
                &&& chunk_start(len, chunk_count(len, size), k) + chunk_len(
                    len,
                    chunk_count(len, size),
                    k,
                ) == chunk_start(len, chunk_count(len, size), k + 1)
            },
        forall|j: nat, k: nat|
            j <= k < chunk_count(len, size) ==> {
                &&& #[trigger] chunk_len(len, chunk_count(len, size), k) <= #[trigger] chunk_len(
                    len,
                    chunk_count(len, size),
                    j,
                )
                &&& chunk_len(len, chunk_count(len, size), j) <= chunk_len(
                    len,
                    chunk_count(len, size),
                    k,
                ) + 1
            },
{
    let count = chunk_count(len, size);
    let l = len as int;
    let s = size as int;
    let c = count as int;
    assert(l == s * (l / s) + l % s && 0 <= l % s < s) by (nonlinear_arith)
        requires
            s > 0,
    ;
    assert(c >= 1 && (c - 1) * s < l <= c * s) by (nonlinear_arith)
        requires
            l > 0,
            s > 0,
            l == s * (l / s) + l % s,
            0 <= l % s < s,
            c == if l % s == 0 {
                l / s
            } else {
                l / s + 1
            },
            l / s >= 0,
    ;
    let q = l / c;
    let r = l % c;
    assert(l == c * q + r && 0 <= r < c) by (nonlinear_arith)
        requires
            c > 0,
            q == l / c,
            r == l % c,
    ;
    assert(q >= 0) by (nonlinear_arith)
        requires
            l >= 0,
            c > 0,
            q == l / c,
    ;
    // no chunk is empty: there are at most as many chunks as instants
    assert(q >= 1) by (nonlinear_arith)
        requires
            (c - 1) * s < l,
            s >= 1,
            c >= 1,
            l == c * q + r,
            0 <= r < c,
            q >= 0,
    ;
    // no chunk is over the size
    assert(q + (if r > 0 { 1int } else { 0int }) <= s) by (nonlinear_arith)
        requires
            l <= c * s,
            l == c * q + r,
            0 <= r < c,
            c >= 1,
    ;
    assert(chunk_start(len, count, count) == c * q + r);
    assert forall|k: nat| k <= count implies #[trigger] chunk_start(len, count, k) <= len by {
        assert(k * q <= c * q) by (nonlinear_arith)
            requires
                0 <= k <= c,
                q >= 0,
        ;
    }
    assert forall|k: nat| k < count implies {
        &&& 1 <= #[trigger] chunk_len(len, count, k) <= size
        &&& chunk_start(len, count, k) + chunk_len(len, count, k) == chunk_start(len, count, k + 1)
    } by {
        assert((k + 1) * q == k * q + q) by (nonlinear_arith);
    }
}

/// At a chunk size of [`NO_SPLITTING`], a list that is not empty is one
/// chunk, and the chunk is the list.
pub proof fn lemma_no_splitting(times: Seq<i64>)
    requires
        0 < times.len() <= usize::MAX,
    ensures
        chunk_count(times.len(), NO_SPLITTING as nat) == 1,
        chunk_of(times, 1, 0) == times,
{
    let len = times.len() as int;
    let size = NO_SPLITTING as int;
    if len < size {
        assert(len / size == 0 && len % size == len) by (nonlinear_arith)
            requires
                0 < len < size,
        ;
    } else {
        assert(len / size == 1 && len % size == 0) by (nonlinear_arith)
            requires
                0 < len == size,
        ;
    }
    assert(chunk_of(times, 1, 0) =~= times);
}

/// Cuts `times` into chunks of at most `notes_per_thread` instants, evenly.
///
/// The chunks keep the order of the list and together hold all of it. An
/// empty list has no chunks.
pub fn partition(times: &Vec<i64>, notes_per_thread: usize) -> (chunks: Vec<Vec<i64>>)
    requires
        notes_per_thread > 0,
    ensures
        chunks@.len() == chunk_count(times@.len(), notes_per_thread as nat),
        forall|k: int|
            0 <= k < chunks@.len() ==> (#[trigger] chunks@[k])@ == chunk_of(
                times@,
                chunks@.len(),
                k as nat,
            ),
{
    let len = times.len();
    let mut chunks: Vec<Vec<i64>> = Vec::new();
    if len == 0 {
        assert(0nat % (notes_per_thread as nat) == 0 && 0nat / (notes_per_thread as nat) == 0);
        return chunks;
    }
    assert(len / notes_per_thread <= len && (len % notes_per_thread != 0 ==> len / notes_per_thread
        < len)) by (nonlinear_arith)
        requires
            notes_per_thread > 0,
            len > 0,
    ;
    let count = if len % notes_per_thread == 0 {
        len / notes_per_thread
    } else {
        len / notes_per_thread + 1
    };
    proof {
        lemma_chunks_even(len as nat, notes_per_thread as nat);
    }
    let short = len / count;
    let longer = len % count;
    let mut k: usize = 0;
    let mut at: usize = 0;
    while k < count
        invariant
            k <= count,
            notes_per_thread > 0,
            count == chunk_count(len as nat, notes_per_thread as nat),
            count >= 1,
            len == times@.len(),
            short == len / count,
            longer == len % count,
            chunks@.len() == k,
            at == chunk_start(len as nat, count as nat, k as nat),
            forall|j: nat|
                j <= count ==> #[trigger] chunk_start(len as nat, count as nat, j) <= len,
            forall|j: nat|
                j < count ==> {
                    &&& 1 <= #[trigger] chunk_len(len as nat, count as nat, j) <= notes_per_thread
                    &&& chunk_start(len as nat, count as nat, j) + chunk_len(
                        len as nat,
                        count as nat,
                        j,
                    ) == chunk_start(len as nat, count as nat, j + 1)
                },
            forall|j: int|
                0 <= j < k ==> (#[trigger] chunks@[j])@ == chunk_of(times@, count as nat, j as nat),
        decreases count - k,
    {
        proof {
            assert(1 <= chunk_len(len as nat, count as nat, k as nat) <= notes_per_thread);
            assert(chunk_start(len as nat, count as nat, (k + 1) as nat) <= len);
        }
        let size = if k < longer {
            short + 1
        } else {
            short
        };
        let mut chunk: Vec<i64> = Vec::new();
        let mut i: usize = 0;
        while i < size
            invariant
                i <= size,
                len == times@.len(),
                at + size <= len,
                chunk@ == times@.subrange(at as int, at + i),
            decreases size - i,
        {
            chunk.push(times[at + i]);
            assert(chunk@ =~= times@.subrange(at as int, at + i + 1));
            i = i + 1;
        }
        chunks.push(chunk);
        at = at + size;
        k = k + 1;
    }
    chunks
}

} // verus!
