//! Ordering lists of times.
//!
//! What a list holds, with multiplicity, is told by how many of its values
//! lie at or below each bound ([`count_le`]): two lists with the same counts
//! at every bound hold the same values equally often.

use vstd::prelude::*;

verus! {

/// Number of values of `times` that are at most `bound`.
pub open spec fn count_le(times: Seq<i64>, bound: int) -> nat
    decreases times.len(),
{
    if times.len() == 0 {
        0
    } else {
        count_le(times.drop_last(), bound) + if times.last() <= bound {
            1nat
        } else {
            0nat
        }
    }
}

/// Whether no value is smaller than one before it.
pub open spec fn ascending(times: Seq<i64>) -> bool {
    forall|i: int, j: int| 0 <= i <= j < times.len() ==> times[i] <= times[j]
}

/// Whether every value is larger than all before it.
pub open spec fn strictly_ascending(times: Seq<i64>) -> bool {
    forall|i: int, j: int| 0 <= i < j < times.len() ==> times[i] < times[j]
}

/// Counting over a list that was put together from two adds up.
pub proof fn lemma_count_concat(a: Seq<i64>, b: Seq<i64>, bound: int)
    ensures
        count_le(a + b, bound) == count_le(a, bound) + count_le(b, bound),
    decreases b.len(),
{
    if b.len() == 0 {
        assert(a + b =~= a);
    } else {
        lemma_count_concat(a, b.drop_last(), bound);
        assert((a + b).drop_last() =~= a + b.drop_last());
    }
}

/// One more value raises the count at the bounds that reach it.
pub proof fn lemma_count_push(times: Seq<i64>, value: i64, bound: int)
    ensures
        count_le(times.push(value), bound) == count_le(times, bound) + if value <= bound {
            1nat
        } else {
            0nat
        },
{
    assert(times.push(value).drop_last() =~= times);
}

/// A count never exceeds the length, and counts all where all values are in
/// reach and none where none is.
pub proof fn lemma_count_bounds(times: Seq<i64>, bound: int)
    ensures
        count_le(times, bound) <= times.len(),
        (forall|i: int| 0 <= i < times.len() ==> times[i] <= bound) ==> count_le(times, bound)
            == times.len(),
        (forall|i: int| 0 <= i < times.len() ==> times[i] > bound) ==> count_le(times, bound) == 0,
    decreases times.len(),
{
    if times.len() > 0 {
        lemma_count_bounds(times.drop_last(), bound);
    }
}

/// In an ascending list, the count at a bound is the index of the first value
/// beyond it.
pub proof fn lemma_count_split(times: Seq<i64>, bound: int, at: int)
    requires
        0 <= at <= times.len(),
        forall|i: int| 0 <= i < at ==> times[i] <= bound,
        forall|i: int| at <= i < times.len() ==> times[i] > bound,
    ensures
        count_le(times, bound) == at,
{
    let head = times.subrange(0, at);
    let tail = times.subrange(at, times.len() as int);
    assert(times =~= head + tail);
    lemma_count_concat(head, tail, bound);
    lemma_count_bounds(head, bound);
    lemma_count_bounds(tail, bound);
}

/// A list holds a value exactly where the count rises at it.
pub proof fn lemma_count_contains(times: Seq<i64>, value: i64)
    ensures
        count_le(times, value - 1) <= count_le(times, value as int),
        times.contains(value) <==> count_le(times, value - 1) < count_le(times, value as int),
    decreases times.len(),
{
    if times.len() > 0 {
        let rest = times.drop_last();
        lemma_count_contains(rest, value);
        if rest.contains(value) {
            let i = choose|i: int| 0 <= i < rest.len() && rest[i] == value;
            assert(times[i] == value);
        }
        if times.last() == value {
            assert(times[times.len() - 1] == value);
        }
        if times.contains(value) {
            let i = choose|i: int| 0 <= i < times.len() && times[i] == value;
            if i < rest.len() {
                assert(rest[i] == value);
            }
        }
    }
}

/// Merges two ascending lists into one.
fn merge(a: &Vec<i64>, b: &Vec<i64>) -> (out: Vec<i64>)
    requires
        ascending(a@),
        ascending(b@),
        a@.len() + b@.len() <= usize::MAX,
    ensures
        ascending(out@),
        out@.len() == a@.len() + b@.len(),
        forall|bound: int| #[trigger] count_le(out@, bound) == count_le(a@, bound) + count_le(b@, bound),
{
    let mut out: Vec<i64> = Vec::new();
    let mut i: usize = 0;
    let mut j: usize = 0;
    while i < a.len() || j < b.len()
        invariant
            i <= a@.len(),
            j <= b@.len(),
            ascending(a@),
            ascending(b@),
            ascending(out@),
            out@.len() == i + j,
            forall|k: int| 0 <= k < out@.len() && i < a@.len() ==> out@[k] <= a@[i as int],
            forall|k: int| 0 <= k < out@.len() && j < b@.len() ==> out@[k] <= b@[j as int],
            forall|bound: int| #[trigger]
                count_le(out@, bound) == count_le(a@.subrange(0, i as int), bound) + count_le(
                    b@.subrange(0, j as int),
                    bound,
                ),
        decreases a@.len() - i + b@.len() - j,
    {
        let ghost before = out@;
        if j >= b.len() || (i < a.len() && a[i] <= b[j]) {
            let value = a[i];
            out.push(value);
            proof {
                assert(a@.subrange(0, i as int + 1) =~= a@.subrange(0, i as int).push(value));
                assert forall|bound: int| #[trigger]
                    count_le(out@, bound) == count_le(a@.subrange(0, i as int + 1), bound)
                        + count_le(b@.subrange(0, j as int), bound) by {
                    lemma_count_push(before, value, bound);
                    lemma_count_push(a@.subrange(0, i as int), value, bound);
                    assert(count_le(before, bound) == count_le(a@.subrange(0, i as int), bound)
                        + count_le(b@.subrange(0, j as int), bound));
                }
            }
            i = i + 1;
        } else {
            let value = b[j];
            out.push(value);
            proof {
                assert(b@.subrange(0, j as int + 1) =~= b@.subrange(0, j as int).push(value));
                assert forall|bound: int| #[trigger]
                    count_le(out@, bound) == count_le(a@.subrange(0, i as int), bound) + count_le(
                        b@.subrange(0, j as int + 1),
                        bound,
                    ) by {
                    lemma_count_push(before, value, bound);
                    lemma_count_push(b@.subrange(0, j as int), value, bound);
                    assert(count_le(before, bound) == count_le(a@.subrange(0, i as int), bound)
                        + count_le(b@.subrange(0, j as int), bound));
                }
            }
            j = j + 1;
        }
    }
    proof {
        assert(a@.subrange(0, i as int) =~= a@);
        assert(b@.subrange(0, j as int) =~= b@);
    }
    out
}

/// Orders the values of `times` from index `from` up to `to`.
fn sort_range(times: &Vec<i64>, from: usize, to: usize) -> (out: Vec<i64>)
    requires
        from <= to <= times@.len(),
    ensures
        ascending(out@),
        out@.len() == to - from,
        forall|bound: int| #[trigger]
            count_le(out@, bound) == count_le(times@.subrange(from as int, to as int), bound),
    decreases to - from,
{
    if to - from <= 1 {
        let mut out: Vec<i64> = Vec::new();
        if to - from == 1 {
            out.push(times[from]);
        }
        proof {
            assert(out@ =~= times@.subrange(from as int, to as int));
        }
        out
    } else {
        let mid = from + (to - from) / 2;
        let low = sort_range(times, from, mid);
        let high = sort_range(times, mid, to);
        let out = merge(&low, &high);
        proof {
            let whole = times@.subrange(from as int, to as int);
            let first = times@.subrange(from as int, mid as int);
            let second = times@.subrange(mid as int, to as int);
            assert(whole =~= first + second);
            assert forall|bound: int| #[trigger] count_le(out@, bound) == count_le(whole, bound) by {
                lemma_count_concat(first, second, bound);
                assert(count_le(out@, bound) == count_le(low@, bound) + count_le(high@, bound));
            }
        }
        out
    }
}

/// The values of `times` in ascending order, each as often as `times` holds
/// it.
pub fn sorted(times: &Vec<i64>) -> (out: Vec<i64>)
    ensures
        ascending(out@),
        out@.len() == times@.len(),
        forall|bound: int| #[trigger] count_le(out@, bound) == count_le(times@, bound),
{
    let out = sort_range(times, 0, times.len());
    proof {
        assert(times@.subrange(0, times@.len() as int) =~= times@);
    }
    out
}

/// The distinct values of `times` in ascending order.
pub fn sorted_unique(times: &Vec<i64>) -> (out: Vec<i64>)
    ensures
        strictly_ascending(out@),
        forall|value: i64| out@.contains(value) <==> times@.contains(value),
{
    let all = sorted(times);
    let mut out: Vec<i64> = Vec::new();
    let mut i: usize = 0;
    while i < all.len()
        invariant
            i <= all@.len(),
            ascending(all@),
            strictly_ascending(out@),
            out@.len() <= i,
            i > 0 ==> out@.len() > 0 && out@.last() == all@[i - 1],
            forall|k: int| 0 <= k < out@.len() ==> all@.contains(#[trigger] out@[k]),
            forall|k: int| 0 <= k < i ==> out@.contains(#[trigger] all@[k]),
        decreases all@.len() - i,
    {
        let value = all[i];
        let ghost before = out@;
        if out.len() == 0 || out[out.len() - 1] != value {
            out.push(value);
            proof {
                assert(out@[out@.len() - 1] == value);
                assert forall|k: int| 0 <= k < i + 1 implies out@.contains(#[trigger] all@[k]) by {
                    if k < i {
                        assert(before.contains(all@[k]));
                        let m = choose|m: int| 0 <= m < before.len() && before[m] == all@[k];
                        assert(out@[m] == all@[k]);
                    }
                }
                assert forall|a: int, b: int| 0 <= a < b < out@.len() implies out@[a] < out@[b] by {
                    if b == out@.len() - 1 {
                        assert(all@.contains(before[a]));
                        assert(before[a] <= before.last());
                    }
                }
            }
        } else {
            proof {
                assert forall|k: int| 0 <= k < i + 1 implies out@.contains(#[trigger] all@[k]) by {
                    if k == i {
                        assert(out@[out@.len() - 1] == value);
                    }
                }
            }
        }
        i = i + 1;
    }
    proof {
        assert forall|value: i64| out@.contains(value) <==> times@.contains(value) by {
            lemma_count_contains(all@, value);
            lemma_count_contains(times@, value);
            assert(count_le(all@, value as int) == count_le(times@, value as int));
            assert(count_le(all@, value - 1) == count_le(times@, value - 1));
            if out@.contains(value) {
                let k = choose|k: int| 0 <= k < out@.len() && out@[k] == value;
                assert(all@.contains(out@[k]));
            }
            if all@.contains(value) {
                let k = choose|k: int| 0 <= k < all@.len() && all@[k] == value;
                assert(out@.contains(all@[k]));
            }
        }
    }
    out
}

} // verus!
