//! Merging the holds of one effect into the spans in which it sounds.
//!
//! Every hold starts once and ends once. The *depth* at a time is the number
//! of holds that have started by then less the number that have ended. The
//! effect sounds wherever the depth is positive, so holds that overlap, nest
//! or touch run together into one span.

use crate::order::{ascending, count_le, lemma_count_split, sorted};
use vstd::prelude::*;

verus! {

/// Holds in progress at `time`: starts at or before it, less ends at or before
/// it.
pub open spec fn depth(starts: Seq<i64>, ends: Seq<i64>, time: int) -> int {
    count_le(starts, time) - count_le(ends, time)
}

/// Whether starts and ends pair up: as many of each, and at no time more ends
/// than starts.
pub open spec fn balanced(starts: Seq<i64>, ends: Seq<i64>) -> bool {
    &&& starts.len() == ends.len()
    &&& forall|time: int| depth(starts, ends, time) >= 0
}

/// Whether `time` lies in one of `spans`, each taken from its start up to, and
/// not including, its end.
pub open spec fn covered(spans: Seq<(i64, i64)>, time: int) -> bool {
    exists|i: int| 0 <= i < spans.len() && (#[trigger] spans[i]).0 <= time < spans[i].1
}

/// Whether the spans are non-empty, in ascending order, and apart from each
/// other: each ends before the next begins.
pub open spec fn separated(spans: Seq<(i64, i64)>) -> bool {
    &&& forall|i: int| 0 <= i < spans.len() ==> (#[trigger] spans[i]).0 < spans[i].1
    &&& forall|i: int, j: int|
        0 <= i < j < spans.len() ==> (#[trigger] spans[i]).1 < (#[trigger] spans[j]).0
}

/// Whether `spans` say of `time` what the depth says: inside a span exactly
/// where a hold is in progress.
pub open spec fn agrees(spans: Seq<(i64, i64)>, starts: Seq<i64>, ends: Seq<i64>, time: int) -> bool {
    covered(spans, time) <==> depth(starts, ends, time) > 0
}

/// Between the values already passed and those still to come, an ascending
/// list counts as many values as were passed.
proof fn lemma_count_between(times: Seq<i64>, passed: int, bound: int)
    requires
        ascending(times),
        0 <= passed <= times.len(),
        passed > 0 ==> times[passed - 1] <= bound,
        passed < times.len() ==> bound < times[passed],
    ensures
        count_le(times, bound) == passed,
{
    assert forall|i: int| 0 <= i < passed implies times[i] <= bound by {
        assert(times[i] <= times[passed - 1]);
    }
    assert forall|i: int| passed <= i < times.len() implies times[i] > bound by {
        assert(times[passed] <= times[i]);
    }
    lemma_count_split(times, bound, passed);
}

/// Merges the holds that start at `starts` and end at `ends` into the spans
/// in which at least one of them is in progress.
///
/// The order of `starts` and of `ends` does not matter, nor which end belongs
/// to which start. Starts and ends at one and the same time cancel. The
/// result is `None` exactly where starts and ends do not pair up.
pub fn merge_intervals(starts: &Vec<i64>, ends: &Vec<i64>) -> (merged: Option<Vec<(i64, i64)>>)
    ensures
        merged is Some <==> balanced(starts@, ends@),
        merged matches Some(spans) ==> {
            &&& separated(spans@)
            &&& forall|time: int| agrees(spans@, starts@, ends@, time)
        },
{
    if starts.len() != ends.len() {
        return None;
    }
    let begin = sorted(starts);
    let finish = sorted(ends);
    let n = begin.len();
    let mut spans: Vec<(i64, i64)> = Vec::new();
    let mut i: usize = 0;
    let mut j: usize = 0;
    let mut open: i64 = 0;
    let ghost mut horizon: int = 0;
    while i < n || j < n
        invariant
            n == begin@.len(),
            n == finish@.len(),
            starts@.len() == ends@.len(),
            ascending(begin@),
            ascending(finish@),
            forall|bound: int| #[trigger] count_le(begin@, bound) == count_le(starts@, bound),
            forall|bound: int| #[trigger] count_le(finish@, bound) == count_le(ends@, bound),
            j <= i <= n,
            i > 0 ==> begin@[i - 1] <= horizon,
            j > 0 ==> finish@[j - 1] <= horizon,
            i < n ==> i == 0 || horizon < begin@[i as int],
            j < n ==> i == 0 || horizon < finish@[j as int],
            separated(spans@),
            i == 0 ==> spans@.len() == 0,
            forall|time: int| i > 0 && time <= horizon ==> depth(starts@, ends@, time) >= 0,
            i > j ==> open <= horizon,
            forall|k: int| 0 <= k < spans@.len() ==> (#[trigger] spans@[k]).1 <= horizon,
            forall|k: int| 0 <= k < spans@.len() && i > j ==> (#[trigger] spans@[k]).1 < open,
            forall|time: int|
                i > 0 && time <= horizon && (i > j ==> time < open) ==> agrees(
                    spans@,
                    starts@,
                    ends@,
                    time,
                ),
            forall|time: int| i > j && open <= time <= horizon ==> depth(starts@, ends@, time) > 0,
        decreases (n - i) + (n - j),
    {
        let now = if j >= n || (i < n && begin[i] <= finish[j]) {
            begin[i]
        } else {
            finish[j]
        };
        let before = i - j;
        let ghost i0 = i;
        let ghost j0 = j;
        let ghost fresh = i == 0;
        let ghost past = horizon;
        proof {
            // no hold starts before the first start, so nothing can end there
            if i == 0 && j < n && now == finish@[j as int] && !(i < n && begin@[0] <= finish@[0]) {
                assert(j == 0);
            }
            assert forall|time: int| (fresh || past < time) && time < now implies count_le(
                begin@,
                time,
            ) == i0 && count_le(finish@, time) == j0 by {
                lemma_count_between(begin@, i0 as int, time);
                lemma_count_between(finish@, j0 as int, time);
            }
        }
        while i < n && begin[i] == now
            invariant
                i0 <= i <= n,
                n == begin@.len(),
                ascending(begin@),
                forall|k: int| i0 <= k < i ==> begin@[k] == now,
                i0 < n ==> now <= begin@[i0 as int],
            decreases n - i,
        {
            i = i + 1;
        }
        while j < n && finish[j] == now
            invariant
                j0 <= j <= n,
                n == finish@.len(),
                ascending(finish@),
                forall|k: int| j0 <= k < j ==> finish@[k] == now,
                j0 < n ==> now <= finish@[j0 as int],
            decreases n - j,
        {
            j = j + 1;
        }
        proof {
            assert(i > i0 || j > j0);
            if i > 0 {
                assert(begin@[i - 1] <= now) by {
                    if i > i0 {
                    } else {
                        assert(begin@[i - 1] <= past);
                    }
                }
            }
            if j > 0 {
                assert(finish@[j - 1] <= now) by {
                    if j > j0 {
                    } else {
                        assert(finish@[j - 1] <= past);
                    }
                }
            }
            if i < n {
                assert(begin@[i0 as int] <= begin@[i as int]);
            }
            if j < n {
                assert(finish@[j0 as int] <= finish@[j as int]);
            }
            lemma_count_between(begin@, i as int, now as int);
            lemma_count_between(finish@, j as int, now as int);
            assert(depth(starts@, ends@, now as int) == i - j);
        }
        if j > i {
            return None;
        }
        let after = i - j;
        let ghost old_spans = spans@;
        if before == 0 && after > 0 {
            open = now;
        } else if before > 0 && after == 0 {
            spans.push((open, now));
            proof {
                assert(spans@[old_spans.len() as int] == (open, now));
                assert forall|time: int| covered(spans@, time) <==> (covered(old_spans, time) || open
                    <= time < now) by {
                    if covered(old_spans, time) {
                        let k = choose|k: int|
                            0 <= k < old_spans.len() && (#[trigger] old_spans[k]).0 <= time
                                < old_spans[k].1;
                        assert(spans@[k] == old_spans[k]);
                    }
                    if open <= time < now {
                        assert(spans@[old_spans.len() as int].0 <= time < spans@[old_spans.len() as int].1);
                    }
                    if covered(spans@, time) {
                        let k = choose|k: int|
                            0 <= k < spans@.len() && (#[trigger] spans@[k]).0 <= time < spans@[k].1;
                        if k < old_spans.len() {
                            assert(old_spans[k] == spans@[k]);
                        }
                    }
                }
                assert forall|a: int, b: int| 0 <= a < b < spans@.len() implies (#[trigger] spans@[a]).1
                    < (#[trigger] spans@[b]).0 by {
                    if b < old_spans.len() {
                        assert(spans@[a] == old_spans[a] && spans@[b] == old_spans[b]);
                    } else {
                        assert(spans@[a] == old_spans[a]);
                    }
                }
                assert forall|k: int| 0 <= k < spans@.len() implies (#[trigger] spans@[k]).0
                    < spans@[k].1 by {
                    if k < old_spans.len() {
                        assert(spans@[k] == old_spans[k]);
                    }
                }
            }
        }
        proof {
            horizon = now as int;
            assert forall|time: int| time <= horizon implies depth(starts@, ends@, time) >= 0 by {
                if (fresh || past < time) && time < now {
                    assert(count_le(begin@, time) == i0 && count_le(finish@, time) == j0);
                }
            }
            assert forall|k: int| 0 <= k < spans@.len() implies (#[trigger] spans@[k]).1
                <= horizon by {
                if k < old_spans.len() {
                    assert(spans@[k] == old_spans[k]);
                }
            }
            assert forall|k: int| 0 <= k < spans@.len() && i > j implies (#[trigger] spans@[k]).1
                < open by {
                assert(spans@[k] == old_spans[k]);
            }
            assert forall|time: int| i > j && open <= time <= horizon implies depth(
                starts@,
                ends@,
                time,
            ) > 0 by {
                if (fresh || past < time) && time < now {
                    assert(count_le(begin@, time) == i0 && count_le(finish@, time) == j0);
                }
            }
            assert forall|time: int| time <= horizon && (i > j ==> time < open) implies agrees(
                spans@,
                starts@,
                ends@,
                time,
            ) by {
                let fresh_or_new = (fresh || past < time) && time < now;
                if fresh_or_new {
                    assert(count_le(begin@, time) == i0 && count_le(finish@, time) == j0);
                    assert(depth(starts@, ends@, time) == i0 - j0);
                }
                if covered(old_spans, time) {
                    let k = choose|k: int|
                        0 <= k < old_spans.len() && (#[trigger] old_spans[k]).0 <= time
                            < old_spans[k].1;
                    assert(old_spans[k].1 <= past);
                    assert(!fresh);
                    assert(time < past);
                }
                if before > 0 && after == 0 {
                    assert(covered(spans@, time) <==> (covered(old_spans, time) || open <= time
                        < now));
                    if time < open {
                        assert(agrees(old_spans, starts@, ends@, time));
                    } else if time <= past {
                        assert(depth(starts@, ends@, time) > 0);
                    } else if time < now {
                    } else {
                        assert(time == now);
                        assert(!covered(old_spans, time));
                    }
                } else if before > 0 {
                    assert(spans@ == old_spans);
                    assert(agrees(old_spans, starts@, ends@, time));
                } else {
                    assert(spans@ == old_spans);
                    if !fresh && time <= past {
                        assert(agrees(old_spans, starts@, ends@, time));
                    } else if time < now {
                        assert(!covered(old_spans, time));
                    } else {
                        assert(time == now);
                        assert(!covered(old_spans, time));
                    }
                }
            }
        }
    }
    proof {
        assert forall|time: int|
            #![trigger depth(starts@, ends@, time)]
            #![trigger agrees(spans@, starts@, ends@, time)]
            depth(starts@, ends@, time) >= 0 && agrees(spans@, starts@, ends@, time) by {
            if n == 0 {
                assert(count_le(begin@, time) == 0);
                assert(count_le(finish@, time) == 0);
            }
            if n > 0 && time > horizon {
                lemma_count_between(begin@, n as int, time);
                lemma_count_between(finish@, n as int, time);
                if covered(spans@, time) {
                    let k = choose|k: int|
                        0 <= k < spans@.len() && (#[trigger] spans@[k]).0 <= time < spans@[k].1;
                    assert(spans@[k].1 <= horizon);
                }
            }
        }
    }
    Some(spans)
}

/// Without their first span, spans that are apart cover what they covered
/// from the end of that span on.
proof fn lemma_covered_rest(spans: Seq<(i64, i64)>, time: int)
    requires
        separated(spans),
        spans.len() > 0,
    ensures
        separated(spans.drop_first()),
        covered(spans.drop_first(), time) <==> covered(spans, time) && time >= spans[0].1,
{
    let rest = spans.drop_first();
    assert forall|i: int| 0 <= i < rest.len() implies (#[trigger] rest[i]).0 < rest[i].1 by {
        assert(rest[i] == spans[i + 1]);
    }
    assert forall|i: int, j: int| 0 <= i < j < rest.len() implies (#[trigger] rest[i]).1 < (
    #[trigger] rest[j]).0 by {
        assert(rest[i] == spans[i + 1] && rest[j] == spans[j + 1]);
    }
    if covered(rest, time) {
        let k = choose|k: int| 0 <= k < rest.len() && (#[trigger] rest[k]).0 <= time < rest[k].1;
        assert(rest[k] == spans[k + 1]);
        assert(spans[0].1 < spans[k + 1].0);
    }
    if covered(spans, time) && time >= spans[0].1 {
        let k = choose|k: int| 0 <= k < spans.len() && (#[trigger] spans[k]).0 <= time < spans[k].1;
        assert(k > 0);
        assert(rest[k - 1] == spans[k]);
    }
}

/// Where a list of spans that are apart begins is the first time it covers.
proof fn lemma_first_covered(spans: Seq<(i64, i64)>, time: int)
    requires
        separated(spans),
        covered(spans, time),
    ensures
        spans.len() > 0,
        spans[0].0 <= time,
        covered(spans, spans[0].0 as int),
        covered(spans, spans[0].1 - 1),
        !covered(spans, spans[0].1 as int),
{
    let k = choose|k: int| 0 <= k < spans.len() && (#[trigger] spans[k]).0 <= time < spans[k].1;
    if k > 0 {
        assert(spans[0].1 < spans[k].0);
    }
    assert(spans[0].0 <= spans[0].0 < spans[0].1);
    assert(spans[0].0 <= spans[0].1 - 1 < spans[0].1);
    if covered(spans, spans[0].1 as int) {
        let j = choose|j: int|
            0 <= j < spans.len() && (#[trigger] spans[j]).0 <= spans[0].1 < spans[j].1;
        if j > 0 {
            assert(spans[0].1 < spans[j].0);
        }
    }
}

/// What is covered tells the spans: two lists of spans that are apart and
/// cover the same times are the same list. So the spans that
/// [`merge_intervals`] hands out are the only ones that its contract allows.
pub proof fn lemma_spans_unique(first: Seq<(i64, i64)>, second: Seq<(i64, i64)>)
    requires
        separated(first),
        separated(second),
        forall|time: int| covered(first, time) <==> covered(second, time),
    ensures
        first == second,
    decreases first.len(),
{
    if first.len() == 0 {
        if second.len() > 0 {
            assert(second[0].0 <= second[0].0 < second[0].1);
            assert(covered(second, second[0].0 as int));
        }
        assert(first =~= second);
    } else {
        assert(first[0].0 <= first[0].0 < first[0].1);
        assert(covered(first, first[0].0 as int));
        lemma_first_covered(first, first[0].0 as int);
        lemma_first_covered(second, first[0].0 as int);
        lemma_first_covered(first, second[0].0 as int);
        assert(first[0].0 == second[0].0);
        // the ends agree: the time of either end is covered by neither list
        if first[0].1 < second[0].1 {
            assert(second[0].0 <= first[0].1 < second[0].1);
            assert(covered(second, first[0].1 as int));
        }
        if second[0].1 < first[0].1 {
            assert(first[0].0 <= second[0].1 < first[0].1);
            assert(covered(first, second[0].1 as int));
        }
        assert(first[0] == second[0]);
        assert forall|time: int| covered(first.drop_first(), time) <==> covered(
            second.drop_first(),
            time,
        ) by {
            lemma_covered_rest(first, time);
            lemma_covered_rest(second, time);
        }
        lemma_covered_rest(first, 0);
        lemma_covered_rest(second, 0);
        lemma_spans_unique(first.drop_first(), second.drop_first());
        assert(first =~= seq![first[0]] + first.drop_first());
        assert(second =~= seq![second[0]] + second.drop_first());
    }
}

} // verus!
