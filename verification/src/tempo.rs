//! The tempo map: from a beat position to a playback time.
//!
//! A chart gives its tempo as a list of change points. Between two points the
//! tempo is constant, so the time of a beat is a sum over the segments before
//! it. Every query walks the list from its start and keeps no state, so the
//! order of queries never matters.

use crate::units::trunc_div;
use vstd::prelude::*;

verus! {

/// Microseconds in a minute.
pub const MICROS_PER_MINUTE: i64 = 60_000_000;

/// A point from which a new tempo holds.
#[derive(Clone, Copy, Debug)]
pub struct BpmChange {
    /// Position of the change, in millionths of a beat.
    pub beat: i64,
    /// Tempo from there on, in millionths of a beat per minute.
    pub bpm: i64,
}

/// Why a list of tempo changes cannot serve as a tempo map.
#[derive(Clone, Copy, Debug)]
pub enum TempoError {
    /// The change at this position of the list has a tempo of zero or less.
    InvalidTempo { index: usize },
    /// No change lies at or before beat zero, so the chart has no tempo to
    /// start with.
    NoInitialTempo,
}

/// Microseconds that `beats` millionths of a beat last at `bpm` millionths of
/// a beat per minute, rounded toward zero.
pub open spec fn segment_time(beats: int, bpm: int) -> int
    recommends
        bpm > 0,
{
    trunc_div(beats * (MICROS_PER_MINUTE as int), bpm)
}

/// `sorted` with `change` put behind the last point that is not later than it.
pub open spec fn inserted(sorted: Seq<BpmChange>, change: BpmChange) -> Seq<BpmChange>
    decreases sorted.len(),
{
    if sorted.len() == 0 || sorted.last().beat <= change.beat {
        sorted.push(change)
    } else {
        inserted(sorted.drop_last(), change).push(sorted.last())
    }
}

/// The changes in ascending order of beat. Changes at the same beat keep the
/// order in which the chart lists them.
pub open spec fn in_beat_order(changes: Seq<BpmChange>) -> Seq<BpmChange>
    decreases changes.len(),
{
    if changes.len() == 0 {
        Seq::empty()
    } else {
        inserted(in_beat_order(changes.drop_last()), changes.last())
    }
}

/// Whether no point comes before an earlier one.
pub open spec fn ascending(points: Seq<BpmChange>) -> bool {
    forall|i: int, j: int| 0 <= i <= j < points.len() ==> points[i].beat <= points[j].beat
}

/// Whether every tempo of the list is positive.
pub open spec fn tempi_positive(changes: Seq<BpmChange>) -> bool {
    forall|i: int| 0 <= i < changes.len() ==> changes[i].bpm > 0
}

/// Whether some change lies at or before beat zero.
pub open spec fn has_initial_tempo(changes: Seq<BpmChange>) -> bool {
    exists|i: int| 0 <= i < changes.len() && changes[i].beat <= 0
}

/// Whether `points` can back a tempo map: in order, with positive tempi, and
/// starting at or before beat zero.
pub open spec fn usable(points: Seq<BpmChange>) -> bool {
    &&& points.len() > 0
    &&& ascending(points)
    &&& tempi_positive(points)
    &&& points[0].beat <= 0
}

/// Beat at which the segment that ends in point `i` begins.
pub open spec fn segment_start(points: Seq<BpmChange>, i: int) -> int {
    if i <= 0 {
        0
    } else {
        points[i - 1].beat as int
    }
}

/// Tempo of the segment that ends in point `i`. Before the first point the
/// tempo of the first point holds.
pub open spec fn segment_bpm(points: Seq<BpmChange>, i: int) -> int {
    if i <= 0 {
        points[0].bpm as int
    } else {
        points[i - 1].bpm as int
    }
}

/// Microseconds from beat zero to point `count - 1`: the sum of the first
/// `count` segments.
pub open spec fn elapsed(points: Seq<BpmChange>, count: nat) -> int
    decreases count,
{
    if count == 0 {
        0
    } else {
        elapsed(points, (count - 1) as nat) + segment_time(
            points[count - 1].beat - segment_start(points, count - 1),
            segment_bpm(points, count - 1),
        )
    }
}

/// Index of the first point from `from` on that lies after `beat`, or the
/// length of the list.
pub open spec fn first_after(points: Seq<BpmChange>, beat: int, from: nat) -> nat
    decreases points.len() - from,
{
    if from >= points.len() || points[from as int].beat > beat {
        from
    } else {
        first_after(points, beat, from + 1)
    }
}

/// Microseconds from beat zero to `beat`: the segments up to the last point
/// that is not after `beat`, and the rest at that point's tempo.
pub open spec fn resolved(points: Seq<BpmChange>, beat: int) -> int {
    let reached = first_after(points, beat, 0);
    elapsed(points, reached) + segment_time(
        beat - segment_start(points, reached as int),
        segment_bpm(points, reached as int),
    )
}

/// At one tempo from beat zero on, a beat that is not negative resolves to
/// what that many beats take at that tempo: beats times sixty over the beats
/// per minute.
pub proof fn lemma_constant_tempo(bpm: i64, beat: i64)
    requires
        bpm > 0,
        beat >= 0,
    ensures
        resolved(seq![BpmChange { beat: 0, bpm }], beat as int) == segment_time(beat as int, bpm as int),
{
    let points = seq![BpmChange { beat: 0, bpm }];
    assert(first_after(points, beat as int, 1) == 1);
    assert(first_after(points, beat as int, 0) == 1);
    assert(elapsed(points, 0) == 0);
    assert(elapsed(points, 1) == segment_time(0, bpm as int));
    assert(segment_time(0, bpm as int) == 0) by {
        assert(0int / (bpm as int) == 0) by (nonlinear_arith)
            requires
                bpm > 0,
        ;
    }
}

/// A segment lasts no longer, in microseconds, than sixty million times its
/// length in millionths of a beat, and has the sign of its length.
pub proof fn lemma_segment_bounds(beats: int, bpm: int)
    requires
        bpm > 0,
    ensures
        beats >= 0 ==> 0 <= segment_time(beats, bpm) <= beats * 60_000_000,
        beats <= 0 ==> beats * 60_000_000 <= segment_time(beats, bpm) <= 0,
{
    let scaled = beats * 60_000_000;
    if beats >= 0 {
        assert(0 <= scaled / bpm <= scaled) by (nonlinear_arith)
            requires
                scaled >= 0,
                bpm > 0,
        ;
    } else {
        assert(0 <= (-scaled) / bpm <= -scaled) by (nonlinear_arith)
            requires
                -scaled >= 0,
                bpm > 0,
        ;
    }
}

/// The time of any point of a usable map lies between the time of the first
/// point, which is not positive, and what the beats since then would take at
/// the slowest tempo of one millionth of a beat per minute.
pub proof fn lemma_elapsed_bounds(points: Seq<BpmChange>, count: nat)
    requires
        usable(points),
        1 <= count <= points.len(),
    ensures
        points[0].beat * 60_000_000 <= elapsed(points, count) <= (points[count - 1].beat
            - points[0].beat) * 60_000_000,
    decreases count,
{
    if count == 1 {
        assert(elapsed(points, 0) == 0);
        lemma_segment_bounds(points[0].beat as int, points[0].bpm as int);
    } else {
        lemma_elapsed_bounds(points, (count - 1) as nat);
        lemma_segment_bounds(points[count - 1].beat - points[count - 2].beat, points[count - 2].bpm as int);
    }
}

/// Putting a change into an ascending list keeps it ascending, and the list
/// then holds that change and what it held before, nothing else.
pub proof fn lemma_inserted(sorted: Seq<BpmChange>, change: BpmChange)
    requires
        ascending(sorted),
    ensures
        ascending(inserted(sorted, change)),
        inserted(sorted, change).len() == sorted.len() + 1,
        inserted(sorted, change).contains(change),
        forall|c: BpmChange| #[trigger] sorted.contains(c) ==> inserted(sorted, change).contains(c),
        forall|c: BpmChange| #[trigger]
            inserted(sorted, change).contains(c) ==> c == change || sorted.contains(c),
    decreases sorted.len(),
{
    let out = inserted(sorted, change);
    if sorted.len() == 0 || sorted.last().beat <= change.beat {
        assert(out[sorted.len() as int] == change);
        assert forall|c: BpmChange| #[trigger] sorted.contains(c) implies out.contains(c) by {
            let i = choose|i: int| 0 <= i < sorted.len() && sorted[i] == c;
            assert(out[i] == c);
        }
        assert forall|c: BpmChange| #[trigger] out.contains(c) implies c == change
            || sorted.contains(c) by {
            let i = choose|i: int| 0 <= i < out.len() && out[i] == c;
            if i < sorted.len() {
                assert(sorted[i] == c);
            }
        }
    } else {
        let rest = sorted.drop_last();
        let last = sorted.last();
        lemma_inserted(rest, change);
        let inner = inserted(rest, change);
        assert(out == inner.push(last));
        assert forall|i: int| 0 <= i < inner.len() implies (#[trigger] inner[i]).beat
            <= last.beat by {
            assert(inner.contains(inner[i]));
            if inner[i] != change {
                assert(rest.contains(inner[i]));
                let k = choose|k: int| 0 <= k < rest.len() && rest[k] == inner[i];
                assert(sorted[k] == inner[i]);
            }
        }
        assert forall|i: int, j: int| 0 <= i <= j < out.len() implies out[i].beat
            <= out[j].beat by {
            if j < inner.len() {
                assert(out[i] == inner[i] && out[j] == inner[j]);
            } else if i < inner.len() {
                assert(out[i] == inner[i]);
            }
        }
        let k = choose|k: int| 0 <= k < inner.len() && inner[k] == change;
        assert(out[k] == change);
        assert forall|c: BpmChange| #[trigger] sorted.contains(c) implies out.contains(c) by {
            let i = choose|i: int| 0 <= i < sorted.len() && sorted[i] == c;
            if i < rest.len() {
                assert(rest[i] == c);
                assert(rest.contains(c));
                assert(inner.contains(c));
                let m = choose|m: int| 0 <= m < inner.len() && inner[m] == c;
                assert(out[m] == c);
            } else {
                assert(out[out.len() - 1] == c);
            }
        }
        assert forall|c: BpmChange| #[trigger] out.contains(c) implies c == change
            || sorted.contains(c) by {
            let i = choose|i: int| 0 <= i < out.len() && out[i] == c;
            if i < inner.len() {
                assert(inner[i] == c);
                assert(inner.contains(c));
                if c != change {
                    assert(rest.contains(c));
                    let m = choose|m: int| 0 <= m < rest.len() && rest[m] == c;
                    assert(sorted[m] == c);
                }
            } else {
                assert(sorted[sorted.len() - 1] == c);
            }
        }
    }
}

/// Ordering a list by beat keeps its changes, all of them and no others, and
/// puts them in ascending order.
pub proof fn lemma_in_beat_order(changes: Seq<BpmChange>)
    ensures
        ascending(in_beat_order(changes)),
        in_beat_order(changes).len() == changes.len(),
        forall|c: BpmChange| #[trigger] changes.contains(c) ==> in_beat_order(changes).contains(c),
        forall|c: BpmChange| #[trigger] in_beat_order(changes).contains(c) ==> changes.contains(c),
    decreases changes.len(),
{
    let out = in_beat_order(changes);
    if changes.len() > 0 {
        let rest = changes.drop_last();
        let last = changes.last();
        lemma_in_beat_order(rest);
        lemma_inserted(in_beat_order(rest), last);
        assert forall|c: BpmChange| #[trigger] changes.contains(c) implies out.contains(c) by {
            let i = choose|i: int| 0 <= i < changes.len() && changes[i] == c;
            if i < rest.len() {
                assert(rest[i] == c);
                assert(rest.contains(c));
                assert(in_beat_order(rest).contains(c));
            }
        }
        assert forall|c: BpmChange| #[trigger] out.contains(c) implies changes.contains(c) by {
            if c == last {
                assert(changes[changes.len() - 1] == c);
            } else {
                assert(in_beat_order(rest).contains(c));
                assert(rest.contains(c));
                let i = choose|i: int| 0 <= i < rest.len() && rest[i] == c;
                assert(changes[i] == c);
            }
        }
    } else {
        assert forall|c: BpmChange| #[trigger] out.contains(c) implies changes.contains(c) by {
            let i = choose|i: int| 0 <= i < out.len() && out[i] == c;
        }
    }
}

/// Where a change goes: in front of the points after it, behind those that
/// are not.
proof fn lemma_inserted_at(sorted: Seq<BpmChange>, change: BpmChange, at: int)
    requires
        0 <= at <= sorted.len(),
        forall|i: int| at <= i < sorted.len() ==> sorted[i].beat > change.beat,
        at > 0 ==> sorted[at - 1].beat <= change.beat,
    ensures
        inserted(sorted, change) == sorted.insert(at, change),
    decreases sorted.len(),
{
    if at == sorted.len() {
        assert(sorted.insert(at, change) =~= sorted.push(change));
    } else {
        let rest = sorted.drop_last();
        lemma_inserted_at(rest, change, at);
        assert(sorted.insert(at, change) =~= rest.insert(at, change).push(sorted.last()));
    }
}

/// The time `t` as a machine value, where it is one.
pub open spec fn representable(t: int) -> Option<i64> {
    if i64::MIN <= t <= i64::MAX {
        Some(t as i64)
    } else {
        None
    }
}

fn segment(beats: i128, bpm: i64) -> (time: i128)
    requires
        bpm > 0,
        -0x1_0000_0000_0000_0000 <= beats <= 0x1_0000_0000_0000_0000,
    ensures
        time == segment_time(beats as int, bpm as int),
{
    let scaled: i128 = beats * 60_000_000;
    scaled / (bpm as i128)
}

/// A chart's tempo changes, ready to resolve beats.
pub struct TempoMap {
    changes: Vec<BpmChange>,
    offset: i128,
}

impl TempoMap {
    #[verifier::type_invariant]
    spec fn inv(&self) -> bool {
        &&& usable(self.changes@)
        &&& -0x1_0000_0000_0000_0000 <= self.offset <= 0x1_0000_0000_0000_0000
    }

    /// The change points, in ascending order of beat.
    pub closed spec fn points(&self) -> Seq<BpmChange> {
        self.changes@
    }

    /// Microseconds added to every resolved time.
    pub closed spec fn shift(&self) -> int {
        self.offset as int
    }

    /// Builds the map of a chart from its changes, in the order in which the
    /// chart lists them. Every resolved time is moved by the offset of the
    /// chart's background track and by `shift`, both in microseconds.
    ///
    /// The changes are put in order of beat. A tempo that is not positive is
    /// refused, and so is a chart without a tempo at or before beat zero.
    pub fn new(changes: &Vec<BpmChange>, bgm_offset: i64, shift: i64) -> (made: Result<
        TempoMap,
        TempoError,
    >)
        ensures
            match made {
                Ok(map) => {
                    &&& tempi_positive(changes@)
                    &&& has_initial_tempo(changes@)
                    &&& map.points() == in_beat_order(changes@)
                    &&& map.shift() == bgm_offset + shift
                    &&& usable(map.points())
                },
                Err(TempoError::InvalidTempo { index }) => {
                    &&& index < changes@.len()
                    &&& changes@[index as int].bpm <= 0
                    &&& forall|j: int| 0 <= j < index ==> changes@[j].bpm > 0
                },
                Err(TempoError::NoInitialTempo) => {
                    &&& tempi_positive(changes@)
                    &&& !has_initial_tempo(changes@)
                },
            },
    {
        let mut sorted: Vec<BpmChange> = Vec::new();
        let mut i: usize = 0;
        while i < changes.len()
            invariant
                i <= changes@.len(),
                sorted@ == in_beat_order(changes@.subrange(0, i as int)),
                forall|j: int| 0 <= j < i ==> changes@[j].bpm > 0,
            decreases changes@.len() - i,
        {
            let change = changes[i];
            if change.bpm <= 0 {
                return Err(TempoError::InvalidTempo { index: i });
            }
            proof {
                lemma_in_beat_order(changes@.subrange(0, i as int));
            }
            let mut at: usize = sorted.len();
            while at > 0 && sorted[at - 1].beat > change.beat
                invariant
                    at <= sorted@.len(),
                    forall|k: int| at <= k < sorted@.len() ==> sorted@[k].beat > change.beat,
                decreases at,
            {
                at = at - 1;
            }
            proof {
                lemma_inserted_at(sorted@, change, at as int);
                let next = changes@.subrange(0, i as int + 1);
                assert(next.drop_last() =~= changes@.subrange(0, i as int));
                assert(next.last() == change);
            }
            sorted.insert(at, change);
            i = i + 1;
        }
        proof {
            assert(changes@.subrange(0, i as int) =~= changes@);
            lemma_in_beat_order(changes@);
        }
        if sorted.len() == 0 || sorted[0].beat > 0 {
            proof {
                if has_initial_tempo(changes@) {
                    let k = choose|k: int| 0 <= k < changes@.len() && changes@[k].beat <= 0;
                    assert(changes@.contains(changes@[k]));
                    let m = choose|m: int| 0 <= m < sorted@.len() && sorted@[m] == changes@[k];
                    assert(sorted@[0].beat <= sorted@[m].beat);
                }
            }
            return Err(TempoError::NoInitialTempo);
        }
        proof {
            assert(sorted@.contains(sorted@[0]));
            let k = choose|k: int| 0 <= k < changes@.len() && changes@[k] == sorted@[0];
            assert(changes@[k].beat <= 0);
            assert forall|j: int| 0 <= j < sorted@.len() implies sorted@[j].bpm > 0 by {
                assert(sorted@.contains(sorted@[j]));
                let m = choose|m: int| 0 <= m < changes@.len() && changes@[m] == sorted@[j];
            }
        }
        Ok(TempoMap { changes: sorted, offset: bgm_offset as i128 + shift as i128 })
    }

    /// Resolves `beat`, in millionths of a beat, to microseconds of playback.
    ///
    /// The result is the time from beat zero to `beat`, summed segment by
    /// segment, plus the offset of the map. It is `None` exactly where that
    /// time is no machine value.
    pub fn resolve_time(&self, beat: i64) -> (time: Option<i64>)
        ensures
            time == representable(resolved(self.points(), beat as int) + self.shift()),
    {
        proof {
            use_type_invariant(self);
        }
        let mut time: i128 = 0;
        let mut last_beat: i64 = 0;
        let mut last_bpm: i64 = self.changes[0].bpm;
        let mut i: usize = 0;
        while i < self.changes.len() && self.changes[i].beat <= beat
            invariant
                usable(self.changes@),
                i <= self.changes@.len(),
                time == elapsed(self.changes@, i as nat),
                last_beat == segment_start(self.changes@, i as int),
                last_bpm == segment_bpm(self.changes@, i as int),
                first_after(self.changes@, beat as int, 0) == first_after(
                    self.changes@,
                    beat as int,
                    i as nat,
                ),
            decreases self.changes@.len() - i,
        {
            let change = self.changes[i];
            proof {
                if i > 0 {
                    lemma_elapsed_bounds(self.changes@, i as nat);
                }
                lemma_elapsed_bounds(self.changes@, (i + 1) as nat);
            }
            time = time + segment(change.beat as i128 - last_beat as i128, last_bpm);
            last_beat = change.beat;
            last_bpm = change.bpm;
            i = i + 1;
        }
        proof {
            if i > 0 {
                lemma_elapsed_bounds(self.changes@, i as nat);
            }
            lemma_segment_bounds(beat - last_beat, last_bpm as int);
        }
        let total: i128 = time + segment(beat as i128 - last_beat as i128, last_bpm)
            + self.offset;
        if total < -0x8000_0000_0000_0000 || total > 0x7fff_ffff_ffff_ffff {
            None
        } else {
            Some(total as i64)
        }
    }
}

} // verus!
