//! The merger: from the events of a run to the finished track.
//!
//! The merger is the one listener of a run. It learns from the roster which
//! tasks there are, folds the buffer of every task that finishes into one
//! mix, and knows when all of them have. Buffers carry their own offsets, so
//! each is mixed in from the start; the mix does not depend on the order in
//! which two tasks finish (see [`crate::sound::lemma_overlay_order`]).

use crate::sound::{mixed_at, scaled_sample, Sound, DEFAULT_BITRATE};
use crate::synthesis::{run_events, streams, views, Event, Progress, TaskModel, ThreadInfo};
use crate::text::same_text;
use vstd::prelude::*;

verus! {

/// Why an event was not taken, or a run not merged.
#[derive(Clone, Copy, Debug)]
pub enum MergeError {
    /// The run does not begin with its roster.
    MissingRoster,
    /// A roster in the middle of a run.
    UnexpectedRoster,
    /// An event about a task that the roster does not name, or that has
    /// finished already.
    UnknownTask,
    /// The run ends before every task has finished.
    Unfinished,
}

/// The listener of one run.
#[derive(Debug)]
pub struct Merger {
    /// The ids of the tasks that have not finished yet.
    pub pending: Vec<String>,
    /// What has been mixed so far.
    pub mix: Sound,
}

/// A merger, as plain values.
pub struct MergerModel {
    pub pending: Seq<Seq<char>>,
    pub bitrate: u32,
    pub mix: Seq<i16>,
}

/// Index of the first id from `from` on that is `id`.
pub open spec fn position(ids: Seq<Seq<char>>, id: Seq<char>, from: nat) -> Option<int>
    decreases ids.len() - from,
{
    if from >= ids.len() {
        None
    } else if ids[from as int] == id {
        Some(from as int)
    } else {
        position(ids, id, from + 1)
    }
}

impl View for Merger {
    type V = MergerModel;

    open spec fn view(&self) -> MergerModel {
        MergerModel {
            pending: Seq::new(self.pending@.len(), |k: int| self.pending@[k]@),
            bitrate: self.mix.bitrate,
            mix: self.mix.data@,
        }
    }
}

impl MergerModel {
    /// A merger that waits for the tasks `ids`, with nothing mixed yet.
    pub open spec fn waiting_for(ids: Seq<Seq<char>>) -> MergerModel {
        MergerModel { pending: ids, bitrate: DEFAULT_BITRATE, mix: Seq::empty() }
    }

    /// The merger after it has taken `event`, or why it refuses the event.
    ///
    /// An update of a pending task changes nothing. The finish of a pending
    /// task takes the task off the list and mixes its buffer in from the
    /// start. A roster, and anything about a task that is not pending, is
    /// refused.
    pub open spec fn accepted(self, event: Event) -> Result<MergerModel, MergeError> {
        match event {
            Event::Info { .. } => Err(MergeError::UnexpectedRoster),
            Event::Update { id, .. } => match position(self.pending, id, 0) {
                Some(_) => Ok(self),
                None => Err(MergeError::UnknownTask),
            },
            Event::Finish { id, samples, .. } => match position(self.pending, id, 0) {
                Some(at) => Ok(
                    MergerModel {
                        pending: self.pending.remove(at),
                        bitrate: self.bitrate,
                        mix: mixed_at(self.mix, samples, self.bitrate, 0),
                    },
                ),
                None => Err(MergeError::UnknownTask),
            },
        }
    }

    /// The merger after it has taken the first `count` of `events`; the
    /// first refusal where it refuses one of them.
    pub open spec fn after(self, events: Seq<Event>, count: nat) -> Result<MergerModel, MergeError>
        decreases count,
    {
        if count == 0 {
            Ok(self)
        } else {
            match self.after(events, (count - 1) as nat) {
                Ok(merger) => merger.accepted(events[count - 1]),
                Err(error) => Err(error),
            }
        }
    }
}

/// What merging a whole run gives: the mix of all its tasks, where the run
/// begins with its roster, tells only of tasks on the roster, and ends when
/// all of them have finished.
pub open spec fn merged(events: Seq<Event>) -> Result<Seq<i16>, MergeError> {
    if events.len() == 0 {
        Err(MergeError::MissingRoster)
    } else {
        match events[0] {
            Event::Info { ids, .. } => match MergerModel::waiting_for(ids).after(
                events.drop_first(),
                (events.len() - 1) as nat,
            ) {
                Ok(merger) => if merger.pending.len() == 0 {
                    Ok(merger.mix)
                } else {
                    Err(MergeError::Unfinished)
                },
                Err(error) => Err(error),
            },
            _ => Err(MergeError::MissingRoster),
        }
    }
}

/// The buffers of the first `count` tasks, each rendered in full, mixed in
/// the order of the tasks.
pub open spec fn all_mixed(tasks: Seq<TaskModel>, count: nat) -> Seq<i16>
    decreases count,
{
    if count == 0 {
        Seq::empty()
    } else {
        mixed_at(
            all_mixed(tasks, (count - 1) as nat),
            tasks[count - 1].mixed(tasks[count - 1].units()),
            DEFAULT_BITRATE,
            0,
        )
    }
}

/// `samples` at `factor` millionths of their volume.
pub open spec fn scaled(samples: Seq<i16>, factor: i64) -> Seq<i16> {
    Seq::new(samples.len(), |i: int| scaled_sample(samples[i], factor))
}

/// The finished track: the effects mixed onto the background track at
/// `volume` millionths of its volume, or onto silence.
pub open spec fn finished(bgm: Seq<i16>, effects: Seq<i16>, rate: u32, volume: i64, silent: bool) -> Seq<
    i16,
> {
    if silent {
        mixed_at(Seq::empty(), effects, rate, 0)
    } else {
        mixed_at(scaled(bgm, volume), effects, rate, 0)
    }
}

/// Taking events one list after another is taking the lists put together.
pub proof fn lemma_after_concat(merger: MergerModel, first: Seq<Event>, second: Seq<Event>, count: nat)
    requires
        count <= second.len(),
    ensures
        merger.after(first + second, first.len() + count) == match merger.after(first, first.len()) {
            Ok(between) => between.after(second, count),
            Err(error) => Err(error),
        },
    decreases count,
{
    let all = first + second;
    if count == 0 {
        lemma_after_prefix(merger, all, first, first.len());
    } else {
        lemma_after_concat(merger, first, second, (count - 1) as nat);
        assert(all[first.len() + count - 1] == second[count - 1]);
    }
}

/// What a merger has taken depends on the events it was given, not on those
/// to come.
pub proof fn lemma_after_prefix(merger: MergerModel, all: Seq<Event>, first: Seq<Event>, count: nat)
    requires
        count <= first.len() <= all.len(),
        forall|i: int| 0 <= i < first.len() ==> all[i] == first[i],
    ensures
        merger.after(all, count) == merger.after(first, count),
    decreases count,
{
    if count > 0 {
        lemma_after_prefix(merger, all, first, (count - 1) as nat);
    }
}

/// A merger whose first pending task is `task` takes all that the task
/// tells, and has the task's buffer mixed in and the task off its list
/// afterwards.
pub proof fn lemma_task_merges(merger: MergerModel, task: TaskModel, count: nat)
    requires
        merger.pending.len() > 0,
        merger.pending[0] == task.id,
        count <= task.units() + 1,
    ensures
        merger.after(task.stream(), count) == Ok::<MergerModel, MergeError>(
            if count <= task.units() {
                merger
            } else {
                MergerModel {
                    pending: merger.pending.drop_first(),
                    bitrate: merger.bitrate,
                    mix: mixed_at(merger.mix, task.mixed(task.units()), merger.bitrate, 0),
                }
            },
        ),
    decreases count,
{
    if count > 0 {
        lemma_task_merges(merger, task, (count - 1) as nat);
        assert(position(merger.pending, task.id, 0) == Some(0int));
        if count > task.units() {
            assert(merger.pending.remove(0) =~= merger.pending.drop_first());
        }
    }
}

/// The ids of the tasks, in their order.
pub open spec fn ids_of(tasks: Seq<TaskModel>) -> Seq<Seq<char>> {
    Seq::new(tasks.len(), |k: int| tasks[k].id)
}

/// A merger that waits for `tasks` takes all that the first `count` of them
/// tell, one task after the other, and has their buffers mixed and the other
/// tasks pending afterwards.
pub proof fn lemma_streams_merge(tasks: Seq<TaskModel>, count: nat)
    requires
        count <= tasks.len(),
    ensures
        MergerModel::waiting_for(ids_of(tasks)).after(
            streams(tasks, count),
            streams(tasks, count).len(),
        ) == Ok::<MergerModel, MergeError>(
            MergerModel {
                pending: ids_of(tasks).subrange(count as int, tasks.len() as int),
                bitrate: DEFAULT_BITRATE,
                mix: all_mixed(tasks, count),
            },
        ),
    decreases count,
{
    let start = MergerModel::waiting_for(ids_of(tasks));
    if count == 0 {
        assert(ids_of(tasks).subrange(0, tasks.len() as int) =~= ids_of(tasks));
    } else {
        let earlier = streams(tasks, (count - 1) as nat);
        let task = tasks[count - 1];
        let between = MergerModel {
            pending: ids_of(tasks).subrange(count - 1, tasks.len() as int),
            bitrate: DEFAULT_BITRATE,
            mix: all_mixed(tasks, (count - 1) as nat),
        };
        lemma_streams_merge(tasks, (count - 1) as nat);
        lemma_after_concat(start, earlier, task.stream(), task.stream().len());
        lemma_task_merges(between, task, task.stream().len());
        assert(between.pending.drop_first() =~= ids_of(tasks).subrange(
            count as int,
            tasks.len() as int,
        ));
    }
}

/// Merging the events of a run gives the buffers of all its tasks, mixed:
/// every task that was planned is in the finished mix.
pub proof fn lemma_run_merges(tasks: Seq<TaskModel>)
    ensures
        merged(run_events(tasks)) == Ok::<Seq<i16>, MergeError>(all_mixed(tasks, tasks.len())),
{
    let events = run_events(tasks);
    let told = streams(tasks, tasks.len());
    lemma_streams_merge(tasks, tasks.len());
    assert(events.drop_first() =~= told);
    assert(events[0]->ids =~= ids_of(tasks));
}

impl Merger {
    /// A merger that waits for the tasks of `threads`, with nothing mixed
    /// yet.
    pub fn new(threads: &Vec<(String, ThreadInfo)>) -> (merger: Merger)
        ensures
            merger@ == MergerModel::waiting_for(Seq::new(threads@.len(), |k: int| threads@[k].0@)),
    {
        let mut pending: Vec<String> = Vec::new();
        let mut k: usize = 0;
        while k < threads.len()
            invariant
                k <= threads@.len(),
                pending@.len() == k,
                forall|j: int| 0 <= j < k ==> (#[trigger] pending@[j])@ == threads@[j].0@,
            decreases threads@.len() - k,
        {
            pending.push(threads[k].0.clone());
            k = k + 1;
        }
        let merger = Merger { pending, mix: Sound::empty(None) };
        assert(merger@.pending =~= Seq::new(threads@.len(), |k: int| threads@[k].0@));
        merger
    }

    fn find(&self, id: &str) -> (found: Option<usize>)
        ensures
            match found {
                Some(at) => position(self@.pending, id@, 0) == Some(at as int) && at
                    < self.pending@.len(),
                None => position(self@.pending, id@, 0) is None,
            },
    {
        let mut at: usize = 0;
        while at < self.pending.len()
            invariant
                at <= self.pending@.len(),
                self@.pending.len() == self.pending@.len(),
                position(self@.pending, id@, 0) == position(self@.pending, id@, at as nat),
            decreases self.pending@.len() - at,
        {
            if same_text(self.pending[at].as_str(), id) {
                return Some(at);
            }
            at = at + 1;
        }
        None
    }

    /// Whether every task has finished.
    pub fn is_done(&self) -> (done: bool)
        ensures
            done == (self@.pending.len() == 0),
    {
        self.pending.len() == 0
    }

    /// Takes the next event of the run, as [`MergerModel::accepted`] says.
    /// A merger that refuses an event is handed back as it was.
    pub fn accept(self, event: &Progress) -> (taken: Result<Merger, (Merger, MergeError)>)
        ensures
            match taken {
                Ok(next) => self@.accepted(event@) == Ok::<MergerModel, MergeError>(next@),
                Err((same, error)) => same == self && self@.accepted(event@) == Err::<
                    MergerModel,
                    MergeError,
                >(error),
            },
    {
        match event {
            Progress::Info { .. } => Err((self, MergeError::UnexpectedRoster)),
            Progress::Update { id, .. } => match self.find(id.as_str()) {
                Some(_) => Ok(self),
                None => Err((self, MergeError::UnknownTask)),
            },
            Progress::Finish { id, sound } => match self.find(id.as_str()) {
                Some(at) => {
                    let ghost before = self@.pending;
                    let mut pending = self.pending;
                    pending.remove(at);
                    assert(sound.data.len() == sound.data@.len());
                    let next = Merger { pending, mix: self.mix.overlay_at(sound, 0) };
                    assert(next@.pending =~= before.remove(at as int));
                    Ok(next)
                },
                None => Err((self, MergeError::UnknownTask)),
            },
        }
    }

    /// Hands out the mix.
    pub fn into_sound(self) -> (mix: Sound)
        ensures
            mix == self.mix,
    {
        self.mix
    }
}

/// Merges a whole run: takes its events in their order and hands out the
/// mix of all its tasks.
///
/// Fails where the run does not begin with its roster, where the merger
/// refuses an event, and where the events end while a task is still
/// pending.
pub fn merge(events: &Vec<Progress>) -> (mixed: Result<Sound, MergeError>)
    ensures
        match mixed {
            Ok(sound) => merged(views(events@)) == Ok::<Seq<i16>, MergeError>(sound.data@)
                && sound.bitrate == DEFAULT_BITRATE,
            Err(error) => merged(views(events@)) == Err::<Seq<i16>, MergeError>(error),
        },
{
    if events.len() == 0 {
        return Err(MergeError::MissingRoster);
    }
    let mut merger = match &events[0] {
        Progress::Info { threads } => Merger::new(threads),
        _ => {
            return Err(MergeError::MissingRoster);
        },
    };
    let ghost start = merger@;
    let ghost rest = views(events@).drop_first();
    proof {
        assert(views(events@)[0] == events@[0]@);
        assert(views(events@)[0]->ids =~= start.pending);
    }
    let mut i: usize = 1;
    while i < events.len()
        invariant
            1 <= i <= events@.len(),
            rest == views(events@).drop_first(),
            merger@.bitrate == DEFAULT_BITRATE,
            start.after(rest, (i - 1) as nat) == Ok::<MergerModel, MergeError>(merger@),
            views(events@)[0] matches Event::Info { ids, .. } && start == MergerModel::waiting_for(ids),
        decreases events@.len() - i,
    {
        proof {
            assert(rest[i - 1] == events@[i as int]@);
        }
        merger = match merger.accept(&events[i]) {
            Ok(next) => next,
            Err((_, error)) => {
                proof {
                    lemma_after_fails(start, rest, i as nat, (events@.len() - 1) as nat);
                }
                return Err(error);
            },
        };
        i = i + 1;
    }
    if !merger.is_done() {
        return Err(MergeError::Unfinished);
    }
    Ok(merger.into_sound())
}

/// Once a merger has refused an event, the refusal stands.
pub proof fn lemma_after_fails(merger: MergerModel, events: Seq<Event>, failed: nat, count: nat)
    requires
        merger.after(events, failed) is Err,
        failed <= count,
    ensures
        merger.after(events, count) == merger.after(events, failed),
    decreases count,
{
    if count > failed {
        lemma_after_fails(merger, events, failed, (count - 1) as nat);
    }
}

/// Makes the finished track: the effects on top of the background track at
/// `volume` millionths of its volume, or, where `silent` is set, the effects
/// alone.
pub fn mix_down(bgm: Sound, effects: &Sound, volume: i64, silent: bool) -> (track: Sound)
    ensures
        track.bitrate == if silent {
            DEFAULT_BITRATE
        } else {
            bgm.bitrate
        },
        track.data@ == finished(bgm.data@, effects.data@, track.bitrate, volume, silent),
        (silent || bgm.wf()) && effects.wf() ==> track.wf(),
{
    let base = if silent {
        Sound::empty(None)
    } else {
        let scaled_bgm = bgm.scale(volume);
        assert(scaled_bgm.data@ =~= scaled(bgm.data@, volume));
        scaled_bgm
    };
    assert(effects.data.len() == effects.data@.len());
    base.overlay_at(effects, 0)
}

} // verus!
