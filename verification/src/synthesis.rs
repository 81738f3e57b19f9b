//! The mixing engine: from the timing of a chart and an effect bank to the
//! rendered effects.
//!
//! The work is cut into tasks that share nothing: one for every chunk of an
//! effect's instants, one for every effect's holds. A task renders into a
//! buffer of its own and tells of its progress. The events of a run are the
//! roster of all tasks, then what the tasks tell; [`synthesis`] runs the tasks
//! one after the other, and a caller that runs them side by side gets the
//! same buffers from [`Task::advance`].

use crate::effect::Effect;
use crate::merger::{all_mixed, lemma_run_merges, merged, MergeError};
use crate::partition::{chunk_count, chunk_of, partition};
use crate::sound::{
    fits_at, fits_loop, fits_until, mixed_at, mixed_loop, mixed_until, Sound, DEFAULT_BITRATE,
};
use crate::text::{decimal, digits};
use crate::units::lemma_sample_index;
use crate::timing::{HoldTrack, InstantTrack, Timing};
use crate::vocabulary::{
    clip_color, color_for, display_name, lemma_display_names, name_for, spaceless, ClipColor,
};
use vstd::prelude::*;
use vstd::string::StringExecFns;

verus! {

/// Microseconds for which the last instant of a chunk may sound, there being
/// no next instant to cut it off.
pub const FALLBACK_WINDOW: i64 = 5_000_000;

/// What the roster tells of a task.
#[derive(Clone, Copy, Debug)]
pub struct ThreadInfo {
    /// The colours to show the task in.
    pub color: ClipColor,
    /// The number of its units of work.
    pub max: i32,
}

/// An event of a run.
#[derive(Debug)]
pub enum Progress {
    /// The roster: every task of the run, by id.
    Info { threads: Vec<(String, ThreadInfo)> },
    /// The task `id` has done `current` of its units.
    Update { id: String, current: i32 },
    /// The task `id` is done, and this is what it rendered.
    Finish { id: String, sound: Sound },
}

/// What a task renders.
#[derive(Debug)]
pub enum Work {
    /// One-shot clips at these times, each cut off where the next begins.
    Instants(Vec<i64>),
    /// The clip, repeated, over each of these spans.
    Holds(Vec<(i64, i64)>),
}

/// A unit of independent work: a clip and where to put it.
#[derive(Debug)]
pub struct Task {
    pub id: String,
    pub color: ClipColor,
    pub clip: Sound,
    pub work: Work,
}

/// Why a run cannot be made.
#[derive(Debug)]
pub enum SynthesisError {
    /// The timing names an effect that the bank has no clip for, or that has
    /// no display name.
    UnknownEffect { name: String },
    /// The task of this id would render past the longest buffer there can
    /// be.
    TooLong { id: String },
}

impl SynthesisError {
    /// The error in words.
    pub fn message(&self) -> (text: String)
        ensures
            text@ == match self {
                SynthesisError::UnknownEffect { name } => "不明なSEです："@ + name@
                    + "。Issueに報告してください。"@,
                SynthesisError::TooLong { id } => "音声が長すぎます："@ + id@,
            },
    {
        match self {
            SynthesisError::UnknownEffect { name } => String::from_str("不明なSEです：").concat(
                name.as_str(),
            ).concat("。Issueに報告してください。"),
            SynthesisError::TooLong { id } => String::from_str("音声が長すぎます：").concat(id.as_str()),
        }
    }
}

/// What a task renders, as plain values.
pub enum WorkModel {
    Instants(Seq<i64>),
    Holds(Seq<(i64, i64)>),
}

/// A task, as plain values.
pub struct TaskModel {
    pub id: Seq<char>,
    pub color: ClipColor,
    /// The samples of the clip.
    pub clip: Seq<i16>,
    /// The frame rate that the clip was decoded at. Rendering goes by the
    /// rate of the buffer it renders into, never by this one.
    pub clip_bitrate: u32,
    pub work: WorkModel,
}

/// An event, as plain values.
pub enum Event {
    Info { ids: Seq<Seq<char>>, infos: Seq<ThreadInfo> },
    Update { id: Seq<char>, current: i32 },
    Finish { id: Seq<char>, bitrate: u32, samples: Seq<i16> },
}

impl View for Work {
    type V = WorkModel;

    open spec fn view(&self) -> WorkModel {
        match self {
            Work::Instants(times) => WorkModel::Instants(times@),
            Work::Holds(spans) => WorkModel::Holds(spans@),
        }
    }
}

impl View for Task {
    type V = TaskModel;

    open spec fn view(&self) -> TaskModel {
        TaskModel {
            id: self.id@,
            color: self.color,
            clip: self.clip.data@,
            clip_bitrate: self.clip.bitrate,
            work: self.work@,
        }
    }
}

impl View for Progress {
    type V = Event;

    open spec fn view(&self) -> Event {
        match self {
            Progress::Info { threads } => Event::Info {
                ids: Seq::new(threads@.len(), |k: int| threads@[k].0@),
                infos: Seq::new(threads@.len(), |k: int| threads@[k].1),
            },
            Progress::Update { id, current } => Event::Update { id: id@, current: *current },
            Progress::Finish { id, sound } => Event::Finish {
                id: id@,
                bitrate: sound.bitrate,
                samples: sound.data@,
            },
        }
    }
}

/// The views of `events`, in their order.
pub open spec fn views(events: Seq<Progress>) -> Seq<Event> {
    Seq::new(events.len(), |i: int| events[i]@)
}

/// The count `n` as an event carries it: itself, or the largest count an
/// event can carry where `n` is beyond it.
pub open spec fn count_shown(n: int) -> i32 {
    if n > i32::MAX {
        i32::MAX
    } else {
        n as i32
    }
}

/// Where the clip at instant `i` of a chunk is cut off: at the next instant
/// of the chunk, or, after the last, [`FALLBACK_WINDOW`] later.
pub open spec fn stop_after(times: Seq<i64>, i: int) -> i64 {
    if i + 1 < times.len() {
        times[i + 1]
    } else if times[i] + FALLBACK_WINDOW > i64::MAX {
        i64::MAX
    } else {
        (times[i] + FALLBACK_WINDOW) as i64
    }
}

impl TaskModel {
    /// Number of units of work: instants, or spans.
    pub open spec fn units(self) -> nat {
        match self.work {
            WorkModel::Instants(times) => times.len(),
            WorkModel::Holds(spans) => spans.len(),
        }
    }

    /// Whether unit `unit` can be rendered into a buffer of `rate` frames
    /// per second.
    pub open spec fn fits(self, rate: u32, unit: int) -> bool {
        match self.work {
            WorkModel::Instants(times) => fits_until(
                self.clip.len(),
                rate,
                times[unit],
                stop_after(times, unit),
            ),
            WorkModel::Holds(spans) => fits_loop(rate, spans[unit].1),
        }
    }

    /// `base` with unit `unit` rendered into it.
    pub open spec fn step(self, base: Seq<i16>, rate: u32, unit: int) -> Seq<i16> {
        match self.work {
            WorkModel::Instants(times) => mixed_until(
                base,
                self.clip,
                rate,
                times[unit],
                stop_after(times, unit),
            ),
            WorkModel::Holds(spans) => mixed_loop(base, self.clip, rate, spans[unit].0, spans[unit].1),
        }
    }

    /// What the task has rendered after its first `count` units, starting
    /// from an empty buffer.
    pub open spec fn mixed(self, count: nat) -> Seq<i16>
        decreases count,
    {
        if count == 0 {
            Seq::empty()
        } else {
            self.step(self.mixed((count - 1) as nat), DEFAULT_BITRATE, count - 1)
        }
    }

    /// Whether the first `count` units can be rendered.
    pub open spec fn fit(self, count: nat) -> bool {
        forall|unit: int| 0 <= unit < count ==> self.fits(DEFAULT_BITRATE, unit)
    }

    /// What the roster tells of the task.
    pub open spec fn info(self) -> ThreadInfo {
        ThreadInfo { color: self.color, max: count_shown(self.units() as int) }
    }

    /// What the task tells while it runs: an update after each unit, then
    /// what it rendered.
    pub open spec fn stream(self) -> Seq<Event> {
        Seq::new(
            self.units() + 1,
            |i: int|
                if i < self.units() {
                    Event::Update { id: self.id, current: count_shown(i + 1) }
                } else {
                    Event::Finish {
                        id: self.id,
                        bitrate: DEFAULT_BITRATE,
                        samples: self.mixed(self.units()),
                    }
                },
        )
    }
}

/// A task whose clip holds whole frames renders whole frames.
pub proof fn lemma_mixed_whole_frames(task: TaskModel, count: nat)
    requires
        task.clip.len() % 2 == 0,
        count <= task.units(),
    ensures
        task.mixed(count).len() % 2 == 0,
    decreases count,
{
    if count > 0 {
        lemma_mixed_whole_frames(task, (count - 1) as nat);
        match task.work {
            WorkModel::Instants(times) => {
                lemma_sample_index(times[count - 1], DEFAULT_BITRATE);
                lemma_sample_index(stop_after(times, count - 1), DEFAULT_BITRATE);
            },
            WorkModel::Holds(spans) => {
                lemma_sample_index(spans[count - 1].0, DEFAULT_BITRATE);
                lemma_sample_index(spans[count - 1].1, DEFAULT_BITRATE);
            },
        }
    }
}

fn shown(n: usize) -> (count: i32)
    ensures
        count == count_shown(n as int),
{
    if n > 0x7fff_ffff {
        0x7fff_ffff
    } else {
        n as i32
    }
}

impl Task {
    /// Number of units of work.
    pub fn units(&self) -> (n: usize)
        ensures
            n == self@.units(),
    {
        match &self.work {
            Work::Instants(times) => times.len(),
            Work::Holds(spans) => spans.len(),
        }
    }

    /// What the roster tells of the task.
    pub fn info(&self) -> (info: ThreadInfo)
        ensures
            info == self@.info(),
    {
        ThreadInfo { color: self.color, max: shown(self.units()) }
    }

    /// The event that tells that `done` units of the task are done.
    pub fn update(&self, done: usize) -> (event: Progress)
        ensures
            event@ == (Event::Update { id: self.id@, current: count_shown(done as int) }),
    {
        Progress::Update { id: self.id.clone(), current: shown(done) }
    }

    /// The event that tells that the task is done and has rendered `sound`.
    pub fn finish(&self, sound: Sound) -> (event: Progress)
        ensures
            event@ == (Event::Finish { id: self.id@, bitrate: sound.bitrate, samples: sound.data@ }),
    {
        Progress::Finish { id: self.id.clone(), sound }
    }

    /// Renders unit `unit` into `sound`.
    ///
    /// `None` where the task has no such unit, or where the unit would end
    /// past the longest buffer there can be.
    pub fn advance(&self, sound: Sound, unit: usize) -> (done: Option<Sound>)
        ensures
            done is Some <==> unit < self@.units() && self@.fits(sound.bitrate, unit as int),
            done matches Some(out) ==> {
                &&& out.bitrate == sound.bitrate
                &&& out.data@ == self@.step(sound.data@, sound.bitrate, unit as int)
            },
    {
        match &self.work {
            Work::Instants(times) => {
                if unit >= times.len() {
                    return None;
                }
                let time = times[unit];
                let stop = if unit + 1 < times.len() {
                    times[unit + 1]
                } else if time > i64::MAX - FALLBACK_WINDOW {
                    i64::MAX
                } else {
                    time + FALLBACK_WINDOW
                };
                if !sound.can_overlay_until(&self.clip, time, stop) {
                    return None;
                }
                Some(sound.overlay_until(&self.clip, time, stop))
            },
            Work::Holds(spans) => {
                if unit >= spans.len() {
                    return None;
                }
                let span = spans[unit];
                if !sound.can_overlay_loop(span.1) {
                    return None;
                }
                Some(sound.overlay_loop(&self.clip, span.0, span.1))
            },
        }
    }

    /// Runs the task: renders unit after unit into an empty buffer, and
    /// hands out what the task tells on the way.
    pub fn render(&self) -> (told: Result<Vec<Progress>, SynthesisError>)
        ensures
            match told {
                Ok(events) => self@.fit(self@.units()) && views(events@) == self@.stream(),
                Err(SynthesisError::TooLong { id }) => !self@.fit(self@.units()) && id@ == self.id@,
                Err(SynthesisError::UnknownEffect { .. }) => false,
            },
    {
        let n = self.units();
        let mut events: Vec<Progress> = Vec::new();
        let mut sound = Sound::empty(None);
        let mut unit: usize = 0;
        while unit < n
            invariant
                unit <= n,
                n == self@.units(),
                sound.bitrate == DEFAULT_BITRATE,
                sound.data@ == self@.mixed(unit as nat),
                self@.fit(unit as nat),
                events@.len() == unit,
                forall|i: int| 0 <= i < unit ==> (#[trigger] events@[i])@ == self@.stream()[i],
            decreases n - unit,
        {
            sound = match self.advance(sound, unit) {
                Some(out) => out,
                None => {
                    return Err(SynthesisError::TooLong { id: self.id.clone() });
                },
            };
            events.push(self.update(unit + 1));
            unit = unit + 1;
        }
        events.push(self.finish(sound));
        assert(views(events@) =~= self@.stream());
        Ok(events)
    }
}

/// Whether `name` is an effect that can be rendered and shown: the bank has
/// a clip for it, and it has a display name.
pub open spec fn known(name: Seq<char>, bank: Effect) -> bool {
    bank.find(name) is Some && display_name(name) is Some
}

/// The first instant track from `from` on whose effect is not [`known`].
pub open spec fn unknown_instant(single: Seq<InstantTrack>, bank: Effect, from: nat) -> Option<Seq<char>>
    decreases single.len() - from,
{
    if from >= single.len() {
        None
    } else if !known(single[from as int].name@, bank) {
        Some(single[from as int].name@)
    } else {
        unknown_instant(single, bank, from + 1)
    }
}

/// The first hold track from `from` on whose effect is not [`known`].
pub open spec fn unknown_hold(connect: Seq<HoldTrack>, bank: Effect, from: nat) -> Option<Seq<char>>
    decreases connect.len() - from,
{
    if from >= connect.len() {
        None
    } else if !known(connect[from as int].name@, bank) {
        Some(connect[from as int].name@)
    } else {
        unknown_hold(connect, bank, from + 1)
    }
}

/// The first effect of `timing` that is not [`known`], instant tracks before
/// hold tracks.
pub open spec fn first_unknown(timing: Timing, bank: Effect) -> Option<Seq<char>> {
    if unknown_instant(timing.single@, bank, 0) is Some {
        unknown_instant(timing.single@, bank, 0)
    } else {
        unknown_hold(timing.connect@, bank, 0)
    }
}

/// The id of chunk `k` of the effect shown as `name`: the name, and in
/// brackets the number of the chunk, counted from one.
pub open spec fn chunk_id(name: Seq<char>, k: nat) -> Seq<char> {
    name + " ("@ + digits(k + 1) + ")"@
}

/// The samples of the clip that the bank has for `name`.
pub open spec fn clip_of(bank: Effect, name: Seq<char>) -> Seq<i16> {
    bank.audio@[bank.find(name)->Some_0].1.data@
}

/// The frame rate of the clip that the bank has for `name`.
pub open spec fn clip_bitrate_of(bank: Effect, name: Seq<char>) -> u32 {
    bank.audio@[bank.find(name)->Some_0].1.bitrate
}

/// The task of chunk `k` of an instant track.
pub open spec fn chunk_task(track: InstantTrack, bank: Effect, size: nat, k: nat) -> TaskModel {
    TaskModel {
        id: chunk_id(display_name(track.name@)->Some_0@, k),
        color: clip_color(track.name@)->Some_0,
        clip: clip_of(bank, track.name@),
        clip_bitrate: clip_bitrate_of(bank, track.name@),
        work: WorkModel::Instants(
            chunk_of(track.times@, chunk_count(track.times@.len(), size), k),
        ),
    }
}

/// The tasks of an instant track: one for each of its chunks.
pub open spec fn track_tasks(track: InstantTrack, bank: Effect, size: nat) -> Seq<TaskModel> {
    Seq::new(chunk_count(track.times@.len(), size), |k: int| chunk_task(track, bank, size, k as nat))
}

/// The task of a hold track: all its spans, under the display name of its
/// effect.
pub open spec fn hold_task(track: HoldTrack, bank: Effect) -> TaskModel {
    TaskModel {
        id: display_name(track.name@)->Some_0@,
        color: clip_color(track.name@)->Some_0,
        clip: clip_of(bank, track.name@),
        clip_bitrate: clip_bitrate_of(bank, track.name@),
        work: WorkModel::Holds(track.spans@),
    }
}

/// The tasks of the first `count` instant tracks, track by track.
pub open spec fn instant_tasks(single: Seq<InstantTrack>, bank: Effect, size: nat, count: nat) -> Seq<
    TaskModel,
>
    decreases count,
{
    if count == 0 {
        Seq::empty()
    } else {
        instant_tasks(single, bank, size, (count - 1) as nat) + track_tasks(
            single[count - 1],
            bank,
            size,
        )
    }
}

/// The tasks of the first `count` hold tracks.
pub open spec fn hold_tasks(connect: Seq<HoldTrack>, bank: Effect, count: nat) -> Seq<TaskModel>
    decreases count,
{
    if count == 0 {
        Seq::empty()
    } else {
        hold_tasks(connect, bank, (count - 1) as nat).push(hold_task(connect[count - 1], bank))
    }
}

/// The tasks of a run: those of the instant tracks, then those of the hold
/// tracks.
pub open spec fn planned(timing: Timing, bank: Effect, size: nat) -> Seq<TaskModel> {
    instant_tasks(timing.single@, bank, size, timing.single@.len()) + hold_tasks(
        timing.connect@,
        bank,
        timing.connect@.len(),
    )
}

/// The views of `tasks`, in their order.
pub open spec fn models(tasks: Seq<Task>) -> Seq<TaskModel> {
    Seq::new(tasks.len(), |i: int| tasks[i]@)
}

fn copy_of(times: &Vec<i64>) -> (copy: Vec<i64>)
    ensures
        copy@ == times@,
{
    let mut copy: Vec<i64> = Vec::new();
    let mut i: usize = 0;
    while i < times.len()
        invariant
            i <= times@.len(),
            copy@ == times@.subrange(0, i as int),
        decreases times@.len() - i,
    {
        copy.push(times[i]);
        assert(copy@ =~= times@.subrange(0, i as int + 1));
        i = i + 1;
    }
    assert(copy@ =~= times@);
    copy
}

fn copy_of_spans(spans: &Vec<(i64, i64)>) -> (copy: Vec<(i64, i64)>)
    ensures
        copy@ == spans@,
{
    let mut copy: Vec<(i64, i64)> = Vec::new();
    let mut i: usize = 0;
    while i < spans.len()
        invariant
            i <= spans@.len(),
            copy@ == spans@.subrange(0, i as int),
        decreases spans@.len() - i,
    {
        copy.push(spans[i]);
        assert(copy@ =~= spans@.subrange(0, i as int + 1));
        i = i + 1;
    }
    assert(copy@ =~= spans@);
    copy
}

/// Cuts the work of a run into tasks.
///
/// Every instant track gives a task for each chunk of at most
/// `notes_per_thread` instants, every hold track gives one task. Fails, before
/// any task is made, at the first track whose effect is not [`known`].
pub fn plan(timing: &Timing, effect: &Effect, notes_per_thread: usize) -> (made: Result<
    Vec<Task>,
    SynthesisError,
>)
    requires
        notes_per_thread > 0,
    ensures
        match made {
            Ok(tasks) => {
                &&& first_unknown(*timing, *effect) is None
                &&& models(tasks@) == planned(*timing, *effect, notes_per_thread as nat)
            },
            Err(SynthesisError::UnknownEffect { name }) => first_unknown(*timing, *effect) == Some(
                name@,
            ),
            Err(SynthesisError::TooLong { .. }) => false,
        },
{
    let ghost size = notes_per_thread as nat;
    let mut tasks: Vec<Task> = Vec::new();
    let mut t: usize = 0;
    while t < timing.single.len()
        invariant
            t <= timing.single@.len(),
            notes_per_thread > 0,
            size == notes_per_thread,
            unknown_instant(timing.single@, *effect, 0) == unknown_instant(
                timing.single@,
                *effect,
                t as nat,
            ),
            models(tasks@) == instant_tasks(timing.single@, *effect, size, t as nat),
        decreases timing.single@.len() - t,
    {
        let track = &timing.single[t];
        let clip = effect.get(track.name.as_str());
        let shown_as = name_for(track.name.as_str());
        let color = color_for(track.name.as_str());
        let (clip, shown_as, color) = match (clip, shown_as, color) {
            (Some(clip), Some(shown_as), Some(color)) => (clip, shown_as, color),
            _ => {
                return Err(SynthesisError::UnknownEffect { name: track.name.clone() });
            },
        };
        let chunks = partition(&track.times, notes_per_thread);
        let ghost before = models(tasks@);
        let ghost wanted = track_tasks(*track, *effect, size);
        let mut k: usize = 0;
        while k < chunks.len()
            invariant
                k <= chunks@.len(),
                chunks@.len() == chunk_count(track.times@.len(), size),
                wanted == track_tasks(*track, *effect, size),
                forall|j: int|
                    0 <= j < chunks@.len() ==> (#[trigger] chunks@[j])@ == chunk_of(
                        track.times@,
                        chunks@.len(),
                        j as nat,
                    ),
                known(track.name@, *effect),
                clip.data@ == clip_of(*effect, track.name@),
                clip.bitrate == clip_bitrate_of(*effect, track.name@),
                Some(shown_as) == display_name(track.name@),
                Some(color) == clip_color(track.name@),
                models(tasks@) == before + wanted.subrange(0, k as int),
            decreases chunks@.len() - k,
        {
            let id = String::from_str(shown_as).concat(" (").concat(decimal(k + 1).as_str()).concat(
                ")",
            );
            let ghost earlier = tasks@;
            tasks.push(Task { id, color, clip: clip.clone(), work: Work::Instants(copy_of(&chunks[k])) });
            proof {
                assert(tasks@[earlier.len() as int]@ == wanted[k as int]);
                assert(models(tasks@) =~= models(earlier).push(wanted[k as int]));
                assert(wanted.subrange(0, k as int + 1) =~= wanted.subrange(0, k as int).push(
                    wanted[k as int],
                ));
                assert(before + wanted.subrange(0, k as int + 1) =~= (before + wanted.subrange(
                    0,
                    k as int,
                )).push(wanted[k as int]));
            }
            k = k + 1;
        }
        proof {
            assert(wanted.subrange(0, k as int) =~= wanted);
        }
        t = t + 1;
    }
    let ghost first = models(tasks@);
    let mut h: usize = 0;
    while h < timing.connect.len()
        invariant
            h <= timing.connect@.len(),
            unknown_instant(timing.single@, *effect, 0) is None,
            unknown_hold(timing.connect@, *effect, 0) == unknown_hold(
                timing.connect@,
                *effect,
                h as nat,
            ),
            first == instant_tasks(timing.single@, *effect, size, timing.single@.len()),
            models(tasks@) == first + hold_tasks(timing.connect@, *effect, h as nat),
        decreases timing.connect@.len() - h,
    {
        let track = &timing.connect[h];
        let clip = effect.get(track.name.as_str());
        let shown_as = name_for(track.name.as_str());
        let color = color_for(track.name.as_str());
        let (clip, shown_as, color) = match (clip, shown_as, color) {
            (Some(clip), Some(shown_as), Some(color)) => (clip, shown_as, color),
            _ => {
                return Err(SynthesisError::UnknownEffect { name: track.name.clone() });
            },
        };
        let ghost earlier = tasks@;
        tasks.push(
            Task {
                id: String::from_str(shown_as),
                color,
                clip: clip.clone(),
                work: Work::Holds(copy_of_spans(&track.spans)),
            },
        );
        proof {
            let task = hold_task(*track, *effect);
            assert(tasks@[earlier.len() as int]@ == task);
            assert(models(tasks@) =~= models(earlier).push(task));
            assert(first + hold_tasks(timing.connect@, *effect, (h + 1) as nat) =~= (first + hold_tasks(
                timing.connect@,
                *effect,
                h as nat,
            )).push(task));
        }
        h = h + 1;
    }
    Ok(tasks)
}

/// The roster of a run.
pub open spec fn roster_of(tasks: Seq<TaskModel>) -> Event {
    Event::Info {
        ids: Seq::new(tasks.len(), |k: int| tasks[k].id),
        infos: Seq::new(tasks.len(), |k: int| tasks[k].info()),
    }
}

/// What the first `count` tasks tell, task after task.
pub open spec fn streams(tasks: Seq<TaskModel>, count: nat) -> Seq<Event>
    decreases count,
{
    if count == 0 {
        Seq::empty()
    } else {
        streams(tasks, (count - 1) as nat) + tasks[count - 1].stream()
    }
}

/// The events of a run in which the tasks run one after the other: the
/// roster, then what each task tells.
pub open spec fn run_events(tasks: Seq<TaskModel>) -> Seq<Event> {
    seq![roster_of(tasks)] + streams(tasks, tasks.len())
}

/// The id of the first task from `from` on that cannot be rendered in full.
pub open spec fn first_too_long(tasks: Seq<TaskModel>, from: nat) -> Option<Seq<char>>
    decreases tasks.len() - from,
{
    if from >= tasks.len() {
        None
    } else if !tasks[from as int].fit(tasks[from as int].units()) {
        Some(tasks[from as int].id)
    } else {
        first_too_long(tasks, from + 1)
    }
}

/// The id that an event is about, if it is about one task.
pub open spec fn subject(event: Event) -> Option<Seq<char>> {
    match event {
        Event::Info { .. } => None,
        Event::Update { id, .. } => Some(id),
        Event::Finish { id, .. } => Some(id),
    }
}

/// Whether the events come in the order that a listener may rely on: the
/// roster first and only once, and nothing about a task after that task has
/// finished. So every update of a task comes before its finish, and no task
/// finishes twice.
pub open spec fn ordered(events: Seq<Event>) -> bool {
    &&& events.len() > 0
    &&& events[0] is Info
    &&& forall|i: int| 0 < i < events.len() ==> !(#[trigger] events[i] is Info)
    &&& forall|i: int, j: int|
        0 <= i < j < events.len() && #[trigger] events[i] is Finish ==> subject(events[i])
            != subject(#[trigger] events[j])
}

/// Whether no two tasks have the same id.
pub open spec fn ids_distinct(tasks: Seq<TaskModel>) -> bool {
    forall|a: int, b: int| 0 <= a < b < tasks.len() ==> tasks[a].id != tasks[b].id
}

/// What the first `count` tasks tell is about those tasks only, and nothing
/// is told about a task after it has finished.
pub proof fn lemma_streams_ordered(tasks: Seq<TaskModel>, count: nat)
    requires
        ids_distinct(tasks),
        count <= tasks.len(),
    ensures
        forall|i: int|
            0 <= i < streams(tasks, count).len() ==> exists|t: int|
                0 <= t < count && subject(#[trigger] streams(tasks, count)[i]) == Some(tasks[t].id),
        forall|i: int, j: int|
            0 <= i < j < streams(tasks, count).len() && #[trigger] streams(tasks, count)[i] is Finish
                ==> subject(streams(tasks, count)[i]) != subject(#[trigger] streams(tasks, count)[j]),
    decreases count,
{
    if count > 0 {
        let earlier = streams(tasks, (count - 1) as nat);
        let last = tasks[count - 1].stream();
        let all = streams(tasks, count);
        lemma_streams_ordered(tasks, (count - 1) as nat);
        assert(all == earlier + last);
        assert forall|i: int| 0 <= i < all.len() implies exists|t: int|
            0 <= t < count && subject(#[trigger] all[i]) == Some(tasks[t].id) by {
            if i < earlier.len() {
                assert(all[i] == earlier[i]);
                let t = choose|t: int|
                    0 <= t < count - 1 && subject(earlier[i]) == Some(tasks[t].id);
                assert(subject(all[i]) == Some(tasks[t].id));
            } else {
                assert(all[i] == last[i - earlier.len()]);
                assert(subject(all[i]) == Some(tasks[count - 1].id));
            }
        }
        assert forall|i: int, j: int|
            0 <= i < j < all.len() && #[trigger] all[i] is Finish implies subject(all[i]) != subject(
            #[trigger] all[j],
        ) by {
            if j < earlier.len() {
                assert(all[i] == earlier[i] && all[j] == earlier[j]);
            } else if i < earlier.len() {
                assert(all[i] == earlier[i]);
                assert(all[j] == last[j - earlier.len()]);
                let t = choose|t: int|
                    0 <= t < count - 1 && subject(earlier[i]) == Some(tasks[t].id);
                assert(tasks[t].id != tasks[count - 1].id);
            } else {
                assert(all[i] == last[i - earlier.len()]);
            }
        }
    }
}

/// In a run whose tasks all have ids of their own, the roster comes first,
/// and every update of a task comes before that task finishes.
pub proof fn lemma_run_ordered(tasks: Seq<TaskModel>)
    requires
        ids_distinct(tasks),
    ensures
        ordered(run_events(tasks)),
{
    let told = streams(tasks, tasks.len());
    let events = run_events(tasks);
    lemma_streams_ordered(tasks, tasks.len());
    assert(events[0] == roster_of(tasks));
    assert forall|i: int| 0 < i < events.len() implies !(#[trigger] events[i] is Info) by {
        assert(events[i] == told[i - 1]);
        let t = choose|t: int| 0 <= t < tasks.len() && subject(told[i - 1]) == Some(tasks[t].id);
    }
    assert forall|i: int, j: int|
        0 <= i < j < events.len() && #[trigger] events[i] is Finish implies subject(events[i])
        != subject(#[trigger] events[j]) by {
        assert(events[i] == told[i - 1]);
        assert(events[j] == told[j - 1]);
    }
}

/// A chunk id holds a space right behind the name it begins with.
pub proof fn lemma_chunk_id_shape(name: Seq<char>, k: nat)
    ensures
        chunk_id(name, k).len() == name.len() + digits(k + 1).len() + 3,
        chunk_id(name, k).subrange(0, name.len() as int) == name,
        chunk_id(name, k)[name.len() as int] == ' ',
        chunk_id(name, k).subrange(name.len() as int + 2, chunk_id(name, k).len() - 1) == digits(k + 1),
{
    reveal_strlit(" (");
    reveal_strlit(")");
    let id = chunk_id(name, k);
    assert(id.subrange(0, name.len() as int) =~= name);
    assert(id.subrange(name.len() as int + 2, id.len() - 1) =~= digits(k + 1));
}

/// Chunk ids tell their effect and their chunk: two of them are the same
/// only where the names are, and the chunks.
pub proof fn lemma_chunk_id_injective(first: Seq<char>, j: nat, second: Seq<char>, k: nat)
    requires
        spaceless(first),
        spaceless(second),
        chunk_id(first, j) == chunk_id(second, k),
    ensures
        first == second,
        j == k,
{
    lemma_chunk_id_shape(first, j);
    lemma_chunk_id_shape(second, k);
    let id = chunk_id(first, j);
    if first.len() < second.len() {
        assert(id.subrange(0, second.len() as int)[first.len() as int] == ' ');
    } else if second.len() < first.len() {
        assert(id.subrange(0, first.len() as int)[second.len() as int] == ' ');
    }
    assert(digits(j + 1) == digits(k + 1));
    crate::text::lemma_digits_injective(j + 1, k + 1);
}

/// No chunk id is a name without a space.
pub proof fn lemma_chunk_id_not_name(first: Seq<char>, j: nat, second: Seq<char>)
    requires
        spaceless(second),
    ensures
        chunk_id(first, j) != second,
{
    lemma_chunk_id_shape(first, j);
}

/// Where no track is unknown, every track is known.
pub proof fn lemma_all_known(timing: Timing, bank: Effect, instants_from: nat, holds_from: nat)
    requires
        instants_from <= timing.single@.len(),
        holds_from <= timing.connect@.len(),
    ensures
        unknown_instant(timing.single@, bank, instants_from) is None ==> forall|t: int|
            instants_from <= t < timing.single@.len() ==> known(
                (#[trigger] timing.single@[t]).name@,
                bank,
            ),
        unknown_hold(timing.connect@, bank, holds_from) is None ==> forall|t: int|
            holds_from <= t < timing.connect@.len() ==> known(
                (#[trigger] timing.connect@[t]).name@,
                bank,
            ),
    decreases (timing.single@.len() - instants_from) + (timing.connect@.len() - holds_from),
{
    if instants_from < timing.single@.len() {
        lemma_all_known(timing, bank, instants_from + 1, holds_from);
    } else if holds_from < timing.connect@.len() {
        lemma_all_known(timing, bank, instants_from, holds_from + 1);
    }
}

/// Whether `id` is the id of chunk `k` of instant track `t`.
pub open spec fn names_chunk(id: Seq<char>, single: Seq<InstantTrack>, t: int, k: nat) -> bool {
    id == chunk_id(display_name(single[t].name@)->Some_0@, k)
}

/// Whether `id` is the id of a chunk of one of the first `count` instant
/// tracks.
pub open spec fn names_some_chunk(id: Seq<char>, single: Seq<InstantTrack>, count: nat) -> bool {
    exists|t: int, k: nat| 0 <= t < count && #[trigger] names_chunk(id, single, t, k)
}

/// The tasks of the instant tracks are chunk tasks of known tracks, and no
/// two of them have the same id.
pub proof fn lemma_instant_ids(timing: Timing, bank: Effect, size: nat, count: nat)
    requires
        timing.wf(),
        count <= timing.single@.len(),
        forall|t: int| 0 <= t < timing.single@.len() ==> known((#[trigger] timing.single@[t]).name@, bank),
    ensures
        forall|a: int|
            0 <= a < instant_tasks(timing.single@, bank, size, count).len() ==> names_some_chunk(
                (#[trigger] instant_tasks(timing.single@, bank, size, count)[a]).id,
                timing.single@,
                count,
            ),
        ids_distinct(instant_tasks(timing.single@, bank, size, count)),
    decreases count,
{
    if count > 0 {
        let single = timing.single@;
        let earlier = instant_tasks(single, bank, size, (count - 1) as nat);
        let track = single[count - 1];
        let last = track_tasks(track, bank, size);
        let all = instant_tasks(single, bank, size, count);
        let shown_as = display_name(track.name@)->Some_0@;
        lemma_instant_ids(timing, bank, size, (count - 1) as nat);
        assert(all == earlier + last);
        assert(known(single[count - 1].name@, bank));
        lemma_display_names(track.name@, track.name@);
        assert forall|a: int| 0 <= a < all.len() implies names_some_chunk(
            (#[trigger] all[a]).id,
            single,
            count,
        ) by {
            if a < earlier.len() {
                assert(all[a] == earlier[a]);
                assert(names_some_chunk(earlier[a].id, single, (count - 1) as nat));
                let (t, k) = choose|t: int, k: nat|
                    0 <= t < count - 1 && #[trigger] names_chunk(earlier[a].id, single, t, k);
                assert(names_chunk(all[a].id, single, t, k));
            } else {
                let k = (a - earlier.len()) as nat;
                assert(all[a] == last[a - earlier.len()]);
                assert(names_chunk(all[a].id, single, count - 1, k));
            }
        }
        assert forall|a: int, b: int| 0 <= a < b < all.len() implies all[a].id != all[b].id by {
            if b < earlier.len() {
                assert(all[a] == earlier[a] && all[b] == earlier[b]);
            } else if a < earlier.len() {
                assert(all[a] == earlier[a]);
                assert(all[b] == last[b - earlier.len()]);
                assert(names_some_chunk(earlier[a].id, single, (count - 1) as nat));
                let (t, k) = choose|t: int, k: nat|
                    0 <= t < count - 1 && #[trigger] names_chunk(earlier[a].id, single, t, k);
                assert(known(single[t].name@, bank));
                assert(timing.instant_names()[t] != timing.instant_names()[count - 1]);
                lemma_display_names(single[t].name@, track.name@);
                lemma_display_names(track.name@, single[t].name@);
                if all[a].id == all[b].id {
                    lemma_chunk_id_injective(
                        display_name(single[t].name@)->Some_0@,
                        k,
                        shown_as,
                        (b - earlier.len()) as nat,
                    );
                }
            } else {
                assert(all[a] == last[a - earlier.len()]);
                assert(all[b] == last[b - earlier.len()]);
                if all[a].id == all[b].id {
                    lemma_chunk_id_injective(
                        shown_as,
                        (a - earlier.len()) as nat,
                        shown_as,
                        (b - earlier.len()) as nat,
                    );
                }
            }
        }
    }
}

/// The tasks of the hold tracks go by the display names of known tracks,
/// and no two of them have the same id.
pub proof fn lemma_hold_ids(timing: Timing, bank: Effect, count: nat)
    requires
        timing.wf(),
        count <= timing.connect@.len(),
        forall|t: int|
            0 <= t < timing.connect@.len() ==> known((#[trigger] timing.connect@[t]).name@, bank),
    ensures
        hold_tasks(timing.connect@, bank, count).len() == count,
        forall|a: int|
            0 <= a < count ==> (#[trigger] hold_tasks(timing.connect@, bank, count)[a]).id
                == display_name(timing.connect@[a].name@)->Some_0@,
        ids_distinct(hold_tasks(timing.connect@, bank, count)),
    decreases count,
{
    if count > 0 {
        let connect = timing.connect@;
        let all = hold_tasks(connect, bank, count);
        lemma_hold_ids(timing, bank, (count - 1) as nat);
        assert forall|a: int, b: int| 0 <= a < b < all.len() implies all[a].id != all[b].id by {
            assert(known(connect[a].name@, bank) && known(connect[b].name@, bank));
            assert(timing.hold_names()[a] != timing.hold_names()[b]);
            lemma_display_names(connect[a].name@, connect[b].name@);
        }
    }
}

/// The tasks of a run over a well-formed timing all have ids of their own.
pub proof fn lemma_planned_ids(timing: Timing, bank: Effect, size: nat)
    requires
        timing.wf(),
        first_unknown(timing, bank) is None,
    ensures
        ids_distinct(planned(timing, bank, size)),
{
    lemma_all_known(timing, bank, 0, 0);
    lemma_instant_ids(timing, bank, size, timing.single@.len());
    lemma_hold_ids(timing, bank, timing.connect@.len());
    let first = instant_tasks(timing.single@, bank, size, timing.single@.len());
    let second = hold_tasks(timing.connect@, bank, timing.connect@.len());
    let all = planned(timing, bank, size);
    assert forall|a: int, b: int| 0 <= a < b < all.len() implies all[a].id != all[b].id by {
        if b < first.len() {
            assert(all[a] == first[a] && all[b] == first[b]);
        } else if a < first.len() {
            assert(all[a] == first[a]);
            assert(all[b] == second[b - first.len()]);
            assert(names_some_chunk(first[a].id, timing.single@, timing.single@.len()));
            let (t, k) = choose|t: int, k: nat|
                0 <= t < timing.single@.len() && #[trigger] names_chunk(
                    first[a].id,
                    timing.single@,
                    t,
                    k,
                );
            let h = b - first.len();
            assert(known(timing.connect@[h].name@, bank));
            lemma_display_names(timing.connect@[h].name@, timing.connect@[h].name@);
            lemma_chunk_id_not_name(
                display_name(timing.single@[t].name@)->Some_0@,
                k,
                display_name(timing.connect@[h].name@)->Some_0@,
            );
        } else {
            assert(all[a] == second[a - first.len()]);
            assert(all[b] == second[b - first.len()]);
        }
    }
}

/// The roster of `tasks`: their ids and what is told of each, in their
/// order.
pub fn roster(tasks: &Vec<Task>) -> (threads: Vec<(String, ThreadInfo)>)
    ensures
        threads@.len() == tasks@.len(),
        forall|k: int|
            0 <= k < threads@.len() ==> {
                &&& (#[trigger] threads@[k]).0@ == tasks@[k].id@
                &&& threads@[k].1 == tasks@[k]@.info()
            },
{
    let mut threads: Vec<(String, ThreadInfo)> = Vec::new();
    let mut k: usize = 0;
    while k < tasks.len()
        invariant
            k <= tasks@.len(),
            threads@.len() == k,
            forall|j: int|
                0 <= j < k ==> {
                    &&& (#[trigger] threads@[j]).0@ == tasks@[j].id@
                    &&& threads@[j].1 == tasks@[j]@.info()
                },
        decreases tasks@.len() - k,
    {
        threads.push((tasks[k].id.clone(), tasks[k].info()));
        k = k + 1;
    }
    threads
}

/// Runs `tasks` one after the other and hands out the events of the run.
///
/// Fails at the first task that cannot be rendered in full; nothing is
/// handed out then.
pub fn run(tasks: &Vec<Task>) -> (told: Result<Vec<Progress>, SynthesisError>)
    ensures
        match told {
            Ok(events) => {
                &&& first_too_long(models(tasks@), 0) is None
                &&& views(events@) == run_events(models(tasks@))
            },
            Err(SynthesisError::TooLong { id }) => first_too_long(models(tasks@), 0) == Some(id@),
            Err(SynthesisError::UnknownEffect { .. }) => false,
        },
{
    let ghost all = models(tasks@);
    let mut events: Vec<Progress> = Vec::new();
    events.push(Progress::Info { threads: roster(tasks) });
    proof {
        assert(events@[0]@->ids =~= roster_of(all)->ids);
        assert(events@[0]@->infos =~= roster_of(all)->infos);
        assert(views(events@) =~= seq![roster_of(all)]);
    }
    let mut t: usize = 0;
    while t < tasks.len()
        invariant
            t <= tasks@.len(),
            all == models(tasks@),
            first_too_long(all, 0) == first_too_long(all, t as nat),
            views(events@) == seq![roster_of(all)] + streams(all, t as nat),
        decreases tasks@.len() - t,
    {
        let ghost before = events@;
        let mut part = match tasks[t].render() {
            Ok(part) => part,
            Err(error) => {
                assert(all[t as int] == tasks@[t as int]@);
                return Err(error);
            },
        };
        let ghost added = part@;
        events.append(&mut part);
        proof {
            assert(all[t as int] == tasks@[t as int]@);
            assert(views(events@) =~= views(before) + views(added));
            assert(seq![roster_of(all)] + streams(all, (t + 1) as nat) =~= (seq![roster_of(all)]
                + streams(all, t as nat)) + all[t as int].stream());
        }
        t = t + 1;
    }
    Ok(events)
}

/// Renders the effects of a chart: plans the tasks, runs them one after the
/// other, and hands out the events of the run.
///
/// The first event is the roster; then every task tells of each unit it
/// has done and ends with the buffer it rendered. Merged, the events give
/// the buffers of all tasks mixed. The run fails as a whole, and hands out
/// nothing, where the timing names an effect that is not [`known`], or where
/// a task would render past the longest buffer there can be.
pub fn synthesis(timing: &Timing, effect: &Effect, notes_per_thread: usize) -> (told: Result<
    Vec<Progress>,
    SynthesisError,
>)
    requires
        notes_per_thread > 0,
    ensures
        match told {
            Ok(events) => {
                &&& first_unknown(*timing, *effect) is None
                &&& first_too_long(planned(*timing, *effect, notes_per_thread as nat), 0) is None
                &&& views(events@) == run_events(planned(*timing, *effect, notes_per_thread as nat))
                &&& timing.wf() ==> ordered(views(events@))
                &&& merged(views(events@)) == Ok::<Seq<i16>, MergeError>(
                    all_mixed(
                        planned(*timing, *effect, notes_per_thread as nat),
                        planned(*timing, *effect, notes_per_thread as nat).len(),
                    ),
                )
            },
            Err(SynthesisError::UnknownEffect { name }) => first_unknown(*timing, *effect) == Some(
                name@,
            ),
            Err(SynthesisError::TooLong { id }) => {
                &&& first_unknown(*timing, *effect) is None
                &&& first_too_long(planned(*timing, *effect, notes_per_thread as nat), 0) == Some(
                    id@,
                )
            },
        },
{
    let tasks = match plan(timing, effect, notes_per_thread) {
        Ok(tasks) => tasks,
        Err(error) => {
            return Err(error);
        },
    };
    proof {
        if timing.wf() {
            lemma_planned_ids(*timing, *effect, notes_per_thread as nat);
            lemma_run_ordered(planned(*timing, *effect, notes_per_thread as nat));
        }
        lemma_run_merges(planned(*timing, *effect, notes_per_thread as nat));
    }
    run(&tasks)
}

} // verus!
