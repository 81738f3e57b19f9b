//! Event extraction: from the entities of a chart to the times at which its
//! effects sound.
//!
//! Extraction runs in stages, and the first stage that finds a fault ends it:
//! the tempo changes are read and put in order; every note is resolved to a
//! time; every connector is resolved to the times of its head and its tail;
//! the holds of each effect are merged. Within a stage the entities are taken
//! in the order of the chart, so the fault that is named is the first one.

use crate::vocabulary::{
    instant_effect, instant_effect_list, instant_effects, lemma_instant_effect_listed,
    lemma_instant_effects_distinct, lemma_loop_effect_listed, lemma_loop_effects_distinct,
    loop_effect, loop_effect_list, loop_effects, loop_sound_for, sound_for,
};
use crate::holds::{agrees, balanced, merge_intervals, separated};
use crate::level::Level;
use crate::order::{sorted_unique, strictly_ascending};
use crate::sonolus::LevelEntity;
use crate::tempo::{
    has_initial_tempo, in_beat_order, representable, resolved, tempi_positive, BpmChange,
    TempoError, TempoMap,
};
use crate::text::same_text;
use vstd::prelude::*;
use vstd::string::StringExecFns;

verus! {

/// The times at which one effect is triggered.
#[derive(Debug)]
pub struct InstantTrack {
    /// The effect.
    pub name: String,
    /// Its times in microseconds, ascending, none twice.
    pub times: Vec<i64>,
}

/// The spans in which one effect is sustained.
#[derive(Debug)]
pub struct HoldTrack {
    /// The effect.
    pub name: String,
    /// Its spans in microseconds, each from its start up to its end,
    /// ascending and apart from each other.
    pub spans: Vec<(i64, i64)>,
}

/// When the effects of a chart sound.
#[derive(Debug)]
pub struct Timing {
    /// The effects that notes trigger, each once.
    pub single: Vec<InstantTrack>,
    /// The effects that connectors sustain, each once.
    pub connect: Vec<HoldTrack>,
}

/// Whether no two of the names are the same.
pub open spec fn all_distinct(names: Seq<Seq<char>>) -> bool {
    forall|i: int, j: int| 0 <= i < j < names.len() ==> names[i] != names[j]
}

/// Index of the first track from `from` on that is the track of `effect`.
pub open spec fn instant_track(single: Seq<InstantTrack>, effect: Seq<char>, from: nat) -> Option<int>
    decreases single.len() - from,
{
    if from >= single.len() {
        None
    } else if single[from as int].name@ == effect {
        Some(from as int)
    } else {
        instant_track(single, effect, from + 1)
    }
}

/// Index of the first track from `from` on that is the track of `effect`.
pub open spec fn hold_track(connect: Seq<HoldTrack>, effect: Seq<char>, from: nat) -> Option<int>
    decreases connect.len() - from,
{
    if from >= connect.len() {
        None
    } else if connect[from as int].name@ == effect {
        Some(from as int)
    } else {
        hold_track(connect, effect, from + 1)
    }
}

impl Timing {
    /// The times at which `effect` is triggered, if notes trigger it at
    /// all.
    pub fn instants(&self, effect: &str) -> (times: Option<&Vec<i64>>)
        ensures
            match times {
                Some(times) => instant_track(self.single@, effect@, 0) matches Some(k) && 0 <= k
                    < self.single@.len() && *times == self.single@[k].times,
                None => instant_track(self.single@, effect@, 0) is None,
            },
    {
        let mut k: usize = 0;
        while k < self.single.len()
            invariant
                k <= self.single@.len(),
                instant_track(self.single@, effect@, 0) == instant_track(
                    self.single@,
                    effect@,
                    k as nat,
                ),
            decreases self.single@.len() - k,
        {
            if same_text(self.single[k].name.as_str(), effect) {
                return Some(&self.single[k].times);
            }
            k = k + 1;
        }
        None
    }

    /// The spans in which `effect` is sustained, if connectors sustain it
    /// at all.
    pub fn holds(&self, effect: &str) -> (spans: Option<&Vec<(i64, i64)>>)
        ensures
            match spans {
                Some(spans) => hold_track(self.connect@, effect@, 0) matches Some(k) && 0 <= k
                    < self.connect@.len() && *spans == self.connect@[k].spans,
                None => hold_track(self.connect@, effect@, 0) is None,
            },
    {
        let mut k: usize = 0;
        while k < self.connect.len()
            invariant
                k <= self.connect@.len(),
                hold_track(self.connect@, effect@, 0) == hold_track(self.connect@, effect@, k as nat),
            decreases self.connect@.len() - k,
        {
            if same_text(self.connect[k].name.as_str(), effect) {
                return Some(&self.connect[k].spans);
            }
            k = k + 1;
        }
        None
    }

    /// The effects of the instant tracks, in the order of the tracks.
    pub open spec fn instant_names(&self) -> Seq<Seq<char>> {
        Seq::new(self.single@.len(), |k: int| self.single@[k].name@)
    }

    /// The effects of the hold tracks, in the order of the tracks.
    pub open spec fn hold_names(&self) -> Seq<Seq<char>> {
        Seq::new(self.connect@.len(), |k: int| self.connect@[k].name@)
    }

    /// Whether the tracks map effects to times: no effect has two instant
    /// tracks, and none has two hold tracks.
    pub open spec fn wf(&self) -> bool {
        &&& all_distinct(self.instant_names())
        &&& all_distinct(self.hold_names())
    }
}

/// What is wrong with a chart. `entity` is the position, among the chart's
/// entities, of the one at fault.
#[derive(Clone, Copy, Debug)]
pub enum TimingError {
    /// A tempo change does not say where it is.
    BpmChangeWithoutBeat { entity: usize },
    /// A tempo change does not say its tempo.
    BpmChangeWithoutBpm { entity: usize },
    /// The tempo change at this position, among the chart's tempo changes,
    /// has a tempo of zero or less.
    InvalidTempo { change: usize },
    /// The chart has no tempo at or before beat zero.
    NoInitialTempo,
    /// A note does not say where it is.
    NoteWithoutBeat { entity: usize },
    /// A connector does not refer to a head that the chart holds.
    ConnectorWithoutHead { entity: usize },
    /// A connector does not refer to a tail that the chart holds.
    ConnectorWithoutTail { entity: usize },
    /// The head of a connector does not say where it is.
    HeadWithoutBeat { entity: usize },
    /// The tail of a connector does not say where it is.
    TailWithoutBeat { entity: usize },
    /// A note, or an end of a connector, resolves to a time that is no
    /// machine value.
    TimeOutOfRange { entity: usize },
    /// The holds of this effect do not pair up: at some time more of them
    /// have ended than have started.
    UnbalancedHolds { effect: &'static str },
}

impl TimingError {
    /// The error in words.
    pub fn message(&self) -> (text: &'static str)
        ensures
            text == self.text(),
    {
        match self {
            TimingError::BpmChangeWithoutBeat { .. } => "譜面データが壊れています：#BPM_CHANGEに#BEATがありません",
            TimingError::BpmChangeWithoutBpm { .. } => "譜面データが壊れています：#BPM_CHANGEに#BPMがありません",
            TimingError::InvalidTempo { .. } => "譜面データが壊れています：BPMが正の値ではありません",
            TimingError::NoInitialTempo => "譜面データが壊れています：最初のBPMがありません",
            TimingError::NoteWithoutBeat { .. } => "譜面データが壊れています：#BEATがありません",
            TimingError::ConnectorWithoutHead { .. } => "譜面データが壊れています：SlideConnectorにheadがありません",
            TimingError::ConnectorWithoutTail { .. } => "譜面データが壊れています：SlideConnectorにtailがありません",
            TimingError::HeadWithoutBeat { .. } => "譜面データが壊れています：SlideConnectorのheadに#BEATがありません",
            TimingError::TailWithoutBeat { .. } => "譜面データが壊れています：SlideConnectorのtailに#BEATがありません",
            TimingError::TimeOutOfRange { .. } => "譜面データが壊れています：時刻が範囲外です",
            TimingError::UnbalancedHolds { .. } => "譜面データが壊れています：スライドの開始と終了の数が一致しません",
        }
    }

    /// Position, among the chart's entities, of the entity at fault, where
    /// the fault is that of one entity.
    pub fn entity(&self) -> (at: Option<usize>)
        ensures
            at == self.place(),
    {
        match self {
            TimingError::BpmChangeWithoutBeat { entity } => Some(*entity),
            TimingError::BpmChangeWithoutBpm { entity } => Some(*entity),
            TimingError::NoteWithoutBeat { entity } => Some(*entity),
            TimingError::ConnectorWithoutHead { entity } => Some(*entity),
            TimingError::ConnectorWithoutTail { entity } => Some(*entity),
            TimingError::HeadWithoutBeat { entity } => Some(*entity),
            TimingError::TailWithoutBeat { entity } => Some(*entity),
            TimingError::TimeOutOfRange { entity } => Some(*entity),
            TimingError::InvalidTempo { .. } => None,
            TimingError::NoInitialTempo => None,
            TimingError::UnbalancedHolds { .. } => None,
        }
    }

    /// The position that [`TimingError::entity`] hands out.
    pub open spec fn place(&self) -> Option<usize> {
        match self {
            TimingError::BpmChangeWithoutBeat { entity } => Some(*entity),
            TimingError::BpmChangeWithoutBpm { entity } => Some(*entity),
            TimingError::NoteWithoutBeat { entity } => Some(*entity),
            TimingError::ConnectorWithoutHead { entity } => Some(*entity),
            TimingError::ConnectorWithoutTail { entity } => Some(*entity),
            TimingError::HeadWithoutBeat { entity } => Some(*entity),
            TimingError::TailWithoutBeat { entity } => Some(*entity),
            TimingError::TimeOutOfRange { entity } => Some(*entity),
            TimingError::InvalidTempo { .. } => None,
            TimingError::NoInitialTempo => None,
            TimingError::UnbalancedHolds { .. } => None,
        }
    }

    /// The words of the error.
    pub open spec fn text(&self) -> &'static str {
        match self {
            TimingError::BpmChangeWithoutBeat { .. } => "譜面データが壊れています：#BPM_CHANGEに#BEATがありません",
            TimingError::BpmChangeWithoutBpm { .. } => "譜面データが壊れています：#BPM_CHANGEに#BPMがありません",
            TimingError::InvalidTempo { .. } => "譜面データが壊れています：BPMが正の値ではありません",
            TimingError::NoInitialTempo => "譜面データが壊れています：最初のBPMがありません",
            TimingError::NoteWithoutBeat { .. } => "譜面データが壊れています：#BEATがありません",
            TimingError::ConnectorWithoutHead { .. } => "譜面データが壊れています：SlideConnectorにheadがありません",
            TimingError::ConnectorWithoutTail { .. } => "譜面データが壊れています：SlideConnectorにtailがありません",
            TimingError::HeadWithoutBeat { .. } => "譜面データが壊れています：SlideConnectorのheadに#BEATがありません",
            TimingError::TailWithoutBeat { .. } => "譜面データが壊れています：SlideConnectorのtailに#BEATがありません",
            TimingError::TimeOutOfRange { .. } => "譜面データが壊れています：時刻が範囲外です",
            TimingError::UnbalancedHolds { .. } => "譜面データが壊れています：スライドの開始と終了の数が一致しません",
        }
    }
}

/// Whether an entity is a tempo change.
pub open spec fn is_tempo_change(entity: LevelEntity) -> bool {
    entity.archetype@ == "#BPM_CHANGE"@
}

/// The tempo change that the entity at `index` declares.
pub open spec fn tempo_change_of(entity: LevelEntity, index: usize) -> Result<BpmChange, TimingError> {
    match entity.value_of("#BEAT"@) {
        None => Err(TimingError::BpmChangeWithoutBeat { entity: index }),
        Some(beat) => match entity.value_of("#BPM"@) {
            None => Err(TimingError::BpmChangeWithoutBpm { entity: index }),
            Some(bpm) => Ok(BpmChange { beat, bpm }),
        },
    }
}

/// The fault of the first tempo change from `from` on that has one.
pub open spec fn tempo_fault(entities: Seq<LevelEntity>, from: nat) -> Option<TimingError>
    decreases entities.len() - from,
{
    if from >= entities.len() {
        None
    } else if is_tempo_change(entities[from as int]) && tempo_change_of(
        entities[from as int],
        from as usize,
    ) is Err {
        Some(tempo_change_of(entities[from as int], from as usize)->Err_0)
    } else {
        tempo_fault(entities, from + 1)
    }
}

/// The tempo changes among the first `count` entities, in the order of the
/// chart.
pub open spec fn tempo_changes(entities: Seq<LevelEntity>, count: nat) -> Seq<BpmChange>
    decreases count,
{
    if count == 0 {
        Seq::empty()
    } else {
        let before = tempo_changes(entities, (count - 1) as nat);
        let entity = entities[count - 1];
        if is_tempo_change(entity) && tempo_change_of(entity, (count - 1) as usize) is Ok {
            before.push(tempo_change_of(entity, (count - 1) as usize)->Ok_0)
        } else {
            before
        }
    }
}

/// Position of the first change from `from` on whose tempo is not positive.
pub open spec fn first_bad_tempo(changes: Seq<BpmChange>, from: nat) -> Option<int>
    decreases changes.len() - from,
{
    if from >= changes.len() {
        None
    } else if changes[from as int].bpm <= 0 {
        Some(from as int)
    } else {
        first_bad_tempo(changes, from + 1)
    }
}

/// Why the changes of a chart make no tempo map, if they do not.
pub open spec fn map_fault(changes: Seq<BpmChange>) -> Option<TimingError> {
    match first_bad_tempo(changes, 0) {
        Some(at) => Some(TimingError::InvalidTempo { change: at as usize }),
        None => if has_initial_tempo(changes) {
            None
        } else {
            Some(TimingError::NoInitialTempo)
        },
    }
}

/// The time of the note at `index`: its beat, resolved over `points` and
/// moved by `shift`.
pub open spec fn note_time(entity: LevelEntity, points: Seq<BpmChange>, shift: int, index: usize) -> Result<
    i64,
    TimingError,
> {
    match entity.value_of("#BEAT"@) {
        None => Err(TimingError::NoteWithoutBeat { entity: index }),
        Some(beat) => match representable(resolved(points, beat as int) + shift) {
            None => Err(TimingError::TimeOutOfRange { entity: index }),
            Some(time) => Ok(time),
        },
    }
}

/// The fault of the first note from `from` on that has one.
pub open spec fn note_fault(entities: Seq<LevelEntity>, points: Seq<BpmChange>, shift: int, from: nat) -> Option<
    TimingError,
>
    decreases entities.len() - from,
{
    if from >= entities.len() {
        None
    } else if instant_effect(entities[from as int].archetype@) is Some && note_time(
        entities[from as int],
        points,
        shift,
        from as usize,
    ) is Err {
        Some(note_time(entities[from as int], points, shift, from as usize)->Err_0)
    } else {
        note_fault(entities, points, shift, from + 1)
    }
}

/// Whether the effect that a table gave goes by the name `effect`.
pub open spec fn plays(found: Option<&'static str>, effect: Seq<char>) -> bool {
    found matches Some(name) && name@ == effect
}

/// The times of the notes of `effect` among the first `count` entities, in
/// the order of the chart.
pub open spec fn note_times(
    entities: Seq<LevelEntity>,
    points: Seq<BpmChange>,
    shift: int,
    effect: Seq<char>,
    count: nat,
) -> Seq<i64>
    decreases count,
{
    if count == 0 {
        Seq::empty()
    } else {
        let before = note_times(entities, points, shift, effect, (count - 1) as nat);
        let entity = entities[count - 1];
        if plays(instant_effect(entity.archetype@), effect) && note_time(
            entity,
            points,
            shift,
            (count - 1) as usize,
        ) is Ok {
            before.push(note_time(entity, points, shift, (count - 1) as usize)->Ok_0)
        } else {
            before
        }
    }
}

/// The span of the connector at `index`: the times of the entities that its
/// fields `head` and `tail` refer to.
pub open spec fn hold_span(
    entity: LevelEntity,
    entities: Seq<LevelEntity>,
    points: Seq<BpmChange>,
    shift: int,
    index: usize,
) -> Result<(i64, i64), TimingError> {
    match entity.target_of(entities, "head"@) {
        None => Err(TimingError::ConnectorWithoutHead { entity: index }),
        Some(head) => match entity.target_of(entities, "tail"@) {
            None => Err(TimingError::ConnectorWithoutTail { entity: index }),
            Some(tail) => match entities[head].value_of("#BEAT"@) {
                None => Err(TimingError::HeadWithoutBeat { entity: index }),
                Some(head_beat) => match representable(resolved(points, head_beat as int) + shift) {
                    None => Err(TimingError::TimeOutOfRange { entity: index }),
                    Some(start) => match entities[tail].value_of("#BEAT"@) {
                        None => Err(TimingError::TailWithoutBeat { entity: index }),
                        Some(tail_beat) => match representable(
                            resolved(points, tail_beat as int) + shift,
                        ) {
                            None => Err(TimingError::TimeOutOfRange { entity: index }),
                            Some(end) => Ok((start, end)),
                        },
                    },
                },
            },
        },
    }
}

/// The fault of the first connector from `from` on that has one.
pub open spec fn hold_fault(entities: Seq<LevelEntity>, points: Seq<BpmChange>, shift: int, from: nat) -> Option<
    TimingError,
>
    decreases entities.len() - from,
{
    if from >= entities.len() {
        None
    } else if loop_effect(entities[from as int].archetype@) is Some && hold_span(
        entities[from as int],
        entities,
        points,
        shift,
        from as usize,
    ) is Err {
        Some(hold_span(entities[from as int], entities, points, shift, from as usize)->Err_0)
    } else {
        hold_fault(entities, points, shift, from + 1)
    }
}

/// The spans of the connectors of `effect` among the first `count` entities,
/// in the order of the chart.
pub open spec fn hold_spans(
    entities: Seq<LevelEntity>,
    points: Seq<BpmChange>,
    shift: int,
    effect: Seq<char>,
    count: nat,
) -> Seq<(i64, i64)>
    decreases count,
{
    if count == 0 {
        Seq::empty()
    } else {
        let before = hold_spans(entities, points, shift, effect, (count - 1) as nat);
        let entity = entities[count - 1];
        if plays(loop_effect(entity.archetype@), effect) && hold_span(
            entity,
            entities,
            points,
            shift,
            (count - 1) as usize,
        ) is Ok {
            before.push(hold_span(entity, entities, points, shift, (count - 1) as usize)->Ok_0)
        } else {
            before
        }
    }
}

/// The starts of `spans`, in their order.
pub open spec fn starts_of(spans: Seq<(i64, i64)>) -> Seq<i64> {
    Seq::new(spans.len(), |i: int| spans[i].0)
}

/// The ends of `spans`, in their order.
pub open spec fn ends_of(spans: Seq<(i64, i64)>) -> Seq<i64> {
    Seq::new(spans.len(), |i: int| spans[i].1)
}

/// The first effect, from position `from` of [`loop_effects`] on, whose
/// holds do not pair up.
pub open spec fn balance_fault(entities: Seq<LevelEntity>, points: Seq<BpmChange>, shift: int, from: nat) -> Option<
    TimingError,
>
    decreases loop_effects().len() - from,
{
    if from >= loop_effects().len() {
        None
    } else {
        let effect = loop_effects()[from as int];
        let spans = hold_spans(entities, points, shift, effect@, entities.len());
        if !balanced(starts_of(spans), ends_of(spans)) {
            Some(TimingError::UnbalancedHolds { effect })
        } else {
            balance_fault(entities, points, shift, from + 1)
        }
    }
}

/// The first fault of a chart, by stage and within a stage by position; none
/// if the chart is sound.
pub open spec fn timing_fault(entities: Seq<LevelEntity>, bgm_offset: i64, shift: i64) -> Option<TimingError> {
    let changes = tempo_changes(entities, entities.len());
    let points = in_beat_order(changes);
    let moved = bgm_offset + shift;
    if tempo_fault(entities, 0) is Some {
        tempo_fault(entities, 0)
    } else if map_fault(changes) is Some {
        map_fault(changes)
    } else if note_fault(entities, points, moved, 0) is Some {
        note_fault(entities, points, moved, 0)
    } else if hold_fault(entities, points, moved, 0) is Some {
        hold_fault(entities, points, moved, 0)
    } else {
        balance_fault(entities, points, moved, 0)
    }
}

/// Whether `track` holds the notes of its effect: at least one, and the
/// times of all of them, ascending, each once.
pub open spec fn instant_track_matches(
    track: InstantTrack,
    entities: Seq<LevelEntity>,
    points: Seq<BpmChange>,
    shift: int,
) -> bool {
    let notes = note_times(entities, points, shift, track.name@, entities.len());
    &&& notes.len() > 0
    &&& strictly_ascending(track.times@)
    &&& forall|time: i64| track.times@.contains(time) <==> notes.contains(time)
}

/// Whether `tracks` hold the notes of a chart: a track for each effect that
/// has a note and for no other, each as [`instant_track_matches`] says.
pub open spec fn instants_match(
    tracks: Seq<InstantTrack>,
    entities: Seq<LevelEntity>,
    points: Seq<BpmChange>,
    shift: int,
) -> bool {
    &&& forall|k: int|
        0 <= k < tracks.len() ==> instant_track_matches(#[trigger] tracks[k], entities, points, shift)
    &&& forall|effect: Seq<char>|
        (#[trigger] note_times(entities, points, shift, effect, entities.len())).len() > 0
            ==> exists|k: int| 0 <= k < tracks.len() && (#[trigger] tracks[k]).name@ == effect
}

/// Whether `track` holds the holds of its effect: at least one, and the
/// spans in which at least one of them is in progress.
pub open spec fn hold_track_matches(
    track: HoldTrack,
    entities: Seq<LevelEntity>,
    points: Seq<BpmChange>,
    shift: int,
) -> bool {
    let holds = hold_spans(entities, points, shift, track.name@, entities.len());
    &&& holds.len() > 0
    &&& separated(track.spans@)
    &&& forall|time: int| agrees(track.spans@, starts_of(holds), ends_of(holds), time)
}

/// Whether `tracks` hold the holds of a chart: a track for each effect that
/// has a connector and for no other, each as [`hold_track_matches`] says.
pub open spec fn holds_match(
    tracks: Seq<HoldTrack>,
    entities: Seq<LevelEntity>,
    points: Seq<BpmChange>,
    shift: int,
) -> bool {
    &&& forall|k: int|
        0 <= k < tracks.len() ==> hold_track_matches(#[trigger] tracks[k], entities, points, shift)
    &&& forall|effect: Seq<char>|
        (#[trigger] hold_spans(entities, points, shift, effect, entities.len())).len() > 0
            ==> exists|k: int| 0 <= k < tracks.len() && (#[trigger] tracks[k]).name@ == effect
}

/// What [`first_bad_tempo`] finds is the first such change, and it finds one
/// wherever there is one.
pub proof fn lemma_first_bad_tempo(changes: Seq<BpmChange>, from: nat)
    requires
        from <= changes.len(),
    ensures
        match first_bad_tempo(changes, from) {
            Some(at) => {
                &&& from <= at < changes.len()
                &&& changes[at].bpm <= 0
                &&& forall|j: int| from <= j < at ==> changes[j].bpm > 0
            },
            None => forall|j: int| from <= j < changes.len() ==> changes[j].bpm > 0,
        },
    decreases changes.len() - from,
{
    if from < changes.len() && changes[from as int].bpm > 0 {
        lemma_first_bad_tempo(changes, from + 1);
    }
}

/// A track has times only if some note plays its effect.
pub proof fn lemma_note_times_source(
    entities: Seq<LevelEntity>,
    points: Seq<BpmChange>,
    shift: int,
    effect: Seq<char>,
    count: nat,
)
    requires
        count <= entities.len(),
    ensures
        note_times(entities, points, shift, effect, count).len() > 0 ==> exists|i: int|
            0 <= i < count && plays(instant_effect(#[trigger] entities[i].archetype@), effect),
    decreases count,
{
    if count > 0 {
        lemma_note_times_source(entities, points, shift, effect, (count - 1) as nat);
        if note_times(entities, points, shift, effect, count).len() > 0 {
            if note_times(entities, points, shift, effect, (count - 1) as nat).len() > 0 {
                let i = choose|i: int|
                    0 <= i < count - 1 && plays(
                        instant_effect(#[trigger] entities[i].archetype@),
                        effect,
                    );
                assert(plays(instant_effect(entities[i].archetype@), effect));
            } else {
                assert(plays(instant_effect(entities[count - 1].archetype@), effect));
            }
        }
    }
}

/// A track has spans only if some connector sustains its effect.
pub proof fn lemma_hold_spans_source(
    entities: Seq<LevelEntity>,
    points: Seq<BpmChange>,
    shift: int,
    effect: Seq<char>,
    count: nat,
)
    requires
        count <= entities.len(),
    ensures
        hold_spans(entities, points, shift, effect, count).len() > 0 ==> exists|i: int|
            0 <= i < count && plays(loop_effect(#[trigger] entities[i].archetype@), effect),
    decreases count,
{
    if count > 0 {
        lemma_hold_spans_source(entities, points, shift, effect, (count - 1) as nat);
        if hold_spans(entities, points, shift, effect, count).len() > 0 {
            if hold_spans(entities, points, shift, effect, (count - 1) as nat).len() > 0 {
                let i = choose|i: int|
                    0 <= i < count - 1 && plays(loop_effect(#[trigger] entities[i].archetype@), effect);
                assert(plays(loop_effect(entities[i].archetype@), effect));
            } else {
                assert(plays(loop_effect(entities[count - 1].archetype@), effect));
            }
        }
    }
}

/// What the note stage keeps of an entity.
struct NoteSlot {
    effect: Option<&'static str>,
    time: i64,
}

/// What the connector stage keeps of an entity.
struct HoldSlot {
    effect: Option<&'static str>,
    span: (i64, i64),
}

spec fn note_kept(slot: NoteSlot, entity: LevelEntity, points: Seq<BpmChange>, shift: int, index: int) -> bool {
    &&& slot.effect == instant_effect(entity.archetype@)
    &&& slot.effect is Some ==> note_time(entity, points, shift, index as usize) == Ok::<
        i64,
        TimingError,
    >(slot.time)
}

spec fn hold_kept(
    slot: HoldSlot,
    entities: Seq<LevelEntity>,
    points: Seq<BpmChange>,
    shift: int,
    index: int,
) -> bool {
    &&& slot.effect == loop_effect(entities[index].archetype@)
    &&& slot.effect is Some ==> hold_span(entities[index], entities, points, shift, index as usize)
        == Ok::<(i64, i64), TimingError>(slot.span)
}

fn collect_tempo(entities: &Vec<LevelEntity>) -> (found: Result<Vec<BpmChange>, TimingError>)
    ensures
        match found {
            Ok(changes) => {
                &&& tempo_fault(entities@, 0) is None
                &&& changes@ == tempo_changes(entities@, entities@.len())
            },
            Err(fault) => tempo_fault(entities@, 0) == Some(fault),
        },
{
    let mut changes: Vec<BpmChange> = Vec::new();
    let mut i: usize = 0;
    while i < entities.len()
        invariant
            i <= entities@.len(),
            tempo_fault(entities@, 0) == tempo_fault(entities@, i as nat),
            changes@ == tempo_changes(entities@, i as nat),
        decreases entities@.len() - i,
    {
        let entity = &entities[i];
        if same_text(entity.archetype.as_str(), "#BPM_CHANGE") {
            let beat = match entity.get_value("#BEAT") {
                Some(beat) => beat,
                None => {
                    return Err(TimingError::BpmChangeWithoutBeat { entity: i });
                },
            };
            let bpm = match entity.get_value("#BPM") {
                Some(bpm) => bpm,
                None => {
                    return Err(TimingError::BpmChangeWithoutBpm { entity: i });
                },
            };
            changes.push(BpmChange { beat, bpm });
        }
        i = i + 1;
    }
    Ok(changes)
}

fn chart_tempo(changes: &Vec<BpmChange>, bgm_offset: i64, shift: i64) -> (made: Result<TempoMap, TimingError>)
    ensures
        match made {
            Ok(map) => {
                &&& map_fault(changes@) is None
                &&& map.points() == in_beat_order(changes@)
                &&& map.shift() == bgm_offset + shift
            },
            Err(fault) => map_fault(changes@) == Some(fault),
        },
{
    proof {
        lemma_first_bad_tempo(changes@, 0);
    }
    match TempoMap::new(changes, bgm_offset, shift) {
        Ok(map) => Ok(map),
        Err(TempoError::InvalidTempo { index }) => Err(TimingError::InvalidTempo { change: index }),
        Err(TempoError::NoInitialTempo) => Err(TimingError::NoInitialTempo),
    }
}

fn resolve_notes(entities: &Vec<LevelEntity>, map: &TempoMap) -> (found: Result<Vec<NoteSlot>, TimingError>)
    ensures
        match found {
            Ok(slots) => {
                &&& note_fault(entities@, map.points(), map.shift(), 0) is None
                &&& slots@.len() == entities@.len()
                &&& forall|i: int|
                    0 <= i < slots@.len() ==> note_kept(
                        #[trigger] slots@[i],
                        entities@[i],
                        map.points(),
                        map.shift(),
                        i,
                    )
            },
            Err(fault) => note_fault(entities@, map.points(), map.shift(), 0) == Some(fault),
        },
{
    let mut slots: Vec<NoteSlot> = Vec::new();
    let mut i: usize = 0;
    while i < entities.len()
        invariant
            i <= entities@.len(),
            slots@.len() == i,
            note_fault(entities@, map.points(), map.shift(), 0) == note_fault(
                entities@,
                map.points(),
                map.shift(),
                i as nat,
            ),
            forall|k: int|
                0 <= k < i ==> note_kept(
                    #[trigger] slots@[k],
                    entities@[k],
                    map.points(),
                    map.shift(),
                    k,
                ),
        decreases entities@.len() - i,
    {
        let entity = &entities[i];
        let effect = sound_for(entity.archetype.as_str());
        let mut time: i64 = 0;
        if effect.is_some() {
            let beat = match entity.get_value("#BEAT") {
                Some(beat) => beat,
                None => {
                    return Err(TimingError::NoteWithoutBeat { entity: i });
                },
            };
            time = match map.resolve_time(beat) {
                Some(time) => time,
                None => {
                    return Err(TimingError::TimeOutOfRange { entity: i });
                },
            };
        }
        slots.push(NoteSlot { effect, time });
        i = i + 1;
    }
    Ok(slots)
}

fn resolve_holds(entities: &Vec<LevelEntity>, map: &TempoMap) -> (found: Result<Vec<HoldSlot>, TimingError>)
    ensures
        match found {
            Ok(slots) => {
                &&& hold_fault(entities@, map.points(), map.shift(), 0) is None
                &&& slots@.len() == entities@.len()
                &&& forall|i: int|
                    0 <= i < slots@.len() ==> hold_kept(
                        #[trigger] slots@[i],
                        entities@,
                        map.points(),
                        map.shift(),
                        i,
                    )
            },
            Err(fault) => hold_fault(entities@, map.points(), map.shift(), 0) == Some(fault),
        },
{
    let mut slots: Vec<HoldSlot> = Vec::new();
    let mut i: usize = 0;
    while i < entities.len()
        invariant
            i <= entities@.len(),
            slots@.len() == i,
            hold_fault(entities@, map.points(), map.shift(), 0) == hold_fault(
                entities@,
                map.points(),
                map.shift(),
                i as nat,
            ),
            forall|k: int|
                0 <= k < i ==> hold_kept(
                    #[trigger] slots@[k],
                    entities@,
                    map.points(),
                    map.shift(),
                    k,
                ),
        decreases entities@.len() - i,
    {
        let entity = &entities[i];
        let effect = loop_sound_for(entity.archetype.as_str());
        let mut span: (i64, i64) = (0, 0);
        if effect.is_some() {
            let head = match entity.get_ref(entities.as_slice(), "head") {
                Some(head) => head,
                None => {
                    return Err(TimingError::ConnectorWithoutHead { entity: i });
                },
            };
            let tail = match entity.get_ref(entities.as_slice(), "tail") {
                Some(tail) => tail,
                None => {
                    return Err(TimingError::ConnectorWithoutTail { entity: i });
                },
            };
            let head_beat = match head.get_value("#BEAT") {
                Some(beat) => beat,
                None => {
                    return Err(TimingError::HeadWithoutBeat { entity: i });
                },
            };
            let start = match map.resolve_time(head_beat) {
                Some(time) => time,
                None => {
                    return Err(TimingError::TimeOutOfRange { entity: i });
                },
            };
            let tail_beat = match tail.get_value("#BEAT") {
                Some(beat) => beat,
                None => {
                    return Err(TimingError::TailWithoutBeat { entity: i });
                },
            };
            let end = match map.resolve_time(tail_beat) {
                Some(time) => time,
                None => {
                    return Err(TimingError::TimeOutOfRange { entity: i });
                },
            };
            span = (start, end);
        }
        slots.push(HoldSlot { effect, span });
        i = i + 1;
    }
    Ok(slots)
}

fn instant_tracks(entities: &Vec<LevelEntity>, slots: &Vec<NoteSlot>, map: &TempoMap) -> (tracks: Vec<
    InstantTrack,
>)
    requires
        slots@.len() == entities@.len(),
        forall|i: int|
            0 <= i < slots@.len() ==> note_kept(
                #[trigger] slots@[i],
                entities@[i],
                map.points(),
                map.shift(),
                i,
            ),
    ensures
        instants_match(tracks@, entities@, map.points(), map.shift()),
        forall|i: int, j: int|
            0 <= i < j < tracks@.len() ==> (#[trigger] tracks@[i]).name@ != (#[trigger] tracks@[j]).name@,
{
    let table = instant_effect_list();
    proof {
        lemma_instant_effects_distinct();
    }
    let ghost points = map.points();
    let ghost shift = map.shift();
    let ghost n = entities@.len();
    let mut tracks: Vec<InstantTrack> = Vec::new();
    let mut t: usize = 0;
    while t < table.len()
        invariant
            t <= table@.len(),
            table@ == instant_effects(),
            points == map.points(),
            shift == map.shift(),
            n == entities@.len(),
            slots@.len() == n,
            forall|i: int|
                0 <= i < slots@.len() ==> note_kept(#[trigger] slots@[i], entities@[i], points, shift, i),
            forall|k: int|
                0 <= k < tracks@.len() ==> instant_track_matches(
                    #[trigger] tracks@[k],
                    entities@,
                    points,
                    shift,
                ),
            forall|i: int, j: int|
                0 <= i < j < instant_effects().len() ==> instant_effects()[i]@ != instant_effects()[j]@,
            forall|k: int|
                0 <= k < tracks@.len() ==> exists|u: int|
                    0 <= u < t && (#[trigger] table@[u])@ == (#[trigger] tracks@[k]).name@,
            forall|i: int, j: int|
                0 <= i < j < tracks@.len() ==> (#[trigger] tracks@[i]).name@ != (
                #[trigger] tracks@[j]).name@,
            forall|u: int|
                0 <= u < t && note_times(entities@, points, shift, (#[trigger] table@[u])@, n).len() > 0
                    ==> exists|k: int|
                    0 <= k < tracks@.len() && (#[trigger] tracks@[k]).name@ == table@[u]@,
        decreases table@.len() - t,
    {
        let effect = table[t];
        let mut raw: Vec<i64> = Vec::new();
        let mut i: usize = 0;
        while i < slots.len()
            invariant
                i <= slots@.len(),
                slots@.len() == n,
                n == entities@.len(),
                forall|k: int|
                    0 <= k < slots@.len() ==> note_kept(
                        #[trigger] slots@[k],
                        entities@[k],
                        points,
                        shift,
                        k,
                    ),
                raw@ == note_times(entities@, points, shift, effect@, i as nat),
            decreases slots@.len() - i,
        {
            assert(note_kept(slots@[i as int], entities@[i as int], points, shift, i as int));
            match slots[i].effect {
                Some(name) => {
                    if same_text(name, effect) {
                        raw.push(slots[i].time);
                    }
                },
                None => {},
            }
            i = i + 1;
        }
        let ghost before = tracks@;
        if raw.len() > 0 {
            let times = sorted_unique(&raw);
            let track = InstantTrack { name: String::from_str(effect), times };
            tracks.push(track);
            proof {
                assert(tracks@[before.len() as int].name@ == effect@);
                assert(instant_track_matches(tracks@[before.len() as int], entities@, points, shift));
            }
        }
        proof {
            assert forall|k: int| 0 <= k < tracks@.len() implies instant_track_matches(
                #[trigger] tracks@[k],
                entities@,
                points,
                shift,
            ) by {
                if k < before.len() {
                    assert(tracks@[k] == before[k]);
                }
            }
            assert forall|k: int| 0 <= k < tracks@.len() implies exists|u: int|
                0 <= u < t + 1 && (#[trigger] table@[u])@ == (#[trigger] tracks@[k]).name@ by {
                if k < before.len() {
                    assert(tracks@[k] == before[k]);
                    let u = choose|u: int|
                        0 <= u < t && (#[trigger] table@[u])@ == (#[trigger] before[k]).name@;
                    assert(table@[u]@ == tracks@[k].name@);
                } else {
                    assert(table@[t as int]@ == tracks@[k].name@);
                }
            }
            assert forall|i: int, j: int| 0 <= i < j < tracks@.len() implies (#[trigger] tracks@[i]).name@
                != (#[trigger] tracks@[j]).name@ by {
                assert(tracks@[i] == before[i]);
                if j < before.len() {
                    assert(tracks@[j] == before[j]);
                } else {
                    let u = choose|u: int|
                        0 <= u < t && (#[trigger] table@[u])@ == (#[trigger] before[i]).name@;
                    assert(instant_effects()[u]@ != instant_effects()[t as int]@);
                }
            }
            assert forall|u: int|
                0 <= u < t + 1 && note_times(entities@, points, shift, (#[trigger] table@[u])@, n).len()
                    > 0 implies exists|k: int|
                0 <= k < tracks@.len() && (#[trigger] tracks@[k]).name@ == table@[u]@ by {
                if u < t {
                    let k = choose|k: int|
                        0 <= k < before.len() && (#[trigger] before[k]).name@ == table@[u]@;
                    assert(tracks@[k] == before[k]);
                } else {
                    assert(tracks@[before.len() as int].name@ == table@[u]@);
                }
            }
        }
        t = t + 1;
    }
    proof {
        assert forall|effect: Seq<char>|
            (#[trigger] note_times(entities@, points, shift, effect, n)).len() > 0 implies exists|
            k: int,
        |
            0 <= k < tracks@.len() && (#[trigger] tracks@[k]).name@ == effect by {
            lemma_note_times_source(entities@, points, shift, effect, n);
            let i = choose|i: int|
                0 <= i < n && plays(instant_effect(#[trigger] entities@[i].archetype@), effect);
            lemma_instant_effect_listed(entities@[i].archetype@);
            let name = instant_effect(entities@[i].archetype@)->Some_0;
            let u = choose|u: int| 0 <= u < instant_effects().len() && instant_effects()[u] == name;
            assert(table@[u]@ == effect);
        }
    }
    tracks
}

fn hold_tracks(entities: &Vec<LevelEntity>, slots: &Vec<HoldSlot>, map: &TempoMap) -> (made: Result<
    Vec<HoldTrack>,
    TimingError,
>)
    requires
        slots@.len() == entities@.len(),
        forall|i: int|
            0 <= i < slots@.len() ==> hold_kept(
                #[trigger] slots@[i],
                entities@,
                map.points(),
                map.shift(),
                i,
            ),
    ensures
        match made {
            Ok(tracks) => {
                &&& balance_fault(entities@, map.points(), map.shift(), 0) is None
                &&& holds_match(tracks@, entities@, map.points(), map.shift())
                &&& forall|i: int, j: int|
                    0 <= i < j < tracks@.len() ==> (#[trigger] tracks@[i]).name@ != (
                    #[trigger] tracks@[j]).name@
            },
            Err(fault) => balance_fault(entities@, map.points(), map.shift(), 0) == Some(fault),
        },
{
    let table = loop_effect_list();
    proof {
        lemma_loop_effects_distinct();
    }
    let ghost points = map.points();
    let ghost shift = map.shift();
    let ghost n = entities@.len();
    let mut tracks: Vec<HoldTrack> = Vec::new();
    let mut t: usize = 0;
    while t < table.len()
        invariant
            t <= table@.len(),
            table@ == loop_effects(),
            points == map.points(),
            shift == map.shift(),
            n == entities@.len(),
            slots@.len() == n,
            forall|i: int|
                0 <= i < slots@.len() ==> hold_kept(#[trigger] slots@[i], entities@, points, shift, i),
            balance_fault(entities@, points, shift, 0) == balance_fault(
                entities@,
                points,
                shift,
                t as nat,
            ),
            forall|k: int|
                0 <= k < tracks@.len() ==> hold_track_matches(
                    #[trigger] tracks@[k],
                    entities@,
                    points,
                    shift,
                ),
            forall|i: int, j: int|
                0 <= i < j < loop_effects().len() ==> loop_effects()[i]@ != loop_effects()[j]@,
            forall|k: int|
                0 <= k < tracks@.len() ==> exists|u: int|
                    0 <= u < t && (#[trigger] table@[u])@ == (#[trigger] tracks@[k]).name@,
            forall|i: int, j: int|
                0 <= i < j < tracks@.len() ==> (#[trigger] tracks@[i]).name@ != (
                #[trigger] tracks@[j]).name@,
            forall|u: int|
                0 <= u < t && hold_spans(entities@, points, shift, (#[trigger] table@[u])@, n).len() > 0
                    ==> exists|k: int|
                    0 <= k < tracks@.len() && (#[trigger] tracks@[k]).name@ == table@[u]@,
        decreases table@.len() - t,
    {
        let effect = table[t];
        let mut starts: Vec<i64> = Vec::new();
        let mut ends: Vec<i64> = Vec::new();
        let mut i: usize = 0;
        while i < slots.len()
            invariant
                i <= slots@.len(),
                slots@.len() == n,
                n == entities@.len(),
                forall|k: int|
                    0 <= k < slots@.len() ==> hold_kept(
                        #[trigger] slots@[k],
                        entities@,
                        points,
                        shift,
                        k,
                    ),
                starts@ == starts_of(hold_spans(entities@, points, shift, effect@, i as nat)),
                ends@ == ends_of(hold_spans(entities@, points, shift, effect@, i as nat)),
            decreases slots@.len() - i,
        {
            assert(hold_kept(slots@[i as int], entities@, points, shift, i as int));
            let ghost so_far = hold_spans(entities@, points, shift, effect@, i as nat);
            match slots[i].effect {
                Some(name) => {
                    if same_text(name, effect) {
                        starts.push(slots[i].span.0);
                        ends.push(slots[i].span.1);
                        proof {
                            let span = slots@[i as int].span;
                            assert(starts_of(so_far.push(span)) =~= starts_of(so_far).push(span.0));
                            assert(ends_of(so_far.push(span)) =~= ends_of(so_far).push(span.1));
                        }
                    }
                },
                None => {},
            }
            i = i + 1;
        }
        let ghost before = tracks@;
        let spans = match merge_intervals(&starts, &ends) {
            Some(spans) => spans,
            None => {
                return Err(TimingError::UnbalancedHolds { effect });
            },
        };
        if starts.len() > 0 {
            let track = HoldTrack { name: String::from_str(effect), spans };
            tracks.push(track);
            proof {
                assert(tracks@[before.len() as int].name@ == effect@);
                assert(hold_track_matches(tracks@[before.len() as int], entities@, points, shift));
            }
        }
        proof {
            assert forall|k: int| 0 <= k < tracks@.len() implies hold_track_matches(
                #[trigger] tracks@[k],
                entities@,
                points,
                shift,
            ) by {
                if k < before.len() {
                    assert(tracks@[k] == before[k]);
                }
            }
            assert forall|k: int| 0 <= k < tracks@.len() implies exists|u: int|
                0 <= u < t + 1 && (#[trigger] table@[u])@ == (#[trigger] tracks@[k]).name@ by {
                if k < before.len() {
                    assert(tracks@[k] == before[k]);
                    let u = choose|u: int|
                        0 <= u < t && (#[trigger] table@[u])@ == (#[trigger] before[k]).name@;
                    assert(table@[u]@ == tracks@[k].name@);
                } else {
                    assert(table@[t as int]@ == tracks@[k].name@);
                }
            }
            assert forall|i: int, j: int| 0 <= i < j < tracks@.len() implies (#[trigger] tracks@[i]).name@
                != (#[trigger] tracks@[j]).name@ by {
                assert(tracks@[i] == before[i]);
                if j < before.len() {
                    assert(tracks@[j] == before[j]);
                } else {
                    let u = choose|u: int|
                        0 <= u < t && (#[trigger] table@[u])@ == (#[trigger] before[i]).name@;
                    assert(loop_effects()[u]@ != loop_effects()[t as int]@);
                }
            }
            assert forall|u: int|
                0 <= u < t + 1 && hold_spans(entities@, points, shift, (#[trigger] table@[u])@, n).len()
                    > 0 implies exists|k: int|
                0 <= k < tracks@.len() && (#[trigger] tracks@[k]).name@ == table@[u]@ by {
                if u < t {
                    let k = choose|k: int|
                        0 <= k < before.len() && (#[trigger] before[k]).name@ == table@[u]@;
                    assert(tracks@[k] == before[k]);
                } else {
                    assert(tracks@[before.len() as int].name@ == table@[u]@);
                }
            }
        }
        t = t + 1;
    }
    proof {
        assert forall|effect: Seq<char>|
            (#[trigger] hold_spans(entities@, points, shift, effect, n)).len() > 0 implies exists|
            k: int,
        |
            0 <= k < tracks@.len() && (#[trigger] tracks@[k]).name@ == effect by {
            lemma_hold_spans_source(entities@, points, shift, effect, n);
            let i = choose|i: int|
                0 <= i < n && plays(loop_effect(#[trigger] entities@[i].archetype@), effect);
            lemma_loop_effect_listed(entities@[i].archetype@);
            let name = loop_effect(entities@[i].archetype@)->Some_0;
            let u = choose|u: int| 0 <= u < loop_effects().len() && loop_effects()[u] == name;
            assert(table@[u]@ == effect);
        }
    }
    Ok(tracks)
}

/// Extracts from a chart the times at which its effects sound.
///
/// Beats are resolved over the chart's own tempo changes; every time is
/// moved by the offset of the chart's background track and by `offset`, in
/// microseconds. Entities of an archetype that plays nothing are passed
/// over. The result is an error exactly where the chart has a fault, and
/// then the first one.
pub fn get_sound_timings(level: &Level, offset: i64) -> (found: Result<Timing, TimingError>)
    ensures
        match found {
            Ok(timing) => {
                let entities = level.data.entities@;
                let points = in_beat_order(tempo_changes(entities, entities.len()));
                let moved = level.data.bgm_offset + offset;
                &&& timing_fault(entities, level.data.bgm_offset, offset) is None
                &&& timing.wf()
                &&& instants_match(timing.single@, entities, points, moved)
                &&& holds_match(timing.connect@, entities, points, moved)
            },
            Err(fault) => timing_fault(level.data.entities@, level.data.bgm_offset, offset) == Some(
                fault,
            ),
        },
{
    let entities = &level.data.entities;
    let changes = match collect_tempo(entities) {
        Ok(changes) => changes,
        Err(fault) => {
            return Err(fault);
        },
    };
    let map = match chart_tempo(&changes, level.data.bgm_offset, offset) {
        Ok(map) => map,
        Err(fault) => {
            return Err(fault);
        },
    };
    let notes = match resolve_notes(entities, &map) {
        Ok(notes) => notes,
        Err(fault) => {
            return Err(fault);
        },
    };
    let holds = match resolve_holds(entities, &map) {
        Ok(holds) => holds,
        Err(fault) => {
            return Err(fault);
        },
    };
    let single = instant_tracks(entities, &notes, &map);
    let connect = match hold_tracks(entities, &holds, &map) {
        Ok(connect) => connect,
        Err(fault) => {
            return Err(fault);
        },
    };
    Ok(Timing { single, connect })
}

} // verus!
