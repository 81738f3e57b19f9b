use pjsekai_soundgen_core::effect::Effect;
use pjsekai_soundgen_core::level::Level;
use pjsekai_soundgen_core::merger::{merge, mix_down, MergeError, Merger};
use pjsekai_soundgen_core::server::Server;
use pjsekai_soundgen_core::sonolus::{
    EffectInfo, EngineInfo, LevelData, LevelEntity, LevelEntityData, LevelInfo, Srl,
};
use pjsekai_soundgen_core::sound::Sound;
use pjsekai_soundgen_core::synthesis::{plan, roster, run, synthesis, Progress, SynthesisError, Work};
use pjsekai_soundgen_core::timing::{get_sound_timings, HoldTrack, InstantTrack, Timing};

const SECOND: usize = 96000;

fn bank(clips: Vec<(&str, Vec<i16>)>) -> Effect {
    Effect {
        audio: clips
            .into_iter()
            .map(|(name, data)| (name.to_string(), Sound { data, bitrate: 48000 }))
            .collect(),
    }
}

fn instants(name: &str, times: Vec<i64>) -> InstantTrack {
    InstantTrack { name: name.to_string(), times }
}

fn holds(name: &str, spans: Vec<(i64, i64)>) -> HoldTrack {
    HoldTrack { name: name.to_string(), spans }
}

fn srl() -> Srl {
    Srl { hash: String::new(), url: String::new() }
}

fn two_note_chart() -> Level {
    let field = |name: &str, value: i64| LevelEntityData {
        name: name.to_string(),
        value: Some(value),
        reference: None,
    };
    let entities = vec![
        LevelEntity {
            archetype: "#BPM_CHANGE".to_string(),
            data: vec![field("#BEAT", 0), field("#BPM", 120_000_000)],
            name: None,
        },
        LevelEntity { archetype: "NormalTapNote".to_string(), data: vec![field("#BEAT", 0)], name: None },
        LevelEntity {
            archetype: "NormalTapNote".to_string(),
            data: vec![field("#BEAT", 4_000_000)],
            name: None,
        },
    ];
    let info = LevelInfo {
        title: String::new(),
        artists: String::new(),
        author: String::new(),
        name: String::new(),
        rating: 1,
        bgm: srl(),
        data: srl(),
        engine: EngineInfo { version: 1, effect: EffectInfo { audio: srl(), data: srl() } },
    };
    Level::new(Server::guess("chcy-x").unwrap(), info, LevelData { bgm_offset: 0, entities })
}

fn merge_all(events: Vec<Progress>) -> Sound {
    let at_once = merge(&events).unwrap();
    let step_by_step = merge_step_by_step(events);
    assert_eq!(at_once.data, step_by_step.data);
    assert_eq!(at_once.bitrate, 48000);
    at_once
}

fn merge_step_by_step(events: Vec<Progress>) -> Sound {
    let mut events = events.into_iter();
    let Some(Progress::Info { threads }) = events.next() else { panic!("no roster") };
    let mut merger = Merger::new(&threads);
    for event in events {
        merger = merger.accept(&event).unwrap_or_else(|(_, error)| panic!("{:?}", error));
    }
    assert!(merger.is_done());
    merger.into_sound()
}

#[test]
fn two_note_chart_renders_the_tap_twice() {
    let timing = get_sound_timings(&two_note_chart(), 0).unwrap();
    let tap: Vec<i16> = (0..SECOND).map(|i| (i % 1000) as i16 + 1).collect();
    let effect = bank(vec![("#PERFECT", tap.clone())]);
    let events = synthesis(&timing, &effect, 1000).unwrap();
    let effects = merge_all(events);
    let background = Sound { data: vec![5; 4 * SECOND], bitrate: 48000 };
    let track = mix_down(background, &effects, 1_000_000, false);
    assert_eq!(track.bitrate, 48000);
    assert_eq!(track.data.len(), 4 * SECOND);
    for i in 0..SECOND {
        assert_eq!(track.data[i], tap[i] + 5);
        assert_eq!(track.data[SECOND + i], 5);
        assert_eq!(track.data[2 * SECOND + i], tap[i] + 5);
        assert_eq!(track.data[3 * SECOND + i], 5);
    }
}

#[test]
fn silent_mode_leaves_the_background_out() {
    let effects = Sound { data: vec![7, 7, 7, 7], bitrate: 48000 };
    let background = Sound { data: vec![100; 8], bitrate: 48000 };
    let track = mix_down(background, &effects, 1_000_000, true);
    assert_eq!(track.data, vec![7, 7, 7, 7]);
}

#[test]
fn background_volume_is_applied_before_mixing() {
    let effects = Sound { data: vec![7, 7], bitrate: 48000 };
    let background = Sound { data: vec![100, -100, 100, -100], bitrate: 44100 };
    let track = mix_down(background, &effects, 250_000, false);
    assert_eq!(track.data, vec![32, -18, 25, -25]);
    assert_eq!(track.bitrate, 44100);
}

#[test]
fn roster_comes_first_and_updates_precede_finish() {
    let timing = Timing {
        single: vec![instants("#PERFECT", (0..10).map(|t| t * 1000).collect()), instants("Sekai Tick", vec![5])],
        connect: vec![holds("#HOLD", vec![(0, 100), (200, 300)])],
    };
    let effect = bank(vec![("#PERFECT", vec![1; 8]), ("Sekai Tick", vec![2; 8]), ("#HOLD", vec![3; 8])]);
    let events = synthesis(&timing, &effect, 3).unwrap();
    let Progress::Info { threads } = &events[0] else { panic!("no roster") };
    let ids: Vec<&str> = threads.iter().map(|(id, _)| id.as_str()).collect();
    assert_eq!(
        ids,
        vec!["通常タップ (1)", "通常タップ (2)", "通常タップ (3)", "通常タップ (4)", "スライド中継点 (1)", "通常ホールド"]
    );
    let units: Vec<i32> = threads.iter().map(|(_, info)| info.max).collect();
    assert_eq!(units, vec![3, 3, 2, 2, 1, 2]);
    assert_eq!((threads[0].1.color.fg, threads[0].1.color.bg), ("cyan", "blue"));
    assert_eq!((threads[5].1.color.fg, threads[5].1.color.bg), ("green", "blue"));
    let mut finished: Vec<String> = vec![];
    let mut last_update: std::collections::HashMap<String, i32> = std::collections::HashMap::new();
    for event in &events[1..] {
        match event {
            Progress::Info { .. } => panic!("second roster"),
            Progress::Update { id, current } => {
                assert!(!finished.contains(id));
                assert!(ids.contains(&id.as_str()));
                let before = last_update.insert(id.clone(), *current).unwrap_or(0);
                assert_eq!(*current, before + 1);
            },
            Progress::Finish { id, .. } => {
                assert!(!finished.contains(id));
                finished.push(id.clone());
            },
        }
    }
    assert_eq!(finished.len(), ids.len());
    for (id, info) in threads {
        assert_eq!(last_update[id], info.max);
    }
}

#[test]
fn instants_are_cut_off_by_the_next_of_their_chunk() {
    // frames of 21 microseconds: instants at frames 0, 2 and 3
    let timing = Timing { single: vec![instants("#PERFECT", vec![0, 42, 63])], connect: vec![] };
    let effect = bank(vec![("#PERFECT", vec![1; 10])]);
    let events = synthesis(&timing, &effect, 1000).unwrap();
    let Progress::Finish { id, sound } = &events[4] else { panic!("no finish") };
    assert_eq!(id, "通常タップ (1)");
    assert_eq!(sound.data, vec![1, 1, 1, 1, 1, 1, 1, 1, 1, 1, 1, 1, 1, 1, 1, 1]);
    // in chunks of one, no instant cuts another off, and the merged buffers add up
    let events = synthesis(&timing, &effect, 1).unwrap();
    assert_eq!(events.len(), 1 + 3 * 2);
    let merged = merge_all(events);
    assert_eq!(merged.data, vec![1, 1, 1, 1, 2, 2, 3, 3, 3, 3, 2, 2, 2, 2, 1, 1]);
}

#[test]
fn holds_loop_the_clip_over_each_span() {
    let timing = Timing { single: vec![], connect: vec![holds("Sekai Critical Hold", vec![(0, 63), (105, 147)])] };
    let effect = bank(vec![("Sekai Critical Hold", vec![1, 2, 3, 4])]);
    let events = synthesis(&timing, &effect, 1000).unwrap();
    assert_eq!(events.len(), 4);
    let Progress::Update { id, current } = &events[2] else { panic!("no update") };
    assert_eq!((id.as_str(), *current), ("金ホールド", 2));
    let Progress::Finish { sound, .. } = &events[3] else { panic!("no finish") };
    assert_eq!(sound.data, vec![1, 2, 3, 4, 1, 2, 0, 0, 0, 0, 1, 2, 3, 4]);
}

#[test]
fn effect_missing_from_the_bank_fails_the_run() {
    let timing = Timing {
        single: vec![instants("#PERFECT", vec![0]), instants("Sekai Tick", vec![0])],
        connect: vec![holds("#HOLD", vec![(0, 100)])],
    };
    let effect = bank(vec![("#PERFECT", vec![1; 8]), ("#HOLD", vec![1; 8])]);
    match synthesis(&timing, &effect, 1000) {
        Err(SynthesisError::UnknownEffect { name }) => assert_eq!(name, "Sekai Tick"),
        other => panic!("{:?}", other),
    }
    let effect = bank(vec![("#PERFECT", vec![1; 8]), ("Sekai Tick", vec![1; 8])]);
    match synthesis(&timing, &effect, 1000) {
        Err(SynthesisError::UnknownEffect { name }) => assert_eq!(name, "#HOLD"),
        other => panic!("{:?}", other),
    }
}

#[test]
fn effect_without_display_name_fails_the_run() {
    let timing = Timing { single: vec![instants("Custom", vec![0])], connect: vec![] };
    let effect = bank(vec![("Custom", vec![1; 8])]);
    assert!(matches!(synthesis(&timing, &effect, 1000), Err(SynthesisError::UnknownEffect { .. })));
}

#[test]
fn unit_beyond_the_longest_buffer_is_not_rendered() {
    let timing = Timing {
        single: vec![instants("#PERFECT", vec![i64::MAX])],
        connect: vec![holds("#HOLD", vec![(0, i64::MAX)])],
    };
    let effect = bank(vec![("#PERFECT", vec![1; 4]), ("#HOLD", vec![])]);
    let tasks = plan(&timing, &effect, 1000).unwrap();
    assert_eq!(tasks.len(), 2);
    assert!(matches!(&tasks[1].work, Work::Holds(spans) if spans.len() == 1));
    // at four billion frames a second the end of time is past every buffer
    let fast = || Sound { data: vec![], bitrate: u32::MAX };
    assert!(tasks[0].advance(fast(), 0).is_none());
    assert!(tasks[1].advance(fast(), 0).is_none());
    // and a task has no more units than it has
    assert!(tasks[0].advance(Sound::empty(None), 1).is_none());
    assert!(tasks[1].advance(Sound::empty(None), 1).is_none());
    let error = SynthesisError::TooLong { id: "通常ホールド".to_string() };
    assert_eq!(error.message(), "音声が長すぎます：通常ホールド");
    let error = SynthesisError::UnknownEffect { name: "Custom".to_string() };
    assert_eq!(error.message(), "不明なSEです：Custom。Issueに報告してください。");
}

#[test]
fn advance_renders_the_same_as_the_run() {
    let timing = Timing { single: vec![instants("#PERFECT", vec![0, 42, 63, 1000, 2000])], connect: vec![] };
    let effect = bank(vec![("#PERFECT", vec![1, -1, 2, -2, 3, -3])]);
    let tasks = plan(&timing, &effect, 2).unwrap();
    assert_eq!(tasks.len(), 3);
    let threads = roster(&tasks);
    assert_eq!(threads.len(), 3);
    let events = run(&tasks).unwrap();
    let finished: Vec<&Sound> = events
        .iter()
        .filter_map(|event| match event {
            Progress::Finish { sound, .. } => Some(sound),
            _ => None,
        })
        .collect();
    for (task, expected) in tasks.iter().zip(finished) {
        let mut sound = Sound::empty(None);
        for unit in 0..task.units() {
            sound = task.advance(sound, unit).unwrap();
        }
        assert_eq!(sound.data, expected.data);
        assert_eq!(task.info().max as usize, task.units());
    }
}

#[test]
fn merger_refuses_what_the_roster_does_not_name() {
    let timing = Timing { single: vec![instants("#PERFECT", vec![0])], connect: vec![] };
    let effect = bank(vec![("#PERFECT", vec![4; 2])]);
    let events = synthesis(&timing, &effect, 1000).unwrap();
    let Progress::Info { threads } = &events[0] else { panic!("no roster") };
    let merger = Merger::new(threads);
    assert!(!merger.is_done());
    let (merger, error) = merger.accept(&events[0]).unwrap_err();
    assert!(matches!(error, MergeError::UnexpectedRoster));
    let stray = Progress::Update { id: "stray".to_string(), current: 1 };
    let (merger, error) = merger.accept(&stray).unwrap_err();
    assert!(matches!(error, MergeError::UnknownTask));
    let merger = merger.accept(&events[1]).unwrap();
    assert!(!merger.is_done());
    let merger = merger.accept(&events[2]).unwrap();
    assert!(merger.is_done());
    // a task finishes once
    let (merger, error) = merger.accept(&events[2]).unwrap_err();
    assert!(matches!(error, MergeError::UnknownTask));
    assert_eq!(merger.into_sound().data, vec![4, 4]);
}

#[test]
fn merge_refuses_a_run_that_is_not_whole() {
    let timing = Timing {
        single: vec![instants("#PERFECT", vec![0])],
        connect: vec![holds("#HOLD", vec![(0, 42)])],
    };
    let effect = bank(vec![("#PERFECT", vec![4; 2]), ("#HOLD", vec![1; 2])]);
    let mut events = synthesis(&timing, &effect, 1000).unwrap();
    assert_eq!(merge(&events).unwrap().data, vec![5, 5, 1, 1]);
    assert!(matches!(merge(&vec![]), Err(MergeError::MissingRoster)));
    // without the last finish one task is pending for ever
    let last = events.pop().unwrap();
    assert!(matches!(merge(&events), Err(MergeError::Unfinished)));
    // a finish that comes twice
    events.push(Progress::Finish { id: "通常タップ (1)".to_string(), sound: Sound::empty(None) });
    assert!(matches!(merge(&events), Err(MergeError::UnknownTask)));
    events.pop();
    // a second roster
    events.push(Progress::Info { threads: vec![] });
    events.push(last);
    assert!(matches!(merge(&events), Err(MergeError::UnexpectedRoster)));
    // no roster at the beginning
    events.remove(0);
    assert!(matches!(merge(&events), Err(MergeError::MissingRoster)));
}

#[test]
fn order_of_finishing_does_not_change_the_mix_of_two_tasks() {
    let timing = Timing {
        single: vec![instants("#PERFECT", vec![0]), instants("Sekai Tick", vec![21])],
        connect: vec![],
    };
    let effect = bank(vec![("#PERFECT", vec![30000, 30000, -30000, 7]), ("Sekai Tick", vec![30000, -30000])]);
    let events = synthesis(&timing, &effect, 1000).unwrap();
    assert_eq!(events.len(), 5);
    let one_way = merge(&events).unwrap();
    let mut swapped = events;
    // the blocks of the two tasks change places
    let second: Vec<Progress> = swapped.drain(3..5).collect();
    for (offset, event) in second.into_iter().enumerate() {
        swapped.insert(1 + offset, event);
    }
    let other_way = merge(&swapped).unwrap();
    assert_eq!(one_way.data, other_way.data);
    assert_eq!(one_way.data, vec![30000, 30000, 0, -29993]);
}

#[test]
fn tasks_keep_the_clip_as_the_bank_has_it() {
    let timing = Timing { single: vec![instants("#PERFECT", vec![0])], connect: vec![holds("#HOLD", vec![(0, 21)])] };
    let effect = Effect {
        audio: vec![
            ("#PERFECT".to_string(), Sound { data: vec![1, 2], bitrate: 44100 }),
            ("#HOLD".to_string(), Sound { data: vec![3, 4], bitrate: 22050 }),
        ],
    };
    let tasks = plan(&timing, &effect, 1000).unwrap();
    assert_eq!((tasks[0].clip.data.clone(), tasks[0].clip.bitrate), (vec![1, 2], 44100));
    assert_eq!((tasks[1].clip.data.clone(), tasks[1].clip.bitrate), (vec![3, 4], 22050));
    // rendering goes by the rate of the buffer, which is the default one
    let events = run(&tasks).unwrap();
    let Progress::Finish { sound, .. } = &events[2] else { panic!("no finish") };
    assert_eq!((sound.data.clone(), sound.bitrate), (vec![1, 2], 48000));
}
