use pjsekai_soundgen_core::level::Level;
use pjsekai_soundgen_core::server::Server;
use pjsekai_soundgen_core::sonolus::{
    EffectInfo, EngineInfo, LevelData, LevelEntity, LevelEntityData, LevelInfo, Srl,
};
use pjsekai_soundgen_core::timing::{get_sound_timings, Timing, TimingError};

fn srl() -> Srl {
    Srl { hash: String::new(), url: String::new() }
}

fn level(bgm_offset: i64, entities: Vec<LevelEntity>) -> Level {
    let server = Server::guess("ptlv-test").unwrap();
    let info = LevelInfo {
        title: "title".to_string(),
        artists: "artists".to_string(),
        author: "author".to_string(),
        name: "ptlv-test".to_string(),
        rating: 30,
        bgm: srl(),
        data: srl(),
        engine: EngineInfo { version: 1, effect: EffectInfo { audio: srl(), data: srl() } },
    };
    Level::new(server, info, LevelData { bgm_offset, entities })
}

fn value(name: &str, value: i64) -> LevelEntityData {
    LevelEntityData { name: name.to_string(), value: Some(value), reference: None }
}

fn reference(name: &str, target: &str) -> LevelEntityData {
    LevelEntityData { name: name.to_string(), value: None, reference: Some(target.to_string()) }
}

fn entity(archetype: &str, name: Option<&str>, data: Vec<LevelEntityData>) -> LevelEntity {
    LevelEntity { archetype: archetype.to_string(), data, name: name.map(|n| n.to_string()) }
}

fn tempo(beat: i64, bpm: i64) -> LevelEntity {
    entity("#BPM_CHANGE", None, vec![value("#BEAT", beat * 1_000_000), value("#BPM", bpm * 1_000_000)])
}

fn note(archetype: &str, name: Option<&str>, beat: i64) -> LevelEntity {
    entity(archetype, name, vec![value("#BEAT", beat * 1_000_000)])
}

fn connector(archetype: &str, head: &str, tail: &str) -> LevelEntity {
    entity(archetype, None, vec![reference("head", head), reference("tail", tail)])
}

fn instants<'a>(timing: &'a Timing, name: &str) -> Option<&'a Vec<i64>> {
    timing.instants(name)
}

fn holds<'a>(timing: &'a Timing, name: &str) -> Option<&'a Vec<(i64, i64)>> {
    timing.holds(name)
}

#[test]
fn entity_lookups_take_the_first_field_of_the_name() {
    let first = entity(
        "NormalTapNote",
        Some("a"),
        vec![
            value("lane", 3),
            reference("#BEAT", "b"),
            value("#BEAT", 7),
            reference("head", "b"),
            reference("head", "a"),
        ],
    );
    let second = entity("NormalTapNote", Some("b"), vec![value("#BEAT", 9)]);
    let twin = entity("NormalFlickNote", Some("b"), vec![value("#BEAT", 11)]);
    let nameless = entity("NormalTapNote", None, vec![]);
    assert_eq!(first.get_value("lane"), Some(3));
    // the first field called #BEAT holds no scalar
    assert_eq!(first.get_value("#BEAT"), None);
    assert_eq!(first.get_value("missing"), None);
    assert_eq!(first.get_ref_raw("head"), Some("b".to_string()));
    assert_eq!(first.get_ref_raw("lane"), None);
    assert_eq!(first.get_ref_raw("tail"), None);
    let all = vec![nameless, first, second, twin];
    let found = all[1].get_ref(&all, "head").unwrap();
    assert_eq!(found.get_value("#BEAT"), Some(9));
    assert_eq!(found.archetype, "NormalTapNote");
    assert!(all[1].get_ref(&all, "tail").is_none());
    assert!(all[1].get_ref(&all[..2], "head").is_none());
}

#[test]
fn notes_are_resolved_sorted_and_deduplicated() {
    let chart = level(
        0,
        vec![
            tempo(0, 120),
            note("NormalTapNote", None, 4),
            note("NormalSlideStartNote", None, 0),
            note("CriticalSlideEndNote", None, 4),
            note("CriticalTapNote", None, 2),
            note("Stage", None, 1),
            note("NormalTapNote", None, 1),
        ],
    );
    let timing = get_sound_timings(&chart, 0).unwrap();
    assert_eq!(instants(&timing, "#PERFECT"), Some(&vec![0, 500_000, 2_000_000]));
    assert_eq!(instants(&timing, "Sekai Critical Tap"), Some(&vec![1_000_000]));
    assert_eq!(timing.single.len(), 2);
    assert!(timing.connect.is_empty());
}

#[test]
fn tempo_changes_and_offsets_move_the_notes() {
    let chart = level(
        500_000,
        vec![
            note("NormalFlickNote", None, 6),
            tempo(4, 60),
            tempo(0, 120),
        ],
    );
    let timing = get_sound_timings(&chart, -200_000).unwrap();
    assert_eq!(instants(&timing, "#PERFECT_ALTERNATIVE"), Some(&vec![4_300_000]));
}

#[test]
fn connectors_become_merged_holds() {
    let chart = level(
        0,
        vec![
            tempo(0, 60),
            note("NormalSlideStartNote", Some("a"), 0),
            note("NormalSlideTickNote", Some("b"), 3),
            note("NormalSlideEndNote", Some("c"), 5),
            note("NormalSlideStartNote", Some("d"), 6),
            note("NormalSlideEndNote", Some("e"), 8),
            note("CriticalSlideStartNote", Some("f"), 1),
            note("CriticalSlideEndNote", Some("g"), 2),
            connector("NormalSlideConnector", "d", "e"),
            connector("NormalSlideConnector", "b", "c"),
            connector("NormalSlideConnector", "a", "b"),
            connector("CriticalSlideConnector", "f", "g"),
        ],
    );
    let timing = get_sound_timings(&chart, 0).unwrap();
    assert_eq!(holds(&timing, "#HOLD"), Some(&vec![(0, 5_000_000), (6_000_000, 8_000_000)]));
    assert_eq!(holds(&timing, "Sekai Critical Hold"), Some(&vec![(1_000_000, 2_000_000)]));
    assert_eq!(timing.connect.len(), 2);
    assert_eq!(instants(&timing, "Sekai Tick"), Some(&vec![3_000_000]));
    assert_eq!(instants(&timing, "#HOLD"), None);
    assert_eq!(holds(&timing, "Sekai Tick"), None);
}

#[test]
fn overlapping_connectors_merge() {
    let chart = level(
        0,
        vec![
            tempo(0, 60),
            note("x", Some("a"), 0),
            note("x", Some("b"), 5),
            note("x", Some("c"), 3),
            note("x", Some("d"), 8),
            connector("NormalSlideConnector", "a", "b"),
            connector("NormalSlideConnector", "c", "d"),
        ],
    );
    let timing = get_sound_timings(&chart, 0).unwrap();
    assert_eq!(holds(&timing, "#HOLD"), Some(&vec![(0, 8_000_000)]));
    assert!(timing.single.is_empty());
}

#[test]
fn unknown_archetypes_are_passed_over() {
    let chart = level(0, vec![tempo(0, 120), entity("Initialization", None, vec![]), note("Stage", None, 1)]);
    let timing = get_sound_timings(&chart, 0).unwrap();
    assert!(timing.single.is_empty());
    assert!(timing.connect.is_empty());
}

#[test]
fn tempo_change_without_fields_is_a_fault() {
    let chart = level(0, vec![tempo(0, 120), entity("#BPM_CHANGE", None, vec![value("#BPM", 1)])]);
    assert!(matches!(
        get_sound_timings(&chart, 0),
        Err(TimingError::BpmChangeWithoutBeat { entity: 1 })
    ));
    let chart = level(0, vec![entity("#BPM_CHANGE", None, vec![value("#BEAT", 0)]), tempo(0, 120)]);
    assert!(matches!(
        get_sound_timings(&chart, 0),
        Err(TimingError::BpmChangeWithoutBpm { entity: 0 })
    ));
}

#[test]
fn chart_without_usable_tempo_is_a_fault() {
    let chart = level(0, vec![note("NormalTapNote", None, 0)]);
    assert!(matches!(get_sound_timings(&chart, 0), Err(TimingError::NoInitialTempo)));
    let chart = level(0, vec![note("NormalTapNote", None, 0), tempo(0, 120), tempo(1, 0)]);
    assert!(matches!(get_sound_timings(&chart, 0), Err(TimingError::InvalidTempo { change: 1 })));
}

#[test]
fn note_without_beat_is_a_fault() {
    let chart = level(
        0,
        vec![tempo(0, 120), note("NormalTapNote", None, 0), entity("NormalTapNote", None, vec![])],
    );
    assert!(matches!(get_sound_timings(&chart, 0), Err(TimingError::NoteWithoutBeat { entity: 2 })));
}

#[test]
fn time_out_of_range_is_a_fault() {
    let chart = level(
        0,
        vec![
            entity("#BPM_CHANGE", None, vec![value("#BEAT", 0), value("#BPM", 1)]),
            entity("NormalTapNote", None, vec![value("#BEAT", i64::MAX)]),
        ],
    );
    assert!(matches!(get_sound_timings(&chart, 0), Err(TimingError::TimeOutOfRange { entity: 1 })));
}

#[test]
fn broken_connectors_are_faults() {
    let base = || vec![tempo(0, 120), note("x", Some("a"), 0), entity("x", Some("b"), vec![])];
    let mut entities = base();
    entities.push(entity("NormalSlideConnector", None, vec![reference("tail", "a")]));
    assert!(matches!(
        get_sound_timings(&level(0, entities), 0),
        Err(TimingError::ConnectorWithoutHead { entity: 3 })
    ));
    let mut entities = base();
    entities.push(connector("NormalSlideConnector", "a", "nowhere"));
    assert!(matches!(
        get_sound_timings(&level(0, entities), 0),
        Err(TimingError::ConnectorWithoutTail { entity: 3 })
    ));
    let mut entities = base();
    entities.push(connector("CriticalSlideConnector", "b", "a"));
    assert!(matches!(
        get_sound_timings(&level(0, entities), 0),
        Err(TimingError::HeadWithoutBeat { entity: 3 })
    ));
    let mut entities = base();
    entities.push(connector("CriticalSlideConnector", "a", "b"));
    assert!(matches!(
        get_sound_timings(&level(0, entities), 0),
        Err(TimingError::TailWithoutBeat { entity: 3 })
    ));
}

#[test]
fn hold_that_ends_before_it_starts_is_unbalanced() {
    let chart = level(
        0,
        vec![
            tempo(0, 120),
            note("x", Some("a"), 4),
            note("x", Some("b"), 2),
            connector("CriticalSlideConnector", "a", "b"),
        ],
    );
    assert!(matches!(
        get_sound_timings(&chart, 0),
        Err(TimingError::UnbalancedHolds { effect: "Sekai Critical Hold" })
    ));
}

#[test]
fn faults_are_found_by_stage() {
    // the note without a beat comes first in the chart, but tempo changes are read first
    let chart = level(
        0,
        vec![entity("NormalTapNote", None, vec![]), entity("#BPM_CHANGE", None, vec![])],
    );
    assert!(matches!(
        get_sound_timings(&chart, 0),
        Err(TimingError::BpmChangeWithoutBeat { entity: 1 })
    ));
    // and notes are resolved before connectors
    let chart = level(
        0,
        vec![
            tempo(0, 120),
            connector("NormalSlideConnector", "a", "b"),
            entity("NormalTapNote", None, vec![]),
        ],
    );
    assert!(matches!(get_sound_timings(&chart, 0), Err(TimingError::NoteWithoutBeat { entity: 2 })));
}

#[test]
fn faults_tell_where_and_what() {
    let fault = TimingError::NoteWithoutBeat { entity: 7 };
    assert_eq!(fault.entity(), Some(7));
    assert_eq!(fault.message(), "譜面データが壊れています：#BEATがありません");
    let fault = TimingError::UnbalancedHolds { effect: "#HOLD" };
    assert_eq!(fault.entity(), None);
    assert_eq!(fault.message(), "譜面データが壊れています：スライドの開始と終了の数が一致しません");
    assert_eq!(
        TimingError::BpmChangeWithoutBeat { entity: 0 }.message(),
        "譜面データが壊れています：#BPM_CHANGEに#BEATがありません"
    );
    assert_eq!(
        TimingError::ConnectorWithoutHead { entity: 0 }.message(),
        "譜面データが壊れています：SlideConnectorにheadがありません"
    );
    assert_eq!(TimingError::NoInitialTempo.entity(), None);
}

#[test]
fn notes_at_the_same_time_are_kept_once() {
    let chart = level(
        0,
        vec![
            tempo(0, 120),
            note("NormalTapNote", None, 2),
            note("NormalSlideStartNote", None, 2),
            note("NormalSlideEndNote", None, 2),
            note("NormalFlickNote", None, 2),
        ],
    );
    let timing = get_sound_timings(&chart, 0).unwrap();
    assert_eq!(instants(&timing, "#PERFECT"), Some(&vec![1_000_000]));
    assert_eq!(instants(&timing, "#PERFECT_ALTERNATIVE"), Some(&vec![1_000_000]));
}

#[test]
fn tracks_are_laid_out_in_a_fixed_order() {
    let chart = level(
        0,
        vec![
            tempo(0, 120),
            note("CriticalTraceFlickNote", None, 1),
            note("NormalSlideTickNote", None, 1),
            note("NormalTapNote", None, 1),
        ],
    );
    let timing = get_sound_timings(&chart, 0).unwrap();
    let names: Vec<&str> = timing.single.iter().map(|track| track.name.as_str()).collect();
    assert_eq!(names, vec!["#PERFECT", "Sekai Tick", "Sekai+ Critical Trace Flick"]);
}
