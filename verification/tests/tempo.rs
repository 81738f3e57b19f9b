use pjsekai_soundgen_core::tempo::{BpmChange, TempoError, TempoMap};

fn change(beat: i64, bpm: i64) -> BpmChange {
    BpmChange { beat: beat * 1_000_000, bpm: bpm * 1_000_000 }
}

#[test]
fn single_tempo_resolves_two_beats_to_one_second() {
    let map = TempoMap::new(&vec![change(0, 120)], 0, 0).unwrap();
    assert_eq!(map.resolve_time(2_000_000), Some(1_000_000));
}

#[test]
fn two_tempi_resolve_segment_by_segment() {
    let map = TempoMap::new(&vec![change(0, 120), change(4, 60)], 0, 0).unwrap();
    assert_eq!(map.resolve_time(6_000_000), Some(4_000_000));
    assert_eq!(map.resolve_time(4_000_000), Some(2_000_000));
    assert_eq!(map.resolve_time(0), Some(0));
}

#[test]
fn offsets_are_added_to_every_time() {
    let map = TempoMap::new(&vec![change(0, 120)], 250_000, -100_000).unwrap();
    assert_eq!(map.resolve_time(2_000_000), Some(1_150_000));
    assert_eq!(map.resolve_time(0), Some(150_000));
}

#[test]
fn changes_are_put_in_order_of_beat() {
    let map = TempoMap::new(&vec![change(4, 60), change(0, 120)], 0, 0).unwrap();
    assert_eq!(map.resolve_time(6_000_000), Some(4_000_000));
}

#[test]
fn later_change_at_the_same_beat_wins() {
    let map = TempoMap::new(&vec![change(0, 120), change(4, 240), change(4, 60)], 0, 0).unwrap();
    assert_eq!(map.resolve_time(6_000_000), Some(4_000_000));
    let map = TempoMap::new(&vec![change(0, 120), change(4, 60), change(4, 240)], 0, 0).unwrap();
    assert_eq!(map.resolve_time(6_000_000), Some(2_500_000));
}

#[test]
fn query_order_does_not_matter() {
    let map = TempoMap::new(&vec![change(0, 120), change(4, 60)], 0, 0).unwrap();
    let late_first = (map.resolve_time(6_000_000), map.resolve_time(1_000_000));
    let early_first = (map.resolve_time(1_000_000), map.resolve_time(6_000_000));
    assert_eq!(late_first.0, early_first.1);
    assert_eq!(late_first.1, early_first.0);
    assert_eq!(early_first.0, Some(500_000));
}

#[test]
fn fractional_beats_round_toward_zero() {
    let map = TempoMap::new(&vec![BpmChange { beat: 0, bpm: 90_000_000 }], 0, 0).unwrap();
    // one beat at 90 BPM lasts two thirds of a second
    assert_eq!(map.resolve_time(1_000_000), Some(666_666));
    assert_eq!(map.resolve_time(-1_000_000), Some(-666_666));
}

#[test]
fn beats_before_the_first_change_use_its_tempo() {
    let map = TempoMap::new(&vec![change(-4, 120), change(0, 60)], 0, 0).unwrap();
    assert_eq!(map.resolve_time(-6_000_000), Some(-3_000_000));
    assert_eq!(map.resolve_time(0), Some(0));
    assert_eq!(map.resolve_time(1_000_000), Some(1_000_000));
}

#[test]
fn chart_without_tempo_is_refused() {
    assert!(matches!(TempoMap::new(&vec![], 0, 0), Err(TempoError::NoInitialTempo)));
    assert!(matches!(TempoMap::new(&vec![change(1, 120)], 0, 0), Err(TempoError::NoInitialTempo)));
}

#[test]
fn tempo_that_is_not_positive_is_refused() {
    assert!(matches!(
        TempoMap::new(&vec![change(0, 120), change(2, 0), change(3, -1)], 0, 0),
        Err(TempoError::InvalidTempo { index: 1 })
    ));
}

#[test]
fn time_beyond_the_machine_range_is_none() {
    let map = TempoMap::new(&vec![BpmChange { beat: 0, bpm: 1 }], 0, 0).unwrap();
    assert_eq!(map.resolve_time(i64::MAX), None);
    assert_eq!(map.resolve_time(1), Some(60_000_000));
}
