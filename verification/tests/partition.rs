use pjsekai_soundgen_core::config::Settings;
use pjsekai_soundgen_core::partition::{partition, NO_SPLITTING};

fn lengths(chunks: &Vec<Vec<i64>>) -> Vec<usize> {
    chunks.iter().map(|chunk| chunk.len()).collect()
}

#[test]
fn ten_instants_in_chunks_of_three_are_spread_evenly() {
    let times: Vec<i64> = (0..10).collect();
    let chunks = partition(&times, 3);
    assert_eq!(lengths(&chunks), vec![3, 3, 2, 2]);
    assert_eq!(chunks.concat(), times);
}

#[test]
fn chunk_size_beyond_the_list_gives_one_chunk() {
    let times: Vec<i64> = (0..10).collect();
    let chunks = partition(&times, 1000);
    assert_eq!(chunks, vec![times]);
}

#[test]
fn chunk_size_that_divides_the_list_gives_full_chunks() {
    let times: Vec<i64> = (0..9).collect();
    assert_eq!(lengths(&partition(&times, 3)), vec![3, 3, 3]);
    assert_eq!(lengths(&partition(&times, 1)), vec![1; 9]);
}

#[test]
fn empty_list_has_no_chunks() {
    assert_eq!(partition(&vec![], 3), Vec::<Vec<i64>>::new());
}

#[test]
fn chunks_differ_by_one_at_most_and_keep_the_order() {
    for len in 1..40i64 {
        for size in 1..12usize {
            let times: Vec<i64> = (0..len).map(|t| t * 7).collect();
            let chunks = partition(&times, size);
            let lens = lengths(&chunks);
            assert_eq!(chunks.len(), (len as usize + size - 1) / size);
            assert!(lens.iter().all(|&l| 1 <= l && l <= size));
            assert!(lens.iter().max().unwrap() - lens.iter().min().unwrap() <= 1);
            assert_eq!(chunks.concat(), times);
        }
    }
}

#[test]
fn default_chunk_size_never_splits() {
    let times: Vec<i64> = (0..5000).collect();
    assert_eq!(partition(&times, NO_SPLITTING), vec![times.clone()]);
    assert_eq!(partition(&times, Settings::default().notes_per_thread), vec![times]);
    assert_eq!(partition(&vec![], NO_SPLITTING), Vec::<Vec<i64>>::new());
}

#[test]
fn default_settings_change_nothing() {
    let settings = Settings::default();
    assert_eq!(settings.bgm_volume, 1_000_000);
    assert_eq!(settings.shift, 0);
    assert!(!settings.silent);
    assert_eq!(settings.notes_per_thread, usize::MAX);
    assert!(settings.is_valid());
    assert!(!Settings { notes_per_thread: 0, ..settings }.is_valid());
}
