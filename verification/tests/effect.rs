use pjsekai_soundgen_core::effect::{Effect, EffectError};
use pjsekai_soundgen_core::sonolus::{EffectClip, EffectData};
use pjsekai_soundgen_core::sound::Sound;
use pjsekai_soundgen_core::vocabulary::{color_for, loop_sound_for, name_for, sound_for};
use std::io::{Cursor, Write};

fn archive(files: &[(&str, &[u8])]) -> zip::ZipArchive<Cursor<Vec<u8>>> {
    let mut writer = zip::ZipWriter::new(Cursor::new(Vec::new()));
    for (name, content) in files {
        writer.start_file(*name, zip::write::FileOptions::default()).unwrap();
        writer.write_all(content).unwrap();
    }
    let bytes = writer.finish().unwrap().into_inner();
    zip::ZipArchive::new(Cursor::new(bytes)).unwrap()
}

fn clip(name: &str, filename: &str) -> EffectClip {
    EffectClip { name: name.to_string(), filename: filename.to_string() }
}

#[test]
fn clip_files_come_out_in_the_order_of_the_list() {
    let mut zip = archive(&[("a.mp3", b"first file"), ("b.mp3", b"second"), ("c.mp3", b"")]);
    let data = EffectData { clips: vec![clip("#HOLD", "b.mp3"), clip("#PERFECT", "a.mp3"), clip("x", "b.mp3")] };
    let files = Effect::clip_files(&data, &mut zip).unwrap();
    assert_eq!(files, vec![b"second".to_vec(), b"first file".to_vec(), b"second".to_vec()]);
    // the archive gives the same when asked again
    assert_eq!(Effect::clip_files(&data, &mut zip).unwrap(), files);
}

#[test]
fn clip_without_file_is_an_error() {
    let mut zip = archive(&[("a.mp3", b"first file")]);
    let data = EffectData { clips: vec![clip("#PERFECT", "a.mp3"), clip("#HOLD", "missing.mp3"), clip("x", "gone")] };
    assert!(matches!(
        Effect::clip_files(&data, &mut zip),
        Err(EffectError::FileNotFound { clip: 1 })
    ));
}

#[test]
fn package_without_clips_has_no_files() {
    let mut zip = archive(&[("a.mp3", b"first file")]);
    let data = EffectData { clips: vec![] };
    assert_eq!(Effect::clip_files(&data, &mut zip).unwrap(), Vec::<Vec<u8>>::new());
}

#[test]
fn bank_pairs_names_and_sounds() {
    let data = EffectData { clips: vec![clip("#PERFECT", "a"), clip("#HOLD", "b"), clip("#PERFECT", "c")] };
    let sounds = vec![
        Sound { data: vec![1, 1], bitrate: 48000 },
        Sound { data: vec![2, 2], bitrate: 48000 },
        Sound { data: vec![3, 3], bitrate: 48000 },
    ];
    let bank = Effect::new(&data, sounds).unwrap();
    assert_eq!(bank.audio.len(), 3);
    assert_eq!(bank.audio[0].0, "#PERFECT");
    assert_eq!(bank.audio[0].1.data, vec![1, 1]);
    assert_eq!(bank.audio[1].0, "#HOLD");
    assert_eq!(bank.audio[2].1.data, vec![3, 3]);
    // a later clip of the same name replaces the earlier
    assert_eq!(bank.get("#PERFECT").unwrap().data, vec![3, 3]);
    assert_eq!(bank.get("#HOLD").unwrap().data, vec![2, 2]);
    assert!(bank.get("Sekai Tick").is_none());
}

#[test]
fn bank_needs_a_sound_for_every_clip() {
    let data = EffectData { clips: vec![clip("#PERFECT", "a"), clip("#HOLD", "b")] };
    assert!(Effect::new(&data, vec![Sound::empty(None)]).is_none());
    assert!(Effect::new(&data, vec![]).is_none());
    assert!(Effect::new(&EffectData { clips: vec![] }, vec![]).is_some());
}

#[test]
fn archetypes_play_their_effects() {
    assert_eq!(sound_for("NormalTapNote"), Some("#PERFECT"));
    assert_eq!(sound_for("CriticalSlideEndFlickNote"), Some("Sekai Critical Flick"));
    assert_eq!(sound_for("NonDirectionalTraceFlickNote"), Some("Sekai+ Normal Trace Flick"));
    assert_eq!(sound_for("TraceSlideEndNote"), Some("Sekai+ Normal Trace"));
    assert_eq!(sound_for("NormalSlideConnector"), None);
    assert_eq!(sound_for("#BPM_CHANGE"), None);
    assert_eq!(loop_sound_for("NormalSlideConnector"), Some("#HOLD"));
    assert_eq!(loop_sound_for("CriticalSlideConnector"), Some("Sekai Critical Hold"));
    assert_eq!(loop_sound_for("NormalTapNote"), None);
}

#[test]
fn effects_have_names_and_colours() {
    assert_eq!(name_for("#PERFECT"), Some("通常タップ"));
    assert_eq!(name_for("Sekai+ Critical Trace Flick"), Some("金トレースフリック"));
    assert_eq!(name_for("unknown"), None);
    let color = color_for("#PERFECT_ALTERNATIVE").unwrap();
    assert_eq!((color.fg, color.bg), ("red", "yellow"));
    let color = color_for("Sekai+ Normal Trace").unwrap();
    assert_eq!((color.fg, color.bg), ("black", "white"));
    assert!(color_for("unknown").is_none());
}

#[test]
fn clip_whose_file_is_damaged_is_an_error() {
    let mut writer = zip::ZipWriter::new(Cursor::new(Vec::new()));
    let stored = zip::write::FileOptions::default().compression_method(zip::CompressionMethod::Stored);
    writer.start_file("a.mp3", stored).unwrap();
    writer.write_all(b"first file").unwrap();
    writer.start_file("b.mp3", stored).unwrap();
    writer.write_all(b"second file").unwrap();
    let mut bytes = writer.finish().unwrap().into_inner();
    let at = bytes.windows(11).position(|window| window == b"second file").unwrap();
    bytes[at] = b'S';
    let mut zip = zip::ZipArchive::new(Cursor::new(bytes)).unwrap();
    let data = EffectData { clips: vec![clip("#PERFECT", "a.mp3"), clip("#HOLD", "b.mp3")] };
    match Effect::clip_files(&data, &mut zip) {
        Err(error) => {
            assert!(matches!(error, EffectError::FileUnreadable { clip: 1 }));
            assert_eq!(error.message(), "効果音のファイルが読み込めませんでした");
        },
        Ok(files) => panic!("{:?}", files),
    }
    assert_eq!(EffectError::FileNotFound { clip: 0 }.message(), "効果音のファイルが見つかりませんでした");
}

fn raw_archive(name: &str, data: &[u8], flags: u16, extra: &[u8]) -> Vec<u8> {
    let mut sum = flate2::Crc::new();
    sum.update(data);
    let fields = |bytes: &mut Vec<u8>| {
        bytes.extend(20u16.to_le_bytes());
        bytes.extend(flags.to_le_bytes());
        bytes.extend([0u8; 6]);
        bytes.extend(sum.sum().to_le_bytes());
        bytes.extend((data.len() as u32).to_le_bytes());
        bytes.extend((data.len() as u32).to_le_bytes());
        bytes.extend((name.len() as u16).to_le_bytes());
    };
    let mut bytes = Vec::new();
    bytes.extend(0x0403_4b50u32.to_le_bytes());
    fields(&mut bytes);
    bytes.extend(0u16.to_le_bytes());
    bytes.extend(name.as_bytes());
    bytes.extend(data);
    let directory = bytes.len() as u32;
    bytes.extend(0x0201_4b50u32.to_le_bytes());
    bytes.extend(20u16.to_le_bytes());
    fields(&mut bytes);
    bytes.extend((extra.len() as u16).to_le_bytes());
    bytes.extend([0u8; 14]);
    bytes.extend(name.as_bytes());
    bytes.extend(extra);
    let size = bytes.len() as u32 - directory;
    bytes.extend(0x0605_4b50u32.to_le_bytes());
    bytes.extend([0, 0, 0, 0, 1, 0, 1, 0]);
    bytes.extend(size.to_le_bytes());
    bytes.extend(directory.to_le_bytes());
    bytes.extend(0u16.to_le_bytes());
    bytes
}

#[test]
fn archive_written_by_hand_is_read() {
    let bytes = raw_archive("a.mp3", b"first file", 0, &[]);
    let mut zip = zip::ZipArchive::new(Cursor::new(bytes)).unwrap();
    let data = EffectData { clips: vec![clip("#PERFECT", "a.mp3")] };
    assert_eq!(Effect::clip_files(&data, &mut zip).unwrap(), vec![b"first file".to_vec()]);
}

#[test]
fn file_marked_for_a_cipher_counts_as_not_found() {
    // an entry that is not flagged as locked, but whose record names a cipher
    let cipher = [0x01, 0x99, 0x07, 0x00, 0x02, 0x00, 0x41, 0x45, 0x03, 0x00, 0x00];
    let bytes = raw_archive("a.mp3", b"first file", 0, &cipher);
    let mut zip = zip::ZipArchive::new(Cursor::new(bytes)).unwrap();
    assert_eq!(zip.file_names().collect::<Vec<_>>(), vec!["a.mp3"]);
    // the archive knows the file and refuses to open it
    assert!(matches!(zip.by_name_decrypt("a.mp3", &[]), Ok(Err(_))));
    let data = EffectData { clips: vec![clip("#PERFECT", "a.mp3")] };
    assert!(matches!(
        Effect::clip_files(&data, &mut zip),
        Err(EffectError::FileNotFound { clip: 0 })
    ));
}

#[test]
fn file_locked_by_a_password_counts_as_not_found() {
    // flagged as locked, and too short to hold even the header of the cipher
    let bytes = raw_archive("a.mp3", b"short", 1, &[]);
    let mut zip = zip::ZipArchive::new(Cursor::new(bytes)).unwrap();
    assert_eq!(zip.file_names().collect::<Vec<_>>(), vec!["a.mp3"]);
    assert!(matches!(zip.by_name_decrypt("a.mp3", &[]), Err(_)));
    let data = EffectData { clips: vec![clip("#PERFECT", "a.mp3")] };
    assert!(matches!(
        Effect::clip_files(&data, &mut zip),
        Err(EffectError::FileNotFound { clip: 0 })
    ));
}
