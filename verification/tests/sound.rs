use pjsekai_soundgen_core::codec::{decode_args, encode_args};
use pjsekai_soundgen_core::sound::Sound;

fn sound(data: Vec<i16>) -> Sound {
    Sound { data, bitrate: 48000 }
}

#[test]
fn empty_sound_has_default_bitrate() {
    let made = Sound::empty(None);
    assert_eq!(made.data, Vec::<i16>::new());
    assert_eq!(made.bitrate, 48000);
    assert_eq!(Sound::empty(Some(44100)).bitrate, 44100);
}

#[test]
fn overlay_at_grows_and_adds() {
    let base = sound(vec![1, 2, 3, 4]);
    let out = base.overlay_at(&sound(vec![10, 20, 30, 40]), 0);
    assert_eq!(out.data, vec![11, 22, 33, 44]);
    assert_eq!(out.bitrate, 48000);
    // one frame is a 48000th of a second, so 21 microseconds reach into the second frame
    let out = sound(vec![1, 2, 3, 4]).overlay_at(&sound(vec![10, 20, 30, 40]), 21);
    assert_eq!(out.data, vec![1, 2, 13, 24, 30, 40]);
}

#[test]
fn overlay_at_pads_a_gap_with_silence() {
    let out = sound(vec![5, 5]).overlay_at(&sound(vec![7, 7]), 63);
    assert_eq!(out.data, vec![5, 5, 0, 0, 0, 0, 7, 7]);
    let out = sound(vec![5, 5]).overlay_at(&sound(vec![]), 63);
    assert_eq!(out.data, vec![5, 5, 0, 0, 0, 0]);
}

#[test]
fn overlay_saturates_and_never_wraps() {
    let out = sound(vec![30000, -30000]).overlay_at(&sound(vec![30000, -30000]), 0);
    assert_eq!(out.data, vec![32767, -32768]);
}

#[test]
fn time_before_the_start_maps_to_the_first_sample() {
    let out = sound(vec![1, 1]).overlay_at(&sound(vec![2, 2]), -5_000_000);
    assert_eq!(out.data, vec![3, 3]);
}

#[test]
fn time_to_sample_conversion_truncates_whole_frames() {
    // 1 second at 48 kHz stereo is sample 96000
    let out = Sound::empty(None).overlay_at(&sound(vec![9, 9]), 1_000_000);
    assert_eq!(out.data.len(), 96002);
    assert_eq!(&out.data[96000..], &[9, 9]);
    assert!(out.data[..96000].iter().all(|&s| s == 0));
    // 20 microseconds are less than one frame
    let out = Sound::empty(None).overlay_at(&sound(vec![9, 9]), 20);
    assert_eq!(out.data, vec![9, 9]);
}

#[test]
fn overlay_loop_tiles_the_clip() {
    let clip = sound(vec![1, 2, 3, 4, 5, 6]);
    // frames 1 up to 6: ten samples from index 2 on
    let out = sound(vec![100; 4]).overlay_loop(&clip, 21, 125);
    assert_eq!(out.data, vec![100, 100, 101, 102, 3, 4, 5, 6, 1, 2, 3, 4]);
}

#[test]
fn overlay_loop_with_empty_clip_only_grows() {
    let out = sound(vec![1, 2]).overlay_loop(&sound(vec![]), 0, 63);
    assert_eq!(out.data, vec![1, 2, 0, 0, 0, 0]);
}

#[test]
fn overlay_loop_over_empty_span_writes_nothing() {
    let out = sound(vec![1, 2]).overlay_loop(&sound(vec![9, 9]), 63, 21);
    assert_eq!(out.data, vec![1, 2]);
    let out = sound(vec![1, 2]).overlay_loop(&sound(vec![9, 9]), 63, 63);
    assert_eq!(out.data, vec![1, 2, 0, 0, 0, 0]);
}

#[test]
fn overlay_until_cuts_the_clip_at_the_stop() {
    let clip = sound(vec![7; 8]);
    // stop at frame 2: only four samples are written
    let out = sound(vec![1; 10]).overlay_until(&clip, 0, 42);
    assert_eq!(out.data, vec![8, 8, 8, 8, 1, 1, 1, 1, 1, 1]);
}

#[test]
fn overlay_until_does_not_write_beyond_half_a_second() {
    // a clip of two seconds, stopped after half a second
    let clip = sound(vec![1000; 2 * 96000]);
    let out = sound(vec![5; 96000]).overlay_until(&clip, 0, 500_000);
    assert_eq!(out.data.len(), 96000);
    assert!(out.data[..48000].iter().all(|&s| s == 1005));
    assert!(out.data[48000..].iter().all(|&s| s == 5));
}

#[test]
fn overlay_until_writes_the_whole_clip_when_it_is_short() {
    let out = Sound::empty(None).overlay_until(&sound(vec![3, 4]), 0, 5_000_000);
    assert_eq!(out.data, vec![3, 4]);
}

#[test]
fn overlay_until_covers_the_region_to_its_last_sample() {
    // clip and region of exactly the same length
    let out = sound(vec![1; 4]).overlay_until(&sound(vec![2; 4]), 0, 42);
    assert_eq!(out.data, vec![3, 3, 3, 3]);
}

#[test]
fn overlay_until_with_stop_before_start_writes_nothing() {
    let out = sound(vec![1; 4]).overlay_until(&sound(vec![2; 4]), 42, 0);
    assert_eq!(out.data, vec![1; 4]);
}

#[test]
fn merging_two_buffers_commutes() {
    let a = sound(vec![30000, -5, 7, 12000, 1, 1]);
    let b = sound(vec![10000, -32768, 7, 32767]);
    let a_first = Sound::empty(None).overlay_at(&a, 0).overlay_at(&b, 0);
    let b_first = Sound::empty(None).overlay_at(&b, 0).overlay_at(&a, 0);
    assert_eq!(a_first.data, b_first.data);
    assert_eq!(a_first.data, vec![32767, -32768, 14, 32767, 1, 1]);
}

#[test]
fn scale_rounds_toward_zero() {
    let out = sound(vec![100, -100, 3, -3, 0]).scale(500_000);
    assert_eq!(out.data, vec![50, -50, 1, -1, 0]);
    let out = sound(vec![100, -100]).scale(1_000_000);
    assert_eq!(out.data, vec![100, -100]);
    let out = sound(vec![100, -100]).scale(0);
    assert_eq!(out.data, vec![0, 0]);
}

#[test]
fn scale_clips_at_the_sample_range() {
    let out = sound(vec![20000, -20000, 1]).scale(2_000_000);
    assert_eq!(out.data, vec![32767, -32768, 2]);
    let out = sound(vec![1, -1]).scale(i64::MAX);
    assert_eq!(out.data, vec![32767, -32768]);
    let out = sound(vec![5]).scale(-1_000_000);
    assert_eq!(out.data, vec![-5]);
}

#[test]
fn pcm_bytes_are_little_endian() {
    let made = Sound::from_pcm_bytes(&[0x01, 0x00, 0xff, 0xff, 0x00, 0x80, 0xff, 0x7f, 0x34]);
    assert_eq!(made.data, vec![1, -1, -32768, 32767]);
    assert_eq!(made.bitrate, 48000);
    assert_eq!(made.to_pcm_bytes(), vec![0x01, 0x00, 0xff, 0xff, 0x00, 0x80, 0xff, 0x7f]);
}

#[test]
fn pcm_bytes_round_trip() {
    let samples: Vec<i16> = vec![0, 1, -1, 255, 256, -256, -257, i16::MAX, i16::MIN, 12345, -12345];
    let bytes = sound(samples.clone()).to_pcm_bytes();
    let expected: Vec<u8> = samples.iter().flat_map(|s| s.to_le_bytes().to_vec()).collect();
    assert_eq!(bytes, expected);
    assert_eq!(Sound::from_pcm_bytes(&bytes).data, samples);
}

#[test]
fn clone_keeps_samples_and_rate() {
    let first = Sound { data: vec![1, 2, 3, 4], bitrate: 44100 };
    let copy = first.clone();
    assert_eq!(copy.data, first.data);
    assert_eq!(copy.bitrate, 44100);
}

#[test]
fn can_overlay_tells_what_fits() {
    let base = Sound::empty(None);
    let clip = sound(vec![1; 4]);
    assert!(base.can_overlay_at(&clip, 0));
    assert!(base.can_overlay_until(&clip, 0, 1_000_000));
    assert!(base.can_overlay_loop(1_000_000));
    let huge = Sound { data: vec![], bitrate: u32::MAX };
    assert!(!huge.can_overlay_at(&clip, i64::MAX));
    assert!(!huge.can_overlay_loop(i64::MAX));
    assert!(!huge.can_overlay_until(&clip, i64::MAX - 1, i64::MAX));
}

#[test]
fn decoder_is_asked_for_raw_stereo_at_48_khz() {
    assert_eq!(decode_args(&[]), vec!["-i", "-", "-ac", "2", "-f", "s16le", "-ar", "48k", "-"]);
    let extra = vec!["-ss".to_string(), "5".to_string()];
    assert_eq!(
        decode_args(&extra),
        vec!["-i", "-", "-ss", "5", "-ac", "2", "-f", "s16le", "-ar", "48k", "-"]
    );
}

#[test]
fn encoder_is_asked_for_a_constant_bitrate() {
    assert_eq!(
        encode_args(48000, "dist/x.mp3"),
        vec![
            "-y", "-f", "s16le", "-c:a", "pcm_s16le", "-ar", "48000", "-ac", "2", "-i", "-", "-b:a",
            "480k", "-maxrate", "480k", "-bufsize", "480k", "-minrate", "480k", "dist/x.mp3"
        ]
    );
}
