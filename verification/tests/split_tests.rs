use panaud::error::PanaudError;
use panaud::ops::split::{split_audio, SplitMode};
use panaud::ops::concat::concat_audio;
use panaud::time::{Seconds, TimeSpec};
use panaud::types::AudioData;

const ATTO: i128 = 1_000_000_000_000_000_000;

fn seconds(s: i128) -> TimeSpec {
    TimeSpec::Seconds(Seconds::Atto(s * ATTO))
}

fn test_audio() -> AudioData<f32> {
    AudioData { samples: (0..100).map(|i| i as f32).collect(), sample_rate: 10, channels: 1 }
}

#[test]
fn split_by_count() {
    let audio = test_audio();
    let parts = split_audio(&audio, &SplitMode::Count(4)).unwrap();
    assert_eq!(parts.len(), 4);
    assert_eq!(parts[0].num_frames(), 25);
    assert_eq!(parts[1].num_frames(), 25);
    assert_eq!(parts[2].num_frames(), 25);
    assert_eq!(parts[3].num_frames(), 25);
}

#[test]
fn split_by_duration() {
    let audio = test_audio();
    let parts = split_audio(&audio, &SplitMode::Duration(seconds(3))).unwrap();
    assert_eq!(parts.len(), 4);
    assert_eq!(parts[0].num_frames(), 30);
    assert_eq!(parts[3].num_frames(), 10);
}

#[test]
fn split_at_points() {
    let audio = test_audio();
    let parts = split_audio(&audio, &SplitMode::At(vec![seconds(3), seconds(7)])).unwrap();
    assert_eq!(parts.len(), 3);
    assert_eq!(parts[0].num_frames(), 30);
    assert_eq!(parts[1].num_frames(), 40);
    assert_eq!(parts[2].num_frames(), 30);
}

#[test]
fn split_count_one_errors() {
    let audio = test_audio();
    assert!(split_audio(&audio, &SplitMode::Count(1)).is_err());
}

#[test]
fn split_duration_too_long() {
    let audio = test_audio();
    assert!(split_audio(&audio, &SplitMode::Duration(seconds(20))).is_err());
}

#[test]
fn split_empty_audio() {
    let audio: AudioData<f32> = AudioData { samples: vec![], sample_rate: 44100, channels: 1 };
    match split_audio(&audio, &SplitMode::Count(2)) {
        Err(PanaudError::SplitError { .. }) => {}
        other => panic!("unexpected: {:?}", other),
    }
}

#[test]
fn split_then_concat_gives_back_the_audio() {
    let audio = test_audio();
    let parts = split_audio(&audio, &SplitMode::Count(3)).unwrap();
    let joined = concat_audio(parts).unwrap();
    assert_eq!(joined.samples, audio.samples);
    let parts = split_audio(&audio, &SplitMode::At(vec![seconds(7), seconds(3), seconds(3)])).unwrap();
    assert_eq!(parts.len(), 3);
    let joined = concat_audio(parts).unwrap();
    assert_eq!(joined.samples, audio.samples);
}

#[test]
fn split_count_uneven_puts_the_rest_in_the_last_part() {
    let audio = test_audio();
    let parts = split_audio(&audio, &SplitMode::Count(3)).unwrap();
    assert_eq!(parts.len(), 3);
    assert_eq!(parts[0].num_frames(), 33);
    assert_eq!(parts[1].num_frames(), 33);
    assert_eq!(parts[2].num_frames(), 34);
}

#[test]
fn split_count_gives_rest_to_last_part() {
    let audio = AudioData { samples: (0..103).map(|i| i as f32).collect(), sample_rate: 10, channels: 1 };
    let parts = split_audio(&audio, &SplitMode::Count(4)).unwrap();
    assert_eq!(parts.len(), 4);
    assert_eq!(parts[0].num_frames(), 25);
    assert_eq!(parts[3].num_frames(), 28);
    assert!(split_audio(&audio, &SplitMode::Count(104)).is_err());
    assert!(split_audio(&audio, &SplitMode::Count(103)).is_ok());
}

#[test]
fn split_at_ignores_order_and_repeats() {
    let audio = test_audio();
    let a = split_audio(&audio, &SplitMode::At(vec![seconds(3), seconds(7)])).unwrap();
    let b = split_audio(&audio, &SplitMode::At(vec![seconds(7), seconds(3), seconds(7), seconds(20)])).unwrap();
    assert_eq!(a.len(), b.len());
    for (x, y) in a.iter().zip(b.iter()) {
        assert_eq!(x.samples, y.samples);
    }
}
