use panaud::error::PanaudError;
use panaud::ops::trim::TrimOp;
use panaud::time::{Seconds, TimeSpec};
use panaud::types::AudioData;

const ATTO: i128 = 1_000_000_000_000_000_000;

fn tenths(t: i128) -> TimeSpec {
    TimeSpec::Seconds(Seconds::Atto(t * ATTO / 10))
}

fn test_audio() -> AudioData<f32> {
    AudioData { samples: (0..200).map(|i| i as f32 / 200.0).collect(), sample_rate: 100, channels: 2 }
}

#[test]
fn trim_start_to_end() {
    let audio = test_audio();
    let op = TrimOp::from_specs(tenths(5), None);
    let result = op.apply(audio).unwrap();
    assert_eq!(result.num_frames(), 50);
    assert_eq!(result.channels, 2);
    assert_eq!(result.sample_rate, 100);
}

#[test]
fn trim_start_and_end() {
    let audio = test_audio();
    let op = TrimOp::from_specs(tenths(2), Some(tenths(8)));
    let result = op.apply(audio).unwrap();
    assert_eq!(result.num_frames(), 60);
}

#[test]
fn trim_with_samples() {
    let audio = test_audio();
    let op = TrimOp::from_specs(TimeSpec::Samples(10), Some(TimeSpec::Samples(50)));
    let result = op.apply(audio).unwrap();
    assert_eq!(result.num_frames(), 40);
}

#[test]
fn trim_start_out_of_range() {
    let audio = test_audio();
    let op = TrimOp::from_specs(tenths(20), None);
    match op.apply(audio) {
        Err(PanaudError::TrimOutOfRange { message, suggestion }) => {
            assert_eq!(message, "start position (frame 200) is beyond audio length (100 frames)");
            assert_eq!(suggestion, "audio is 1.00s long; use a start time within that range");
        }
        other => panic!("unexpected: {:?}", other),
    }
}

#[test]
fn trim_end_before_start() {
    let audio = test_audio();
    let op = TrimOp::from_specs(tenths(5), Some(tenths(2)));
    match op.apply(audio) {
        Err(PanaudError::TrimOutOfRange { message, .. }) => {
            assert_eq!(message, "end position (frame 20) must be after start (frame 50)");
        }
        other => panic!("unexpected: {:?}", other),
    }
}

#[test]
fn trim_from_string() {
    let op = TrimOp::new("1:30", Some("2:00")).unwrap();
    assert_eq!(op.start, tenths(900));
    assert_eq!(op.end, Some(tenths(1200)));
}

#[test]
fn trim_keeps_the_frames_in_range() {
    let audio = test_audio();
    let op = TrimOp::from_specs(TimeSpec::Samples(3), Some(TimeSpec::Samples(5)));
    let result = op.apply(audio.clone()).unwrap();
    assert_eq!(result.samples, audio.samples[6..10].to_vec());
}

#[test]
fn trim_description() {
    let op = TrimOp::from_specs(tenths(905), None);
    assert_eq!(op.description(), "Trim audio from 1:30.50 to end");
}
