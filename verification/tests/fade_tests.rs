use panaud::ops::fade::FadeOp;
use panaud::time::{Seconds, TimeSpec};
use panaud::types::AudioData;

const ATTO: i128 = 1_000_000_000_000_000_000;

fn seconds(tenths: i128) -> TimeSpec {
    TimeSpec::Seconds(Seconds::Atto(tenths * ATTO / 10))
}

fn ramp_in(x: f32, frame: u64, n: u64) -> f32 {
    x * (frame as f32 / n as f32)
}

fn ramp_out(x: f32, offset: u64, n: u64) -> f32 {
    x * (1.0 - (offset as f32 / n as f32))
}

fn test_audio() -> AudioData<f32> {
    AudioData { samples: vec![1.0; 200], sample_rate: 100, channels: 2 }
}

#[test]
fn fade_in_only() {
    let audio = test_audio();
    let op = FadeOp::from_specs(Some(seconds(5)), None).unwrap();
    let result = op.apply(audio, ramp_in, ramp_out).unwrap();
    assert_eq!(result.samples[0], 0.0);
    assert_eq!(result.samples[1], 0.0);
    assert!((result.samples[50] - 0.5).abs() < 1e-6);
    assert!((result.samples[100] - 1.0).abs() < 1e-6);
}

#[test]
fn fade_out_only() {
    let audio = test_audio();
    let op = FadeOp::from_specs(None, Some(seconds(5))).unwrap();
    let result = op.apply(audio, ramp_in, ramp_out).unwrap();
    assert!((result.samples[0] - 1.0).abs() < 1e-6);
    let last_idx = result.samples.len() - 2;
    assert!(result.samples[last_idx].abs() < 0.05);
}

#[test]
fn fade_in_and_out() {
    let audio = test_audio();
    let op = FadeOp::from_specs(Some(seconds(2)), Some(seconds(2))).unwrap();
    let result = op.apply(audio, ramp_in, ramp_out).unwrap();
    assert_eq!(result.samples[0], 0.0);
    assert!((result.samples[result.samples.len() - 2]).abs() < 0.1);
    assert!((result.samples[100] - 1.0).abs() < 1e-6);
}

#[test]
fn fade_exceeds_length() {
    let audio = test_audio();
    let op = FadeOp::from_specs(Some(seconds(6)), Some(seconds(6))).unwrap();
    assert!(op.apply(audio, ramp_in, ramp_out).is_err());
}

#[test]
fn fade_requires_at_least_one() {
    assert!(FadeOp::new(None, None).is_err());
    assert!(FadeOp::from_specs(None, None).is_err());
}

#[test]
fn fade_from_text() {
    let op = FadeOp::new(Some("2s"), Some("0:03")).unwrap();
    assert_eq!(op.fade_in, Some(seconds(20)));
    assert_eq!(op.fade_out, Some(seconds(30)));
    assert!(FadeOp::new(Some("soon"), None).is_err());
}

#[test]
fn fades_too_long_to_add_are_refused() {
    let audio = test_audio();
    let op = FadeOp::from_specs(Some(TimeSpec::Samples(u64::MAX)), Some(TimeSpec::Samples(u64::MAX))).unwrap();
    match op.apply(audio, ramp_in, ramp_out) {
        Err(panaud::error::PanaudError::InvalidArgument { message, .. }) => {
            assert!(message.starts_with("fade-in (18446744073709551615 frames) + fade-out"));
        }
        other => panic!("unexpected: {:?}", other.map(|a| a.samples.len())),
    }
}
