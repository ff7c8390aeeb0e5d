use panaud::ops::channels::{ChannelMode, ChannelSelector, ChannelsOp};
use panaud::types::AudioData;

fn average(v: &Vec<f32>, start: usize, n: usize) -> f32 {
    let mut sum = 0.0_f32;
    for i in start..start + n {
        sum += v[i];
    }
    sum / n as f32
}

fn stereo_audio() -> AudioData<f32> {
    AudioData {
        samples: vec![1.0, 0.0, 0.5, -0.5, 0.2, -0.2],
        sample_rate: 44100,
        channels: 2,
    }
}

fn mono_audio() -> AudioData<f32> {
    AudioData {
        samples: vec![0.5, -0.5, 0.3],
        sample_rate: 44100,
        channels: 1,
    }
}

#[test]
fn to_mono() {
    let op = ChannelsOp::new(ChannelMode::Mono);
    let result = op.apply(stereo_audio(), average).unwrap();
    assert_eq!(result.channels, 1);
    assert_eq!(result.num_frames(), 3);
    assert!((result.samples[0] - 0.5).abs() < 1e-6);
}

#[test]
fn mono_to_stereo() {
    let op = ChannelsOp::new(ChannelMode::Stereo);
    let result = op.apply(mono_audio(), average).unwrap();
    assert_eq!(result.channels, 2);
    assert_eq!(result.num_frames(), 3);
    assert!((result.samples[0] - 0.5).abs() < 1e-6);
    assert!((result.samples[1] - 0.5).abs() < 1e-6);
}

#[test]
fn extract_left() {
    let op = ChannelsOp::new(ChannelMode::Extract(ChannelSelector::Left));
    let result = op.apply(stereo_audio(), average).unwrap();
    assert_eq!(result.channels, 1);
    assert_eq!(result.num_frames(), 3);
    assert!((result.samples[0] - 1.0).abs() < 1e-6);
    assert!((result.samples[1] - 0.5).abs() < 1e-6);
}

#[test]
fn extract_right() {
    let op = ChannelsOp::new(ChannelMode::Extract(ChannelSelector::Right));
    let result = op.apply(stereo_audio(), average).unwrap();
    assert_eq!(result.channels, 1);
    assert!((result.samples[0] - 0.0).abs() < 1e-6);
    assert!((result.samples[1] - (-0.5)).abs() < 1e-6);
}

#[test]
fn extract_right_from_mono_errors() {
    let op = ChannelsOp::new(ChannelMode::Extract(ChannelSelector::Right));
    assert!(op.apply(mono_audio(), average).is_err());
}

#[test]
fn already_mono_noop() {
    let op = ChannelsOp::new(ChannelMode::Mono);
    let audio = mono_audio();
    let len = audio.samples.len();
    let result = op.apply(audio, average).unwrap();
    assert_eq!(result.samples.len(), len);
}

#[test]
fn count_zero_errors() {
    let op = ChannelsOp::new(ChannelMode::Count(0));
    assert!(op.apply(stereo_audio(), average).is_err());
}

#[test]
fn count_downmix_keeps_first_n() {
    let audio = AudioData {
        samples: vec![1.0, 2.0, 3.0, 4.0, 5.0, 6.0, 7.0, 8.0],
        sample_rate: 44100,
        channels: 4,
    };
    let op = ChannelsOp::new(ChannelMode::Count(2));
    let result = op.apply(audio, average).unwrap();
    assert_eq!(result.channels, 2);
    assert_eq!(result.samples, vec![1.0, 2.0, 5.0, 6.0]);
}

#[test]
fn count_upmix_copies_the_mix() {
    let op = ChannelsOp::new(ChannelMode::Count(3));
    let result = op.apply(stereo_audio(), average).unwrap();
    assert_eq!(result.channels, 3);
    assert_eq!(result.samples.len(), 9);
    assert!((result.samples[0] - 0.5).abs() < 1e-6);
    assert!((result.samples[2] - 0.5).abs() < 1e-6);
    assert!((result.samples[3] - 0.0).abs() < 1e-6);
}

#[test]
fn extract_index_out_of_range_errors() {
    let op = ChannelsOp::new(ChannelMode::Extract(ChannelSelector::Index(2)));
    match op.apply(stereo_audio(), average) {
        Err(panaud::error::PanaudError::InvalidArgument { message, suggestion }) => {
            assert_eq!(message, "channel index 2 is out of range (audio has 2 channels)");
            assert_eq!(suggestion, "use an index between 0 and 1");
        }
        other => panic!("unexpected: {:?}", other),
    }
}

#[test]
fn channel_mode_texts() {
    assert_eq!(ChannelMode::Mono.to_display_string(), "mono");
    assert_eq!(ChannelMode::Count(5).to_display_string(), "5 channels");
    assert_eq!(ChannelSelector::Index(3).to_display_string(), "channel 3");
    assert_eq!(ChannelsOp::new(ChannelMode::Stereo).description(), "Convert channels: stereo");
}

#[test]
fn stereo_then_extract_gives_back_mono() {
    let stereo = ChannelsOp::new(ChannelMode::Stereo).apply(mono_audio(), average).unwrap();
    for side in [ChannelSelector::Left, ChannelSelector::Right] {
        let back = ChannelsOp::new(ChannelMode::Extract(side)).apply(stereo.clone(), average).unwrap();
        assert_eq!(back.samples, mono_audio().samples);
        assert_eq!(back.channels, 1);
    }
}
