use panaud::error::PanaudError;
use panaud::ops::concat::concat_audio;
use panaud::types::AudioData;

#[test]
fn concat_two() {
    let a = AudioData { samples: vec![1.0, 2.0], sample_rate: 44100, channels: 1 };
    let b = AudioData { samples: vec![3.0, 4.0], sample_rate: 44100, channels: 1 };
    let result = concat_audio(vec![a, b]).unwrap();
    assert_eq!(result.samples, vec![1.0, 2.0, 3.0, 4.0]);
    assert_eq!(result.sample_rate, 44100);
    assert_eq!(result.channels, 1);
}

#[test]
fn concat_mismatched_rate() {
    let a = AudioData { samples: vec![1.0], sample_rate: 44100, channels: 1 };
    let b = AudioData { samples: vec![1.0], sample_rate: 48000, channels: 1 };
    assert!(concat_audio(vec![a, b]).is_err());
}

#[test]
fn concat_mismatched_channels() {
    let a = AudioData { samples: vec![1.0, 2.0], sample_rate: 44100, channels: 2 };
    let b = AudioData { samples: vec![1.0], sample_rate: 44100, channels: 1 };
    assert!(concat_audio(vec![a, b]).is_err());
}

#[test]
fn concat_empty() {
    let none: Vec<AudioData<f32>> = vec![];
    assert!(concat_audio(none).is_err());
}

#[test]
fn concat_single() {
    let a = AudioData { samples: vec![1.0, 2.0], sample_rate: 44100, channels: 1 };
    let result = concat_audio(vec![a]).unwrap();
    assert_eq!(result.samples, vec![1.0, 2.0]);
}

#[test]
fn concat_reports_first_mismatch() {
    let a = AudioData { samples: vec![1.0f32], sample_rate: 44100, channels: 1 };
    let b = AudioData { samples: vec![2.0f32, 3.0], sample_rate: 44100, channels: 2 };
    let c = AudioData { samples: vec![4.0f32], sample_rate: 8000, channels: 1 };
    match concat_audio(vec![a, b, c]) {
        Err(PanaudError::FormatMismatch { message, .. }) => {
            assert_eq!(message, "input 1 has 2 channels, but input 0 has 1 channels");
        }
        other => panic!("unexpected: {:?}", other),
    }
}
