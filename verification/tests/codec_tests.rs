use panaud::codec::{CodecRegistry, EncodeRoute};
use panaud::error::PanaudError;
use panaud::types::AudioFormat;

#[test]
fn routes_by_format() {
    assert_eq!(CodecRegistry::route(AudioFormat::Wav).unwrap(), EncodeRoute::Wav);
    assert_eq!(CodecRegistry::route(AudioFormat::Flac).unwrap(), EncodeRoute::Flac);
    assert_eq!(CodecRegistry::route(AudioFormat::Mp3).unwrap(), EncodeRoute::Mp3);
    match CodecRegistry::route(AudioFormat::Ogg) {
        Err(PanaudError::UnsupportedFormat { format, suggestion }) => {
            assert_eq!(format, "OGG");
            assert_eq!(suggestion, "supported output formats: WAV, FLAC, MP3; enable features for more");
        }
        other => panic!("unexpected: {:?}", other),
    }
}

fn tone(frames: usize, channels: usize) -> Vec<i32> {
    let mut v = Vec::new();
    for i in 0..frames {
        for _ in 0..channels {
            v.push(((i % 100) as i32 - 50) * 300);
        }
    }
    v
}

#[test]
fn flac_stream_is_made() {
    let bytes = CodecRegistry::encode_flac(&tone(8000, 2), 2, 8000, "out.flac").unwrap();
    assert!(bytes.len() > 42);
    assert_eq!(&bytes[0..4], b"fLaC");
}

#[test]
fn flac_refuses_bad_channel_count() {
    match CodecRegistry::encode_flac(&tone(100, 9), 9, 8000, "x.flac") {
        Err(PanaudError::EncodeError { path, message, suggestion }) => {
            assert_eq!(path, Some("x.flac".to_string()));
            assert!(message.starts_with("FLAC encoding failed: "));
            assert_eq!(suggestion, "check that the audio data is valid");
        }
        other => panic!("unexpected: {:?}", other),
    }
}

#[test]
fn mp3_stream_is_made() {
    let pcm: Vec<i16> = tone(44100, 2).into_iter().map(|s| s as i16).collect();
    let bytes = CodecRegistry::encode_mp3(&pcm, 2, 44100, "out.mp3").unwrap().bytes;
    assert!(bytes.len() > 100);
    assert!(bytes.len() <= pcm.len() + pcm.len() / 4 + 7200);
}

#[test]
fn mp3_refuses_bad_rate() {
    let pcm: Vec<i16> = vec![0; 2000];
    match CodecRegistry::encode_mp3(&pcm, 2, 7, "x.mp3") {
        Err(PanaudError::EncodeError { path, .. }) => assert_eq!(path, Some("x.mp3".to_string())),
        Ok(_) => {}
        Err(other) => panic!("unexpected: {:?}", other),
    }
}

#[test]
fn flac_stream_info_records_the_parameters() {
    let bytes = CodecRegistry::encode_flac(&tone(8000, 2), 2, 8000, "out.flac").unwrap();
    assert_eq!(&bytes[4..8], &[0x80, 0, 0, 34]);
    assert_eq!(&bytes[18..26], &[1, 244, 2, 240, 0, 0, 0x1F, 0x40]);
}

#[test]
fn flac_refuses_high_sample_rate() {
    match CodecRegistry::encode_flac(&tone(100, 2), 2, 192000, "hi.flac") {
        Err(PanaudError::EncodeError { path, message, .. }) => {
            assert_eq!(path, Some("hi.flac".to_string()));
            assert!(message.starts_with("FLAC encoding failed: "));
        }
        other => panic!("unexpected: {:?}", other),
    }
}

#[test]
fn mp3_refuses_three_channels() {
    let pcm: Vec<i16> = vec![0; 3000];
    match CodecRegistry::encode_mp3(&pcm, 3, 44100, "x.mp3") {
        Err(PanaudError::EncodeError { path, message, suggestion }) => {
            assert_eq!(path, Some("x.mp3".to_string()));
            assert_eq!(message, "set channels: error");
            assert_eq!(suggestion, "check audio parameters (sample rate, channels)");
        }
        Ok(_) => panic!("three channels were accepted"),
        Err(other) => panic!("unexpected: {:?}", other),
    }
}

#[test]
fn mp3_refuses_zero_sample_rate() {
    let pcm: Vec<i16> = vec![0; 2000];
    match CodecRegistry::encode_mp3(&pcm, 2, 0, "z.mp3") {
        Err(PanaudError::EncodeError { message, .. }) => assert_eq!(message, "set sample rate: error"),
        Ok(_) => panic!("a zero rate was accepted"),
        Err(other) => panic!("unexpected: {:?}", other),
    }
}

#[test]
fn flac_digest_follows_the_samples() {
    let a = CodecRegistry::encode_flac(&tone(4000, 2), 2, 8000, "a.flac").unwrap();
    let b = CodecRegistry::encode_flac(&tone(4000, 2), 2, 8000, "b.flac").unwrap();
    let z = CodecRegistry::encode_flac(&vec![0; 8000], 2, 8000, "z.flac").unwrap();
    assert_eq!(&a[26..42], &b[26..42]);
    assert_ne!(&a[26..42], &z[26..42]);
}

#[test]
fn flac_refuses_many_channels() {
    match CodecRegistry::encode_flac(&tone(100, 2), 257, 8000, "m.flac") {
        Err(PanaudError::EncodeError { message, .. }) => assert!(message.starts_with("FLAC encoding failed: ")),
        other => panic!("unexpected: {:?}", other),
    }
}

#[test]
fn mp3_samples_drop_an_odd_last_sample() {
    let mut pcm: Vec<i16> = tone(44100, 2).into_iter().map(|s| s as i16).collect();
    pcm.push(5);
    let stream = CodecRegistry::encode_mp3_samples(pcm, 2, 44100, "odd.mp3").unwrap();
    assert!(stream.bytes.len() > 100);
}
