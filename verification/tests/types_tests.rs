use panaud::types::{interleave, AudioData, AudioFormat};

#[test]
fn audio_data_num_frames() {
    let data: AudioData<f32> = AudioData { samples: vec![0.0; 100], sample_rate: 44100, channels: 2 };
    assert_eq!(data.num_frames(), 50);
}

#[test]
fn audio_data_slice_frames() {
    let data = AudioData { samples: (0..20).map(|i| i as f32).collect(), sample_rate: 10, channels: 2 };
    let sliced = data.slice_frames(2, 5);
    assert_eq!(sliced.num_frames(), 3);
    assert_eq!(sliced.samples.len(), 6);
    assert_eq!(sliced.samples[0], 4.0);
}

#[test]
fn audio_format_from_extension() {
    assert_eq!(AudioFormat::from_extension("wav"), Some(AudioFormat::Wav));
    assert_eq!(AudioFormat::from_extension("MP3"), Some(AudioFormat::Mp3));
    assert_eq!(AudioFormat::from_extension("xyz"), None);
}

#[test]
fn audio_format_can_encode() {
    assert!(AudioFormat::Wav.can_encode());
    assert!(AudioFormat::Flac.can_encode());
    assert!(AudioFormat::Mp3.can_encode());
    assert!(!AudioFormat::Aac.can_encode());
}

#[test]
fn audio_format_aliases_and_paths() {
    assert_eq!(AudioFormat::from_extension("oga"), Some(AudioFormat::Ogg));
    assert_eq!(AudioFormat::from_extension("M4a"), Some(AudioFormat::Aac));
    assert_eq!(AudioFormat::from_path("dir/song.FLAC"), Some(AudioFormat::Flac));
    assert_eq!(AudioFormat::from_path("dir.wav/song"), None);
    assert_eq!(AudioFormat::from_path(".wav"), None);
    assert_eq!(AudioFormat::from_path("a.b.ogg"), Some(AudioFormat::Ogg));
}

#[test]
fn extension_round_trip() {
    for f in AudioFormat::all() {
        assert_eq!(AudioFormat::from_extension(f.extension()), Some(f));
    }
    assert_eq!(AudioFormat::Ogg.name(), "OGG");
}

#[test]
fn slice_clamps_to_length() {
    let data = AudioData { samples: vec![1u8, 2, 3, 4, 5], sample_rate: 10, channels: 2 };
    let sliced = data.slice_frames(1, 9);
    assert_eq!(sliced.samples, vec![3, 4]);
}

#[test]
fn deinterleave_then_interleave() {
    let data = AudioData { samples: vec![1, 2, 3, 4, 5, 6, 7], sample_rate: 10, channels: 3 };
    let chans = data.deinterleave();
    assert_eq!(chans, vec![vec![1, 4], vec![2, 5], vec![3, 6]]);
    assert_eq!(interleave(&chans), vec![1, 2, 3, 4, 5, 6]);
}

#[test]
fn upper_case_extensions_read_back() {
    for f in AudioFormat::all() {
        assert_eq!(AudioFormat::from_extension(&f.extension().to_uppercase()), Some(f));
    }
}
