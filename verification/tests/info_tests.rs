use panaud::info::format_file_size;

#[test]
fn format_file_size_bytes() {
    assert_eq!(format_file_size(500), "500 B");
}

#[test]
fn format_file_size_kb() {
    assert_eq!(format_file_size(2048), "2.00 KB");
}

#[test]
fn format_file_size_mb() {
    assert_eq!(format_file_size(1_500_000), "1.43 MB");
}

#[test]
fn field_selection() {
    let none: Vec<String> = Vec::new();
    let some = vec!["codec".to_string(), "channels".to_string()];
    assert!(panaud::info::field_selected(&none, "path"));
    assert!(panaud::info::field_selected(&some, "channels"));
    assert!(!panaud::info::field_selected(&some, "path"));
}

fn tone(frames: usize, channels: usize) -> Vec<i32> {
    let mut v = Vec::new();
    for i in 0..frames {
        for _ in 0..channels {
            v.push(((i % 100) as i32 - 50) * 300);
        }
    }
    v
}

fn wav_bytes(frames: usize, channels: u16, rate: u32) -> Vec<u8> {
    let spec = hound::WavSpec { channels, sample_rate: rate, bits_per_sample: 16, sample_format: hound::SampleFormat::Int };
    let mut bytes = Vec::new();
    {
        let mut w = hound::WavWriter::new(std::io::Cursor::new(&mut bytes), spec).unwrap();
        for s in tone(frames, channels as usize) {
            w.write_sample(s as i16).unwrap();
        }
        w.finalize().unwrap();
    }
    bytes
}

#[test]
fn info_from_wav_bytes() {
    let bytes = wav_bytes(8000, 2, 8000);
    let info = panaud::info::audio_info_from_bytes("t.wav", bytes.len() as u64, &bytes).unwrap();
    assert_eq!(info.path, "t.wav");
    assert_eq!(info.format, panaud::types::AudioFormat::Wav);
    assert_eq!(info.sample_rate, 8000);
    assert_eq!(info.channels, 2);
    assert_eq!(info.num_frames, 8000);
    assert_eq!(info.file_size, bytes.len() as u64);
}

#[test]
fn info_refuses_unknown_extension_and_garbage() {
    match panaud::info::audio_info_from_bytes("notes.txt", 3, &[1, 2, 3]) {
        Err(panaud::error::PanaudError::UnknownFormat { path, .. }) => assert_eq!(path, "notes.txt"),
        other => panic!("unexpected: {:?}", other),
    }
    match panaud::info::audio_info_from_bytes("noise.wav", 3, &[1, 2, 3]) {
        Err(panaud::error::PanaudError::DecodeError { path, suggestion, .. }) => {
            assert_eq!(path, Some("noise.wav".to_string()));
            assert_eq!(suggestion, "the file may be corrupted or in an unsupported format");
        }
        other => panic!("unexpected: {:?}", other),
    }
}

#[test]
fn info_from_probe_results() {
    let track = panaud::info::ProbedTrack { sample_rate: Some(44100), channels: None, n_frames: Some(10), codec: "0x1".to_string() };
    let info = panaud::info::audio_info_from_probe("a.mp3", 99, Ok(Some(track))).unwrap();
    assert_eq!((info.sample_rate, info.channels, info.num_frames, info.codec.as_str()), (44100, 0, 10, "0x1"));
    match panaud::info::audio_info_from_probe("a.mp3", 99, Ok(None)) {
        Err(panaud::error::PanaudError::DecodeError { message, .. }) => assert_eq!(message, "no audio track found"),
        other => panic!("unexpected: {:?}", other),
    }
}
