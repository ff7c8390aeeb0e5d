use panaud::error::{ExitCode, PanaudError};
use panaud::info::AudioInfo;
use panaud::types::AudioFormat;

#[test]
fn exit_codes_and_hints() {
    let e = PanaudError::OutputExists { path: "o".to_string(), suggestion: "use --overwrite".to_string() };
    assert_eq!(e.exit_code(), ExitCode::OutputIssue);
    assert_eq!(e.exit_code().code(), 3);
    assert_eq!(e.suggestion(), "use --overwrite");
    let t = PanaudError::InvalidTimeFormat { input: "x".to_string(), suggestion: "s".to_string() };
    assert_eq!(t.exit_code().code(), 5);
    let f = PanaudError::FileNotFound { path: "p".to_string(), suggestion: "s".to_string() };
    assert_eq!(f.exit_code().code(), 2);
    let u = PanaudError::UnknownFormat { path: "p".to_string(), suggestion: "s".to_string() };
    assert_eq!(u.exit_code().code(), 4);
    match PanaudError::encode("out.wav", "boom".to_string(), "retry".to_string()) {
        PanaudError::EncodeError { message, path, suggestion } => {
            assert_eq!(message, "boom");
            assert_eq!(path, Some("out.wav".to_string()));
            assert_eq!(suggestion, "retry");
        }
        other => panic!("unexpected: {:?}", other),
    }
}

fn info() -> AudioInfo {
    AudioInfo {
        path: "song.wav".to_string(),
        format: AudioFormat::Wav,
        sample_rate: 44100,
        channels: 2,
        num_frames: 88200,
        codec: "pcm_s16le".to_string(),
        file_size: 352844,
    }
}

#[test]
fn human_info_all_fields() {
    let text = info().to_human_string("0:02.00", &vec![]);
    let lines: Vec<&str> = text.lines().collect();
    assert_eq!(lines.len(), 8);
    assert_eq!(lines[0], "File:        song.wav");
    assert_eq!(lines[1], "Format:      WAV");
    assert_eq!(lines[3], "Sample Rate: 44100 Hz");
    assert_eq!(lines[5], "Duration:    0:02.00");
    assert_eq!(lines[7], "File Size:   344.57 KB");
}

#[test]
fn human_info_selected_fields_keep_their_order() {
    let fields = vec!["num_frames".to_string(), "channels".to_string(), "nope".to_string()];
    assert_eq!(info().to_human_string("0:02.00", &fields), "Channels:    2\nFrames:      88200");
}
