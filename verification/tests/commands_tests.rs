use panaud::cli::{ChannelsArgs, IoArgs, OutputFormat, SplitArgs};
use panaud::commands::channels::parse_mode;
use panaud::commands::concat::{append_input, concat_output_arg, concat_output_format};
use panaud::commands::convert::{convert_existing_output, convert_formats, ExistingOutput};
use panaud::commands::info::parse_fields;
use panaud::commands::pipeline_runner::{pipeline_output_format, PipelineContext};
use panaud::commands::report::{concat_text, convert_done_text, split_done_text, split_plan_text, transfer_text};
use panaud::commands::split::{parse_split_mode, part_file_name, part_stem, split_mode_text, split_output_format};
use panaud::commands::check_overwrite;
use panaud::error::PanaudError;
use panaud::ops::channels::{ChannelMode, ChannelSelector};
use panaud::ops::split::SplitMode;
use panaud::time::{Seconds, TimeSpec};
use panaud::types::{AudioData, AudioFormat};

const ATTO: i128 = 1_000_000_000_000_000_000;

fn io(input: Option<&str>, pos: Option<&str>, out: Option<&str>) -> IoArgs {
    IoArgs {
        input: input.map(|s| s.to_string()),
        output_pos: pos.map(|s| s.to_string()),
        output: out.map(|s| s.to_string()),
        overwrite: false,
    }
}

#[test]
fn output_flag_wins_over_positional() {
    assert_eq!(io(None, Some("a.wav"), Some("b.wav")).output_path(), Some("b.wav"));
    assert_eq!(io(None, Some("a.wav"), None).output_path(), Some("a.wav"));
    assert_eq!(io(None, None, None).output_path(), None);
}

#[test]
fn pipeline_context_needs_input_and_output() {
    let args = io(Some("in.wav"), None, Some("out.flac"));
    let ctx = PipelineContext::from_io_args(&args, OutputFormat::Json, "panaud trim").unwrap();
    assert_eq!(ctx.input, "in.wav");
    assert_eq!(ctx.output_path_str, "out.flac");
    let missing_in = io(None, None, Some("out.flac"));
    match PipelineContext::from_io_args(&missing_in, OutputFormat::Human, "panaud trim") {
        Err(PanaudError::InvalidArgument { message, suggestion }) => {
            assert_eq!(message, "missing required argument: input");
            assert_eq!(suggestion, "usage: panaud trim");
        }
        other => panic!("unexpected: {:?}", other),
    }
    let missing_out = io(Some("in.wav"), None, None);
    match PipelineContext::from_io_args(&missing_out, OutputFormat::Human, "x") {
        Err(PanaudError::InvalidArgument { message, .. }) => {
            assert_eq!(message, "missing required argument: output (-o)");
        }
        other => panic!("unexpected: {:?}", other),
    }
}

#[test]
fn output_formats_fall_back() {
    assert_eq!(pipeline_output_format("out.mp3", "in.wav").unwrap(), AudioFormat::Mp3);
    assert_eq!(pipeline_output_format("out", "in.flac").unwrap(), AudioFormat::Flac);
    assert_eq!(pipeline_output_format("out", "in").unwrap(), AudioFormat::Wav);
    assert!(matches!(pipeline_output_format("out.ogg", "in.wav"), Err(PanaudError::UnsupportedFormat { .. })));
    assert_eq!(concat_output_format("all").unwrap(), AudioFormat::Wav);
    assert_eq!(split_output_format("song.flac").unwrap(), AudioFormat::Flac);
    assert!(split_output_format("song.m4a").is_err());
}

#[test]
fn convert_formats_rules() {
    assert_eq!(convert_formats("a.mp3", "b.wav", None).unwrap(), (AudioFormat::Mp3, AudioFormat::Wav));
    assert_eq!(convert_formats("a.mp3", "b", Some("FLAC")).unwrap(), (AudioFormat::Mp3, AudioFormat::Flac));
    assert!(matches!(convert_formats("a.txt", "b.wav", None), Err(PanaudError::UnknownFormat { .. })));
    assert!(matches!(convert_formats("a.wav", "b", None), Err(PanaudError::UnknownFormat { .. })));
    match convert_formats("a.wav", "b.wav", Some("xyz")) {
        Err(PanaudError::UnsupportedFormat { format, .. }) => assert_eq!(format, "xyz"),
        other => panic!("unexpected: {:?}", other),
    }
    match convert_formats("a.wav", "b.aac", None) {
        Err(PanaudError::UnsupportedFormat { format, .. }) => assert_eq!(format, "AAC"),
        other => panic!("unexpected: {:?}", other),
    }
}

#[test]
fn existing_outputs() {
    assert_eq!(convert_existing_output(false, false, false, "o").unwrap(), ExistingOutput::Write);
    assert_eq!(convert_existing_output(true, true, false, "o").unwrap(), ExistingOutput::Write);
    assert_eq!(convert_existing_output(true, false, true, "o").unwrap(), ExistingOutput::Skip);
    assert!(matches!(convert_existing_output(true, false, false, "o"), Err(PanaudError::OutputExists { .. })));
    assert!(check_overwrite(true, false, "o", "s").is_err());
    assert!(check_overwrite(true, true, "o", "s").is_ok());
    assert!(check_overwrite(false, false, "o", "s").is_ok());
}

fn channels_args() -> ChannelsArgs {
    ChannelsArgs { io: io(None, None, None), mono: false, stereo: false, count: None, extract: None }
}

#[test]
fn channel_modes_from_flags() {
    let mut a = channels_args();
    assert!(matches!(parse_mode(&a), Err(PanaudError::InvalidArgument { .. })));
    a.extract = Some("LeFt".to_string());
    assert_eq!(parse_mode(&a).unwrap(), ChannelMode::Extract(ChannelSelector::Left));
    a.extract = Some("r".to_string());
    assert_eq!(parse_mode(&a).unwrap(), ChannelMode::Extract(ChannelSelector::Right));
    a.extract = Some("3".to_string());
    assert_eq!(parse_mode(&a).unwrap(), ChannelMode::Extract(ChannelSelector::Index(3)));
    a.extract = Some("middle".to_string());
    match parse_mode(&a) {
        Err(PanaudError::InvalidArgument { message, .. }) => {
            assert_eq!(message, "invalid channel selector: 'middle'")
        }
        other => panic!("unexpected: {:?}", other),
    }
    a.count = Some(4);
    assert_eq!(parse_mode(&a).unwrap(), ChannelMode::Count(4));
    a.stereo = true;
    assert_eq!(parse_mode(&a).unwrap(), ChannelMode::Stereo);
    a.mono = true;
    assert_eq!(parse_mode(&a).unwrap(), ChannelMode::Mono);
}

fn split_args() -> SplitArgs {
    SplitArgs { input: None, output: None, at: None, count: None, duration: None, overwrite: false }
}

#[test]
fn split_modes_from_flags() {
    let mut a = split_args();
    assert!(matches!(parse_split_mode(&a), Err(PanaudError::InvalidArgument { .. })));
    a.duration = Some("30s".to_string());
    assert!(matches!(parse_split_mode(&a).unwrap(), SplitMode::Duration(TimeSpec::Seconds(Seconds::Atto(x))) if x == 30 * ATTO));
    a.count = Some(3);
    assert!(matches!(parse_split_mode(&a).unwrap(), SplitMode::Count(3)));
    a.at = Some("1:00, 90 ,44100S".to_string());
    match parse_split_mode(&a).unwrap() {
        SplitMode::At(v) => assert_eq!(
            v,
            vec![
                TimeSpec::Seconds(Seconds::Atto(60 * ATTO)),
                TimeSpec::Seconds(Seconds::Atto(90 * ATTO)),
                TimeSpec::Samples(44100)
            ]
        ),
        other => panic!("unexpected: {:?}", other),
    }
    a.at = Some("10, x ,20".to_string());
    match parse_split_mode(&a) {
        Err(PanaudError::InvalidTimeFormat { input, .. }) => assert_eq!(input, "x"),
        other => panic!("unexpected: {:?}", other),
    }
}

#[test]
fn split_names_and_texts() {
    assert_eq!(part_file_name("song", 1, "wav"), "song_001.wav");
    assert_eq!(part_file_name("song", 42, "mp3"), "song_042.mp3");
    assert_eq!(part_file_name("song", 1234, "flac"), "song_1234.flac");
    assert_eq!(part_stem("dir/song.flac"), "song");
    assert_eq!(part_stem(""), "part");
    assert_eq!(split_mode_text(&SplitMode::Count(4), None, None), "4 equal parts");
    assert_eq!(split_mode_text(&SplitMode::At(vec![]), Some("1:00,2:00"), None), "at 1:00,2:00");
    assert_eq!(split_mode_text(&SplitMode::Duration(TimeSpec::Samples(5)), None, Some("5S")), "every 5S");
    assert_eq!(split_plan_text("a.wav", "parts", "4 equal parts"), "Would split a.wav → parts (4 equal parts)");
    assert_eq!(split_done_text("a.wav", 4, "parts"), "Split a.wav into 4 parts → parts");
}

#[test]
fn report_texts() {
    assert_eq!(transfer_text("Trimmed", "a.wav", "b.wav"), "Trimmed a.wav → b.wav");
    assert_eq!(concat_text("Would concatenate", 3, "all.wav"), "Would concatenate 3 files → all.wav");
    assert_eq!(convert_done_text("a.mp3", "b.wav", "MP3", "WAV"), "Converted a.mp3 → b.wav (MP3 → WAV)");
}

#[test]
fn fields_are_split_and_trimmed() {
    assert_eq!(parse_fields(&None), Vec::<String>::new());
    assert_eq!(parse_fields(&Some(" path, codec ,".to_string())), vec!["path", "codec", ""]);
}

#[test]
fn concat_command_steps() {
    assert!(matches!(concat_output_arg(&vec![], &Some("o.wav".to_string())), Err(PanaudError::InvalidArgument { .. })));
    assert!(matches!(concat_output_arg(&vec!["a.wav".to_string()], &None), Err(PanaudError::InvalidArgument { .. })));
    assert_eq!(concat_output_arg(&vec!["a.wav".to_string()], &Some("o.wav".to_string())).unwrap(), "o.wav");
    let mut combined = AudioData { samples: vec![1, 2], sample_rate: 8000, channels: 2 };
    append_input(&mut combined, 1, &AudioData { samples: vec![3, 4], sample_rate: 8000, channels: 2 }).unwrap();
    assert_eq!(combined.samples, vec![1, 2, 3, 4]);
    match append_input(&mut combined, 2, &AudioData { samples: vec![5], sample_rate: 44100, channels: 2 }) {
        Err(PanaudError::FormatMismatch { message, .. }) => {
            assert_eq!(message, "input 2 has sample rate 44100 Hz, but input 0 has 8000 Hz")
        }
        other => panic!("unexpected: {:?}", other),
    }
    assert_eq!(combined.samples, vec![1, 2, 3, 4]);
}

#[test]
fn split_and_info_paths() {
    let mut a = split_args();
    assert!(matches!(panaud::commands::split::split_paths(&a), Err(PanaudError::InvalidArgument { .. })));
    a.input = Some("in.wav".to_string());
    match panaud::commands::split::split_paths(&a) {
        Err(PanaudError::InvalidArgument { message, .. }) => assert_eq!(message, "missing required argument: output (-o)"),
        other => panic!("unexpected: {:?}", other),
    }
    a.output = Some("parts".to_string());
    assert_eq!(panaud::commands::split::split_paths(&a).unwrap(), ("in.wav".to_string(), "parts".to_string()));
    let info = panaud::cli::InfoArgs { input: None, fields: None };
    assert!(panaud::commands::info::info_input(&info).is_err());
}
