use panaud::capabilities::capabilities;
use panaud::ops::channels::ChannelsOp;
use panaud::ops::fade::FadeOp;
use panaud::ops::resample::ResampleOp;
use panaud::ops::trim::TrimOp;
use panaud::ops::{normalize, volume};
use panaud::schema::{ParamDefault, ParamRange, ParamType};

#[test]
fn info_schema() {
    let s = panaud::commands::info::schema();
    assert_eq!(s.command, "info");
    assert_eq!(s.params.len(), 2);
    assert_eq!(s.params[0].name, "input");
    assert_eq!(s.params[0].param_type, ParamType::Path);
    assert!(s.params[0].required);
    let choices = s.params[1].choices.clone().unwrap();
    assert_eq!(choices.len(), 8);
    assert_eq!(choices[5], "duration_secs");
}

#[test]
fn split_and_concat_schemas() {
    let s = panaud::commands::split::schema();
    let names: Vec<&str> = s.params.iter().map(|p| p.name.as_str()).collect();
    assert_eq!(names, vec!["input", "output", "at", "count", "duration"]);
    assert_eq!(s.params[3].param_type, ParamType::Integer);
    let c = panaud::commands::concat::schema();
    assert_eq!(c.params[2].default, Some(ParamDefault::Flag(false)));
}

#[test]
fn convert_schema_offers_encodable_extensions() {
    let s = panaud::commands::convert::schema();
    assert_eq!(s.params[2].name, "to");
    assert_eq!(s.params[2].choices.clone().unwrap(), vec!["wav", "flac", "mp3"]);
    assert_eq!(s.params[4].name, "skip-existing");
}

#[test]
fn operation_schemas() {
    assert_eq!(TrimOp::schema().params.len(), 4);
    assert_eq!(FadeOp::schema().params[2].name, "in");
    assert_eq!(ChannelsOp::schema().params[5].choices.clone().unwrap(), vec!["left", "right"]);
    assert_eq!(ResampleOp::schema().params[2].range, Some(ParamRange { min: 1, max: 384000 }));
    assert_eq!(volume::schema().params[3].range, Some(ParamRange { min: 0, max: 100 }));
    let n = normalize::schema();
    assert_eq!(n.params[2].default, Some(ParamDefault::Number(-1)));
    assert_eq!(n.params[2].range, Some(ParamRange { min: -100, max: 0 }));
}

#[test]
fn capabilities_report() {
    let c = capabilities("1.2.3");
    assert_eq!(c.version, "1.2.3");
    assert_eq!(c.commands.len(), 10);
    assert_eq!(c.commands[9].name, "split");
    assert_eq!(c.formats.len(), 5);
    assert_eq!(c.formats[3].name, "OGG");
    assert_eq!(c.formats[3].extension, "ogg");
    assert!(c.formats[3].can_decode);
    assert!(!c.formats[3].can_encode);
    assert!(c.formats[1].can_encode);
    assert_eq!(c.global_flags, vec!["--format <human|json>", "--dry-run", "--schema", "--capabilities"]);
}
