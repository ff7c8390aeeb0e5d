use panaud::error::PanaudError;
use panaud::time::{format_clock, parse_time, Seconds, TimeSpec};

const ATTO: i128 = 1_000_000_000_000_000_000;

fn seconds(s: i128) -> TimeSpec {
    TimeSpec::Seconds(Seconds::Atto(s * ATTO))
}

#[test]
fn parse_plain_seconds() {
    assert_eq!(parse_time("90").unwrap(), seconds(90));
}

#[test]
fn parse_seconds_suffix() {
    assert_eq!(parse_time("90s").unwrap(), seconds(90));
}

#[test]
fn parse_minutes_suffix() {
    assert_eq!(parse_time("1.5m").unwrap(), seconds(90));
}

#[test]
fn parse_colon_mm_ss() {
    assert_eq!(parse_time("1:30").unwrap(), seconds(90));
}

#[test]
fn parse_colon_hh_mm_ss() {
    assert_eq!(parse_time("1:02:30").unwrap(), seconds(3750));
}

#[test]
fn parse_samples() {
    assert_eq!(parse_time("44100S").unwrap(), TimeSpec::Samples(44100));
}

#[test]
fn parse_empty_is_error() {
    assert!(parse_time("").is_err());
}

#[test]
fn parse_invalid_is_error() {
    assert!(parse_time("abc").is_err());
}

#[test]
fn to_frame_seconds() {
    let spec = seconds(1);
    assert_eq!(spec.to_frame(44100), 44100);
}

#[test]
fn to_frame_samples() {
    let spec = TimeSpec::Samples(1000);
    assert_eq!(spec.to_frame(44100), 1000);
}

#[test]
fn parse_trims_and_reports_the_trimmed_text() {
    assert_eq!(parse_time("  2.5s \t").unwrap(), TimeSpec::Seconds(Seconds::Atto(5 * ATTO / 2)));
    match parse_time("  1:xx ") {
        Err(PanaudError::InvalidTimeFormat { input, .. }) => assert_eq!(input, "1:xx"),
        other => panic!("unexpected: {:?}", other),
    }
}

#[test]
fn parse_follows_float_syntax() {
    assert_eq!(parse_time("1e1").unwrap(), seconds(10));
    assert_eq!(parse_time(".5").unwrap(), TimeSpec::Seconds(Seconds::Atto(ATTO / 2)));
    assert_eq!(parse_time("inf").unwrap(), TimeSpec::Seconds(Seconds::Infinite(false)));
    assert_eq!(parse_time("-2").unwrap(), seconds(-2));
    assert!(parse_time("1.2.3").is_err());
    assert!(parse_time("12S5").is_err());
}

#[test]
fn parse_agrees_with_f64_on_plain_numbers() {
    for text in ["0", "7", "0.25", "12.125", "3600", "1e2", "2.5e-1"] {
        let expected = text.parse::<f64>().unwrap();
        match parse_time(text).unwrap() {
            TimeSpec::Seconds(Seconds::Atto(a)) => {
                assert!(((a as f64) / 1e18 - expected).abs() < 1e-9, "{text}");
            }
            other => panic!("unexpected: {:?}", other),
        }
    }
}

#[test]
fn to_frame_rounds_half_up_and_saturates() {
    assert_eq!(TimeSpec::Seconds(Seconds::Atto(ATTO / 4)).to_frame(10), 3);
    assert_eq!(TimeSpec::Seconds(Seconds::Atto(-ATTO)).to_frame(44100), 0);
    assert_eq!(TimeSpec::Seconds(Seconds::Infinite(false)).to_frame(44100), u64::MAX);
    assert_eq!(TimeSpec::Seconds(Seconds::NotANumber).to_frame(44100), 0);
}

#[test]
fn time_texts() {
    assert_eq!(seconds(90).to_display_string(), "1:30.00");
    assert_eq!(seconds(3661).to_display_string(), "1:01:01.00");
    assert_eq!(TimeSpec::Samples(500).to_display_string(), "500 samples");
    assert_eq!(format_clock(90, 50), "1:30.50");
}

#[test]
fn parse_ignores_surrounding_whitespace() {
    assert_eq!(parse_time("  1:30 \t").unwrap(), parse_time("1:30").unwrap());
    match (parse_time(" nope "), parse_time("nope")) {
        (Err(PanaudError::InvalidTimeFormat { input: a, suggestion: x }), Err(PanaudError::InvalidTimeFormat { input: b, suggestion: y })) => {
            assert_eq!(a, b);
            assert_eq!(x, y);
        }
        other => panic!("unexpected: {:?}", other),
    }
}

#[test]
fn parse_clock_adds_hours_minutes_seconds() {
    assert_eq!(parse_time("2:01:05.5").unwrap(), TimeSpec::Seconds(Seconds::Atto(7265 * ATTO + ATTO / 2)));
    match parse_time("1:2:3:4") {
        Err(PanaudError::InvalidTimeFormat { suggestion, .. }) => assert_eq!(suggestion, "use 'mm:ss' or 'hh:mm:ss' format"),
        other => panic!("unexpected: {:?}", other),
    }
}
