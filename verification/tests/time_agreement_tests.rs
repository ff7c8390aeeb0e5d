use panaud::time::{parse_time, Seconds, TimeSpec};

fn float_seconds(text: &str) -> f64 {
    let t = text.trim();
    if let Some(m) = t.strip_suffix('m') {
        return m.parse::<f64>().unwrap() * 60.0;
    }
    if let Some(s) = t.strip_suffix('s') {
        return s.parse::<f64>().unwrap();
    }
    let parts: Vec<f64> = t.split(':').map(|p| p.parse::<f64>().unwrap()).collect();
    match parts.len() {
        1 => parts[0],
        2 => parts[0] * 60.0 + parts[1],
        _ => parts[0] * 3600.0 + parts[1] * 60.0 + parts[2],
    }
}

fn float_display(s: f64) -> String {
    let total = s as u64;
    let frac = s - total as f64;
    let hours = total / 3600;
    let minutes = (total % 3600) / 60;
    let seconds = total % 60;
    if hours > 0 {
        format!("{hours}:{minutes:02}:{seconds:02}.{:02}", (frac * 100.0) as u32)
    } else {
        format!("{minutes}:{seconds:02}.{:02}", (frac * 100.0) as u32)
    }
}

const TEXTS: [&str; 14] = [
    "0", "1", "2.5", "90", "90s", "1.5m", "0.25m", "1:30", "1:02:30", "12.75", "0:07.5", "3600", "0.01", "59.99",
];

#[test]
fn frames_agree_with_floating_point() {
    for text in TEXTS {
        let spec = parse_time(text).unwrap();
        for rate in [8000u32, 22050, 44100, 48000, 96000] {
            let expected = (float_seconds(text) * rate as f64).round() as u64;
            assert_eq!(spec.to_frame(rate), expected, "{text} at {rate}");
        }
    }
}

#[test]
fn displays_agree_with_floating_point() {
    for text in ["0", "1", "2.5", "90", "1.5m", "1:30", "1:02:30", "12.75", "3600", "0.5", "61.25"] {
        let spec = parse_time(text).unwrap();
        assert_eq!(spec.to_display_string(), float_display(float_seconds(text)), "{text}");
    }
    assert!(matches!(parse_time("7S").unwrap(), TimeSpec::Samples(7)));
}

#[test]
fn clock_text_reads_back() {
    const CENTI: i128 = 10_000_000_000_000_000;
    for centis in [0i128, 1, 99, 100, 6050, 359_999, 360_000, 372_150, 9_000_000_001] {
        let t = TimeSpec::Seconds(Seconds::Atto(centis * CENTI));
        assert_eq!(parse_time(&t.to_display_string()).unwrap(), t, "{centis}");
    }
}

#[test]
fn duration_text_agrees_with_f64() {
    let rates: [u32; 8] = [1, 3, 7, 8, 100, 1000, 44100, 48000];
    let mut frames: Vec<u64> = (0..3000).collect();
    frames.extend([5, 125, 1_000_003, 123_456_789, u32::MAX as u64, 1 << 53, (1 << 53) + 1, u64::MAX - 1, u64::MAX]);
    for &r in rates.iter() {
        for &f in frames.iter() {
            let mut s = String::new();
            panaud::ops::trim::push_duration(&mut s, f, r);
            assert_eq!(s, format!("{:.2}", f as f64 / r as f64), "frames {f} rate {r}");
        }
    }
    let mut s = String::new();
    panaud::ops::trim::push_duration(&mut s, 5, 1000);
    assert_eq!(s, "0.01");
}
