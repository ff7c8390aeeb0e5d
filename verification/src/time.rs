//! Time specifications: the time formats that the commands accept, and their
//! conversion to frame positions.
use vstd::prelude::*;
use crate::error::PanaudError;
use crate::numparse::{
    index_of_either, index_of_either_exec, parse_seconds, parse_unsigned, spec_parse_seconds, spec_parse_unsigned,
    ATTO_PER_SECOND,
};
use crate::text::{dec_seq, lemma_trim_idempotent, pad2_seq, push_decimal, push_pad2, str_chars, trim_bounds, trim_seq};

verus! {

/// A number of seconds as `f64::from_str` reads it, held exactly to the attosecond:
/// finite values as a count of attoseconds (10^-18 s), then the two infinities and
/// not-a-number. Finite magnitudes past the `i128` range (about 1.7e20 s) are infinite.
#[derive(Debug, Clone, Copy, PartialEq, Eq, Structural)]
pub enum Seconds {
    Atto(i128),
    Infinite(bool),
    NotANumber,
}

/// Parsed time specification.
#[derive(Debug, Clone, Copy, PartialEq, Eq, Structural)]
pub enum TimeSpec {
    /// Time in seconds.
    Seconds(Seconds),
    /// Time in samples (frames).
    Samples(u64),
}

/// A finite count of attoseconds, or the infinity it overflows to.
pub open spec fn atto_or_infinite(v: int) -> Seconds {
    if v > i128::MAX {
        Seconds::Infinite(false)
    } else if v < -i128::MAX {
        Seconds::Infinite(true)
    } else {
        Seconds::Atto(v as i128)
    }
}

/// `a` multiplied by the positive whole number `k`.
pub open spec fn seconds_times(a: Seconds, k: int) -> Seconds {
    match a {
        Seconds::Atto(x) => atto_or_infinite(x * k),
        other => other,
    }
}

/// `a + b`: infinities absorb finite values, opposite infinities and not-a-number give
/// not-a-number.
pub open spec fn seconds_plus(a: Seconds, b: Seconds) -> Seconds {
    match (a, b) {
        (Seconds::NotANumber, _) => Seconds::NotANumber,
        (_, Seconds::NotANumber) => Seconds::NotANumber,
        (Seconds::Infinite(p), Seconds::Infinite(q)) => if p == q {
            Seconds::Infinite(p)
        } else {
            Seconds::NotANumber
        },
        (Seconds::Infinite(p), _) => Seconds::Infinite(p),
        (_, Seconds::Infinite(q)) => Seconds::Infinite(q),
        (Seconds::Atto(x), Seconds::Atto(y)) => atto_or_infinite(x + y),
    }
}

/// `x / d` rounded to the nearest integer, halves rounding up.
pub open spec fn round_div(x: int, d: int) -> int {
    x / d + if 2 * (x % d) >= d {
        1int
    } else {
        0int
    }
}

/// The frame index of a time at `sample_rate`: seconds times rate rounded to the
/// nearest frame (halves away from zero), negative and not-a-number times at frame 0,
/// and the count saturated at `u64::MAX`; a sample count is its own frame index.
/// The product is taken exactly, on the decimal value of the time as written. Binary
/// floating point holds most decimals only approximately, so a product that lies
/// exactly on a half (0.145 s at 100 Hz is 14.5 frames) rounds up here to 15, where an
/// `f64` computation, whose 0.145 lies just below, gives 14.
pub open spec fn spec_to_frame(t: TimeSpec, sample_rate: u32) -> u64 {
    match t {
        TimeSpec::Samples(n) => n,
        TimeSpec::Seconds(Seconds::Atto(a)) => if a <= 0 {
            0
        } else {
            let f = round_div(a * sample_rate, ATTO_PER_SECOND as int);
            if f > u64::MAX {
                u64::MAX
            } else {
                f as u64
            }
        },
        TimeSpec::Seconds(Seconds::Infinite(neg)) => if !neg && sample_rate > 0 {
            u64::MAX
        } else {
            0
        },
        TimeSpec::Seconds(Seconds::NotANumber) => 0,
    }
}

proof fn lemma_round_split(a: int, rate: int, q: int, r: int, s: int, rem: int)
    requires
        a > 0,
        rate >= 0,
        a == q * ATTO_PER_SECOND + r,
        0 <= r < ATTO_PER_SECOND,
        r * rate == s * ATTO_PER_SECOND + rem,
        0 <= rem < ATTO_PER_SECOND,
    ensures
        round_div(a * rate, ATTO_PER_SECOND as int) == q * rate + s + if 2 * rem
            >= ATTO_PER_SECOND {
            1int
        } else {
            0int
        },
{
    let d = ATTO_PER_SECOND as int;
    assert(a * rate == (q * rate + s) * d + rem) by (nonlinear_arith)
        requires
            a == q * d + r,
            r * rate == s * d + rem,
    ;
    vstd::arithmetic::div_mod::lemma_fundamental_div_mod_converse(a * rate, d, q * rate + s, rem);
}

impl Seconds {
    pub fn times(self, k: i128) -> (r: Seconds)
        requires
            1 <= k <= 3600,
        ensures
            r == seconds_times(self, k as int),
    {
        match self {
            Seconds::Atto(x) => {
                let m: i128 = 170141183460469231731687303715884105727i128;
                if x > m / k {
                    assert(x * k > m) by (nonlinear_arith)
                        requires
                            x > m / k,
                            k >= 1,
                    ;
                    Seconds::Infinite(false)
                } else if x < -(m / k) {
                    assert(x * k < -m) by (nonlinear_arith)
                        requires
                            x < -(m / k),
                            k >= 1,
                    ;
                    Seconds::Infinite(true)
                } else {
                    assert(-m <= x * k <= m) by (nonlinear_arith)
                        requires
                            -(m / k) <= x <= m / k,
                            k >= 1,
                    ;
                    Seconds::Atto(x * k)
                }
            },
            other => other,
        }
    }

    pub fn plus(self, other: Seconds) -> (r: Seconds)
        ensures
            r == seconds_plus(self, other),
    {
        match (self, other) {
            (Seconds::NotANumber, _) => Seconds::NotANumber,
            (_, Seconds::NotANumber) => Seconds::NotANumber,
            (Seconds::Infinite(p), Seconds::Infinite(q)) => if p == q {
                Seconds::Infinite(p)
            } else {
                Seconds::NotANumber
            },
            (Seconds::Infinite(p), _) => Seconds::Infinite(p),
            (_, Seconds::Infinite(q)) => Seconds::Infinite(q),
            (Seconds::Atto(x), Seconds::Atto(y)) => {
                let m: i128 = 170141183460469231731687303715884105727i128;
                if y > 0 && x > m - y {
                    Seconds::Infinite(false)
                } else if y < 0 && x < -m - y {
                    Seconds::Infinite(true)
                } else if x + y > m {
                    Seconds::Infinite(false)
                } else if x + y < -m {
                    Seconds::Infinite(true)
                } else {
                    Seconds::Atto(x + y)
                }
            },
        }
    }

    /// Whole seconds (truncated toward zero, held within `0..=u64::MAX`) and the
    /// hundredths of a second past them (held within `0..=u32::MAX`), as the time
    /// display shows them.
    pub fn clock_parts(self) -> (r: (u64, u32))
        ensures
            r == spec_clock_parts(self),
    {
        match self {
            Seconds::Atto(a) => {
                if a <= 0 {
                    (0, 0)
                } else {
                    let whole = a / ATTO_PER_SECOND;
                    if whole > 18446744073709551615i128 {
                        let over = a - 18446744073709551615i128 * ATTO_PER_SECOND;
                        let c = over / 10_000_000_000_000_000i128;
                        if c > 4294967295i128 {
                            (18446744073709551615u64, 4294967295u32)
                        } else {
                            (18446744073709551615u64, c as u32)
                        }
                    } else {
                        let frac = a % ATTO_PER_SECOND;
                        (whole as u64, (frac / 10_000_000_000_000_000i128) as u32)
                    }
                }
            },
            Seconds::Infinite(neg) => if neg {
                (0, 0)
            } else {
                (18446744073709551615u64, 4294967295u32)
            },
            Seconds::NotANumber => (0, 0),
        }
    }
}

/// Whole seconds and hundredths as the display computes them: the seconds truncated
/// toward zero into `0..=u64::MAX`, and the hundredths of the remainder, truncated and
/// held within `0..=u32::MAX` (negative remainders show as 0).
pub open spec fn spec_clock_parts(s: Seconds) -> (u64, u32) {
    match s {
        Seconds::Atto(a) => if a <= 0 {
            (0u64, 0u32)
        } else {
            let whole = a / ATTO_PER_SECOND;
            if whole > u64::MAX {
                let c = (a - u64::MAX * ATTO_PER_SECOND) / 10_000_000_000_000_000int;
                (u64::MAX, if c > u32::MAX {
                    u32::MAX
                } else {
                    c as u32
                })
            } else {
                (whole as u64, (((a % ATTO_PER_SECOND) as int) / 10_000_000_000_000_000int) as u32)
            }
        },
        Seconds::Infinite(neg) => if neg {
            (0u64, 0u32)
        } else {
            (u64::MAX, u32::MAX)
        },
        Seconds::NotANumber => (0u64, 0u32),
    }
}

/// `h:mm:ss.cc`, or `m:ss.cc` under an hour, for `total` whole seconds and `centis`
/// hundredths.
pub open spec fn spec_clock_text(total: u64, centis: u32) -> Seq<char> {
    let hours = total / 3600;
    let minutes = (total % 3600) / 60;
    let seconds = total % 60;
    if hours > 0 {
        dec_seq(hours as nat) + seq![':'] + pad2_seq(minutes as nat) + seq![':'] + pad2_seq(
            seconds as nat,
        ) + seq!['.'] + pad2_seq(centis as nat)
    } else {
        dec_seq(minutes as nat) + seq![':'] + pad2_seq(seconds as nat) + seq!['.'] + pad2_seq(
            centis as nat,
        )
    }
}

/// Renders a duration of `total` whole seconds and `centis` hundredths as a clock.
pub fn format_clock(total: u64, centis: u32) -> (s: String)
    ensures
        s@ == spec_clock_text(total, centis),
{
    let hours = total / 3600;
    let minutes = (total % 3600) / 60;
    let seconds = total % 60;
    let mut s = String::new();
    proof {
        reveal_strlit(":");
        reveal_strlit(".");
    }
    if hours > 0 {
        push_decimal(&mut s, hours);
        s.append(":");
        push_pad2(&mut s, minutes);
        s.append(":");
    } else {
        push_decimal(&mut s, minutes);
        s.append(":");
    }
    push_pad2(&mut s, seconds);
    s.append(".");
    push_pad2(&mut s, centis as u64);
    proof {
        assert(s@ =~= spec_clock_text(total, centis));
    }
    s
}

impl TimeSpec {
    /// Convert to a frame index given a sample rate, exactly as `spec_to_frame` says
    /// (halves that binary floating point would miss round up).
    pub fn to_frame(&self, sample_rate: u32) -> (f: u64)
        ensures
            f == spec_to_frame(*self, sample_rate),
    {
        match self {
            TimeSpec::Samples(n) => *n,
            TimeSpec::Seconds(Seconds::Atto(a)) => {
                let a = *a;
                if a <= 0 {
                    return 0;
                }
                let rate = sample_rate as i128;
                let q = a / ATTO_PER_SECOND;
                let r = a % ATTO_PER_SECOND;
                assert(q <= 170141183460469231731i128);
                assert(q * rate <= 170141183460469231731i128 * 4294967295i128) by (nonlinear_arith)
                    requires
                        0 <= q <= 170141183460469231731i128,
                        0 <= rate <= 4294967295i128,
                ;
                assert(r * rate < 1_000_000_000_000_000_000i128 * 4294967296i128) by (nonlinear_arith)
                    requires
                        0 <= r < 1_000_000_000_000_000_000i128,
                        0 <= rate <= 4294967295i128,
                ;
                let rr = r * rate;
                let s = rr / ATTO_PER_SECOND;
                let rem = rr % ATTO_PER_SECOND;
                let up: i128 = if 2 * rem >= ATTO_PER_SECOND {
                    1
                } else {
                    0
                };
                proof {
                    lemma_round_split(a as int, rate as int, q as int, r as int, s as int, rem as int);
                }
                let f = q * rate + s + up;
                if f > 18446744073709551615i128 {
                    18446744073709551615u64
                } else {
                    f as u64
                }
            },
            TimeSpec::Seconds(Seconds::Infinite(neg)) => if !*neg && sample_rate > 0 {
                18446744073709551615u64
            } else {
                0
            },
            TimeSpec::Seconds(Seconds::NotANumber) => 0,
        }
    }

    /// The text that describes this time: `h:mm:ss.cc` (or `m:ss.cc` under an hour)
    /// for seconds, `N samples` for a sample count.
    pub fn to_display_string(&self) -> (s: String)
        ensures
            s@ == spec_time_text(*self),
    {
        match self {
            TimeSpec::Seconds(v) => {
                let (total, centis) = v.clock_parts();
                format_clock(total, centis)
            },
            TimeSpec::Samples(n) => {
                let mut s = String::new();
                push_decimal(&mut s, *n);
                proof {
                    reveal_strlit(" samples");
                }
                s.append(" samples");
                proof {
                    assert(s@ =~= dec_seq(*n as nat) + " samples"@);
                }
                s
            },
        }
    }
}

/// The text that describes a time.
pub open spec fn spec_time_text(t: TimeSpec) -> Seq<char> {
    match t {
        TimeSpec::Seconds(v) => spec_clock_text(spec_clock_parts(v).0, spec_clock_parts(v).1),
        TimeSpec::Samples(n) => dec_seq(n as nat) + " samples"@,
    }
}

/// Suggestion given with a time that fits none of the formats.
pub open spec fn general_time_hint() -> Seq<char> {
    "use a format like '1:30', '90s', '1.5m', or '44100S' (samples)"@
}

/// What `parse_time` gives for an input whose surrounding whitespace is already
/// removed: the time, or the suggestion that comes with the error.
pub open spec fn spec_parse_trimmed(t: Seq<char>) -> Result<TimeSpec, Seq<char>> {
    if t.len() == 0 {
        Err(general_time_hint())
    } else if t.last() == 'S' {
        match spec_parse_unsigned(t.drop_last(), u64::MAX as nat) {
            Some(n) => Ok(TimeSpec::Samples(n as u64)),
            None => Err("sample count must be a positive integer, e.g. '44100S'"@),
        }
    } else if t.last() == 'm' {
        match spec_parse_seconds(t.drop_last()) {
            Some(v) => Ok(TimeSpec::Seconds(seconds_times(v, 60))),
            None => Err("minute format should be a number followed by 'm', e.g. '1.5m'"@),
        }
    } else if t.last() == 's' {
        match spec_parse_seconds(t.drop_last()) {
            Some(v) => Ok(TimeSpec::Seconds(v)),
            None => Err("second format should be a number followed by 's', e.g. '90s'"@),
        }
    } else if (index_of_either(t, ':', ':') as int) < t.len() {
        spec_parse_clock(t)
    } else {
        match spec_parse_seconds(t) {
            Some(v) => Ok(TimeSpec::Seconds(v)),
            None => Err(general_time_hint()),
        }
    }
}

/// The colon formats `mm:ss` and `hh:mm:ss`, for a text holding at least one colon.
pub open spec fn spec_parse_clock(t: Seq<char>) -> Result<TimeSpec, Seq<char>> {
    let i1 = index_of_either(t, ':', ':') as int;
    let a = t.take(i1);
    let rest = t.skip(i1 + 1);
    let i2 = index_of_either(rest, ':', ':') as int;
    if i2 == rest.len() {
        match (spec_parse_seconds(a), spec_parse_seconds(rest)) {
            (Some(m), Some(s)) => Ok(TimeSpec::Seconds(seconds_plus(seconds_times(m, 60), s))),
            _ => Err("format should be 'minutes:seconds', e.g. '1:30'"@),
        }
    } else {
        let b = rest.take(i2);
        let c = rest.skip(i2 + 1);
        if (index_of_either(c, ':', ':') as int) < c.len() {
            Err("use 'mm:ss' or 'hh:mm:ss' format"@)
        } else {
            match (spec_parse_seconds(a), spec_parse_seconds(b), spec_parse_seconds(c)) {
                (Some(h), Some(m), Some(s)) => Ok(
                    TimeSpec::Seconds(
                        seconds_plus(seconds_plus(seconds_times(h, 3600), seconds_times(m, 60)), s),
                    ),
                ),
                _ => Err("format should be 'hours:minutes:seconds', e.g. '1:02:30'"@),
            }
        }
    }
}

fn parse_clock(s: &Vec<char>, lo: usize, hi: usize) -> (r: core::result::Result<TimeSpec, &'static str>)
    requires
        lo <= hi <= s.len(),
        (index_of_either(s@.subrange(lo as int, hi as int), ':', ':') as int) < hi - lo,
    ensures
        match spec_parse_clock(s@.subrange(lo as int, hi as int)) {
            Ok(t) => r == Ok::<TimeSpec, &'static str>(t),
            Err(h) => r matches Err(e) && e@ == h,
        },
{
    let ghost t = s@.subrange(lo as int, hi as int);
    let c1 = index_of_either_exec(s, lo, hi, ':', ':');
    let ghost rest = t.skip(c1 - lo + 1);
    assert(rest =~= s@.subrange(c1 + 1, hi as int));
    assert(t.take(c1 - lo) =~= s@.subrange(lo as int, c1 as int));
    let c2 = index_of_either_exec(s, c1 + 1, hi, ':', ':');
    if c2 == hi {
        let m = parse_seconds(s, lo, c1);
        let sec = parse_seconds(s, c1 + 1, hi);
        match (m, sec) {
            (Some(m), Some(sec)) => Ok(TimeSpec::Seconds(m.times(60).plus(sec))),
            _ => Err("format should be 'minutes:seconds', e.g. '1:30'"),
        }
    } else {
        assert(rest.take(c2 - c1 - 1) =~= s@.subrange(c1 + 1, c2 as int));
        assert(rest.skip(c2 - c1) =~= s@.subrange(c2 + 1, hi as int));
        let c3 = index_of_either_exec(s, c2 + 1, hi, ':', ':');
        if c3 < hi {
            return Err("use 'mm:ss' or 'hh:mm:ss' format");
        }
        let h = parse_seconds(s, lo, c1);
        let m = parse_seconds(s, c1 + 1, c2);
        let sec = parse_seconds(s, c2 + 1, hi);
        match (h, m, sec) {
            (Some(h), Some(m), Some(sec)) => Ok(
                TimeSpec::Seconds(h.times(3600).plus(m.times(60)).plus(sec)),
            ),
            _ => Err("format should be 'hours:minutes:seconds', e.g. '1:02:30'"),
        }
    }
}

/// What `parse_time` gives for `input`: the time, or the suggestion that comes with
/// the error for the trimmed input.
pub open spec fn spec_parse_time(input: Seq<char>) -> Result<TimeSpec, Seq<char>> {
    spec_parse_trimmed(trim_seq(input))
}

/// Parse a time string into a `TimeSpec`.
///
/// Supported formats (surrounding whitespace is ignored):
/// - `"90"` or `"90s"` — seconds
/// - `"1.5m"` — minutes
/// - `"1:30"` — minutes:seconds
/// - `"1:02:30"` — hours:minutes:seconds
/// - `"44100S"` — samples (capital S)
///
/// Numbers are read in the syntax of `f64::from_str`.
pub fn parse_time(input: &str) -> (r: crate::error::Result<TimeSpec>)
    ensures
        match spec_parse_time(input@) {
            Ok(t) => r == Ok::<TimeSpec, PanaudError>(t),
            Err(h) => r matches Err(e) && is_time_error(e, input@, h),
        },
{
    let chars = str_chars(input);
    let (lo, hi) = trim_bounds(&chars);
    let ghost t = chars@.subrange(lo as int, hi as int);
    let hint: &'static str = if lo == hi {
        "use a format like '1:30', '90s', '1.5m', or '44100S' (samples)"
    } else if chars[hi - 1] == 'S' {
        assert(t.drop_last() =~= chars@.subrange(lo as int, hi - 1));
        match parse_unsigned(&chars, lo, hi - 1, 18446744073709551615u64) {
            Some(n) => {
                return Ok(TimeSpec::Samples(n));
            },
            None => "sample count must be a positive integer, e.g. '44100S'",
        }
    } else if chars[hi - 1] == 'm' {
        assert(t.drop_last() =~= chars@.subrange(lo as int, hi - 1));
        match parse_seconds(&chars, lo, hi - 1) {
            Some(v) => {
                return Ok(TimeSpec::Seconds(v.times(60)));
            },
            None => "minute format should be a number followed by 'm', e.g. '1.5m'",
        }
    } else if chars[hi - 1] == 's' {
        assert(t.drop_last() =~= chars@.subrange(lo as int, hi - 1));
        match parse_seconds(&chars, lo, hi - 1) {
            Some(v) => {
                return Ok(TimeSpec::Seconds(v));
            },
            None => "second format should be a number followed by 's', e.g. '90s'",
        }
    } else if index_of_either_exec(&chars, lo, hi, ':', ':') < hi {
        match parse_clock(&chars, lo, hi) {
            Ok(t) => {
                return Ok(t);
            },
            Err(h) => h,
        }
    } else {
        match parse_seconds(&chars, lo, hi) {
            Some(v) => {
                return Ok(TimeSpec::Seconds(v));
            },
            None => "use a format like '1:30', '90s', '1.5m', or '44100S' (samples)",
        }
    };
    let shown = input.substring_char(lo, hi).to_owned();
    Err(PanaudError::InvalidTimeFormat { input: shown, suggestion: hint.to_owned() })
}

/// `e` is the error `parse_time` reports for `text` with suggestion `hint`.
pub open spec fn is_time_error(e: PanaudError, text: Seq<char>, hint: Seq<char>) -> bool {
    e matches PanaudError::InvalidTimeFormat { input, suggestion } && input@ == trim_seq(text)
        && suggestion@ == hint
}


proof fn lemma_index_after_plain(a: Seq<char>, b: Seq<char>)
    requires
        index_of_either(a, ':', ':') == a.len(),
    ensures
        index_of_either(a.push(':') + b, ':', ':') == a.len(),
    decreases a.len(),
{
    let t = a.push(':') + b;
    if a.len() > 0 {
        assert(t[0] == a[0]);
        assert(t.drop_first() =~= a.drop_first().push(':') + b);
        lemma_index_after_plain(a.drop_first(), b);
    } else {
        assert(t[0] == ':');
    }
}

/// The plain, `s` and `m` formats agree: a number `t` means the same seconds alone and
/// with the `s` suffix, and sixty times as many with the `m` suffix; a text that is no
/// number is refused in all three forms.
pub proof fn law_suffix_formats_agree(t: Seq<char>)
    requires
        t.len() > 0,
        t.last() != 'S' && t.last() != 'm' && t.last() != 's',
        index_of_either(t, ':', ':') == t.len(),
    ensures
        match spec_parse_seconds(t) {
            Some(v) => {
                &&& spec_parse_trimmed(t) == Ok::<TimeSpec, Seq<char>>(TimeSpec::Seconds(v))
                &&& spec_parse_trimmed(t.push('s')) == Ok::<TimeSpec, Seq<char>>(TimeSpec::Seconds(v))
                &&& spec_parse_trimmed(t.push('m')) == Ok::<TimeSpec, Seq<char>>(
                    TimeSpec::Seconds(seconds_times(v, 60)),
                )
            },
            None => {
                &&& spec_parse_trimmed(t) is Err
                &&& spec_parse_trimmed(t.push('s')) is Err
                &&& spec_parse_trimmed(t.push('m')) is Err
            },
        },
{
    assert(t.push('s').drop_last() =~= t);
    assert(t.push('m').drop_last() =~= t);
}

/// The `mm:ss` format adds its two numbers as minutes and seconds.
pub proof fn law_clock_format_adds(a: Seq<char>, b: Seq<char>)
    requires
        b.len() > 0,
        b.last() != 'S' && b.last() != 'm' && b.last() != 's',
        index_of_either(a, ':', ':') == a.len(),
        index_of_either(b, ':', ':') == b.len(),
    ensures
        spec_parse_trimmed(a.push(':') + b) == match (spec_parse_seconds(a), spec_parse_seconds(b)) {
            (Some(m), Some(s)) => Ok::<TimeSpec, Seq<char>>(
                TimeSpec::Seconds(seconds_plus(seconds_times(m, 60), s)),
            ),
            _ => Err::<TimeSpec, Seq<char>>("format should be 'minutes:seconds', e.g. '1:30'"@),
        },
{
    let t = a.push(':') + b;
    lemma_index_after_plain(a, b);
    assert(t.last() == b.last());
    assert(t.take(a.len() as int) =~= a);
    assert(t.skip(a.len() + 1int) =~= b);
}

/// Surrounding whitespace does not matter to `parse_time`: a text and its trimmed form
/// give the same time, or the same error (which shows the trimmed text and the same
/// suggestion).
pub proof fn law_parse_ignores_surrounding_whitespace(s: Seq<char>)
    ensures
        spec_parse_time(s) == spec_parse_time(trim_seq(s)),
        forall|e: PanaudError, h: Seq<char>| is_time_error(e, s, h) <==> is_time_error(e, trim_seq(s), h),
{
    lemma_trim_idempotent(s);
}

/// The `hh:mm:ss` format adds its three numbers as hours, minutes and seconds, and a
/// text that is not three numbers gets the `hours:minutes:seconds` hint.
pub proof fn law_clock_hms_format_adds(a: Seq<char>, b: Seq<char>, c: Seq<char>)
    requires
        c.len() > 0,
        c.last() != 'S' && c.last() != 'm' && c.last() != 's',
        index_of_either(a, ':', ':') == a.len(),
        index_of_either(b, ':', ':') == b.len(),
        index_of_either(c, ':', ':') == c.len(),
    ensures
        spec_parse_trimmed(a.push(':') + b.push(':') + c) == match (
            spec_parse_seconds(a),
            spec_parse_seconds(b),
            spec_parse_seconds(c),
        ) {
            (Some(h), Some(m), Some(x)) => Ok::<TimeSpec, Seq<char>>(
                TimeSpec::Seconds(seconds_plus(seconds_plus(seconds_times(h, 3600), seconds_times(m, 60)), x)),
            ),
            _ => Err::<TimeSpec, Seq<char>>("format should be 'hours:minutes:seconds', e.g. '1:02:30'"@),
        },
{
    let rest = b.push(':') + c;
    let t = a.push(':') + rest;
    assert(a.push(':') + b.push(':') + c =~= t);
    lemma_index_after_plain(a, rest);
    lemma_index_after_plain(b, c);
    assert(t.last() == c.last());
    assert(t.take(a.len() as int) =~= a);
    assert(t.skip(a.len() + 1int) =~= rest);
    assert(rest.take(b.len() as int) =~= b);
    assert(rest.skip(b.len() + 1int) =~= c);
}

/// A colon text of four or more parts is refused with the `mm:ss` / `hh:mm:ss` hint.
pub proof fn law_clock_too_many_parts(a: Seq<char>, b: Seq<char>, c: Seq<char>, d: Seq<char>)
    requires
        d.len() > 0,
        d.last() != 'S' && d.last() != 'm' && d.last() != 's',
        index_of_either(a, ':', ':') == a.len(),
        index_of_either(b, ':', ':') == b.len(),
        index_of_either(c, ':', ':') == c.len(),
    ensures
        spec_parse_trimmed(a.push(':') + b.push(':') + c.push(':') + d) == Err::<TimeSpec, Seq<char>>(
            "use 'mm:ss' or 'hh:mm:ss' format"@,
        ),
{
    let tail = c.push(':') + d;
    let rest = b.push(':') + tail;
    let t = a.push(':') + rest;
    assert(a.push(':') + b.push(':') + c.push(':') + d =~= t);
    lemma_index_after_plain(a, rest);
    lemma_index_after_plain(b, tail);
    lemma_index_after_plain(c, d);
    assert(t.last() == d.last());
    assert(t.take(a.len() as int) =~= a);
    assert(t.skip(a.len() + 1int) =~= rest);
    assert(rest.take(b.len() as int) =~= b);
    assert(rest.skip(b.len() + 1int) =~= tail);
}

} // verus!
