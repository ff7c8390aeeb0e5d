//! Trimming audio to a time range.
use vstd::prelude::*;
use crate::schema::{
    command, file_command_params, file_command_view, param, param_view, push_param, CommandSchema,
    CommandView, ParamType,
};
use crate::error::{PanaudError, Result};
use crate::info::{f64_of_int, f64_quotient_text, f64_value_of_u64, push_f64_quotient};
use crate::text::{dec_seq, push_decimal};
use crate::time::{is_time_error, parse_time, spec_parse_time, spec_time_text, spec_to_frame, TimeSpec};
use crate::types::AudioData;

verus! {

/// Trim audio to a time range [start, end).
#[derive(Debug, Clone, Copy, PartialEq, Eq, Structural)]
pub struct TrimOp {
    pub start: TimeSpec,
    pub end: Option<TimeSpec>,
}

/// The outcome of parsing an optional time: absent, parsed, or the parse error's hint.
pub open spec fn spec_parse_opt_time(text: Option<Seq<char>>) -> core::result::Result<Option<TimeSpec>, Seq<char>> {
    match text {
        None => Ok(None),
        Some(t) => match spec_parse_time(t) {
            Ok(v) => Ok(Some(v)),
            Err(h) => Err(h),
        },
    }
}

pub open spec fn opt_str_view(s: Option<&str>) -> Option<Seq<char>> {
    match s {
        Some(x) => Some(x@),
        None => None,
    }
}

/// `e` is the error that parsing the optional time `s` reports with suggestion `hint`.
pub open spec fn is_opt_time_error(e: PanaudError, s: Option<&str>, hint: Seq<char>) -> bool {
    is_time_error(e, s->0@, hint)
}

/// Parses an optional time string; `Ok(None)` when there is none.
pub fn parse_opt_time(s: Option<&str>) -> (r: Result<Option<TimeSpec>>)
    ensures
        match spec_parse_opt_time(opt_str_view(s)) {
            Ok(v) => r == Ok::<Option<TimeSpec>, PanaudError>(v),
            Err(h) => r matches Err(e) && is_time_error(e, s->0@, h),
        },
{
    match s {
        None => Ok(None),
        Some(x) => match parse_time(x) {
            Ok(v) => Ok(Some(v)),
            Err(e) => Err(e),
        },
    }
}

/// Frame where a trim ends: the end time's frame, or the last frame when there is none.
pub open spec fn spec_trim_end(op: TrimOp, rate: u32, total: nat) -> u64 {
    match op.end {
        Some(e) => spec_to_frame(e, rate),
        None => total as u64,
    }
}

impl TrimOp {
    /// Parses the start time and, if given, the end time.
    pub fn new(start_str: &str, end_str: Option<&str>) -> (r: Result<TrimOp>)
        ensures
            match spec_parse_time(start_str@) {
                Err(h) => r matches Err(e) && is_time_error(e, start_str@, h),
                Ok(s) => match spec_parse_opt_time(opt_str_view(end_str)) {
                    Ok(e) => r == Ok::<TrimOp, PanaudError>(TrimOp { start: s, end: e }),
                    Err(h) => r matches Err(e) && is_time_error(e, end_str->0@, h),
                },
            },
    {
        let start = match parse_time(start_str) {
            Ok(s) => s,
            Err(e) => {
                return Err(e);
            },
        };
        let end = match parse_opt_time(end_str) {
            Ok(e) => e,
            Err(e) => {
                return Err(e);
            },
        };
        Ok(TrimOp { start, end })
    }

    /// Create from already-parsed TimeSpecs.
    pub fn from_specs(start: TimeSpec, end: Option<TimeSpec>) -> (r: TrimOp)
        ensures
            r == (TrimOp { start, end }),
    {
        TrimOp { start, end }
    }

    pub fn name(&self) -> (s: &'static str)
        ensures
            s@ == "trim"@,
    {
        "trim"
    }

    /// Keeps the frames from the start time up to (not including) the end time, or to
    /// the end of the audio; the end is clamped to the audio's length.
    pub fn apply<S: Copy>(&self, input: AudioData<S>) -> (r: Result<AudioData<S>>)
        ensures
            ({
                let total = input.frames();
                let start = spec_to_frame(self.start, input.sample_rate);
                let end = spec_trim_end(*self, input.sample_rate, total);
                if start >= total {
                    r matches Err(PanaudError::TrimOutOfRange { message, suggestion }) && message@
                        == "start position (frame "@ + dec_seq(start as nat) + ") is beyond audio length ("@
                        + dec_seq(total) + " frames)"@ && suggestion@ == "audio is "@
                        + spec_duration_text(total as u64, input.sample_rate)
                        + "s long; use a start time within that range"@
                } else if end <= start {
                    r matches Err(PanaudError::TrimOutOfRange { message, suggestion }) && message@
                        == "end position (frame "@ + dec_seq(end as nat) + ") must be after start (frame "@
                        + dec_seq(start as nat) + ")"@ && suggestion@
                        == "ensure end time is greater than start time"@
                } else {
                    r matches Ok(out) && out.samples@ == input.spec_slice(start, end)
                        && out.sample_rate == input.sample_rate && out.channels == input.channels
                }
            }),
    {
        let total_frames = input.num_frames();
        let start_frame = self.start.to_frame(input.sample_rate);
        let end_frame = match self.end {
            Some(e) => e.to_frame(input.sample_rate),
            None => total_frames,
        };
        if start_frame >= total_frames {
            let mut message = String::new();
            message.append("start position (frame ");
            push_decimal(&mut message, start_frame);
            message.append(") is beyond audio length (");
            push_decimal(&mut message, total_frames);
            message.append(" frames)");
            let mut suggestion = String::new();
            suggestion.append("audio is ");
            push_duration(&mut suggestion, total_frames, input.sample_rate);
            suggestion.append("s long; use a start time within that range");
            proof {
                assert(message@ =~= "start position (frame "@ + dec_seq(start_frame as nat)
                    + ") is beyond audio length ("@ + dec_seq(total_frames as nat) + " frames)"@);
                assert(suggestion@ =~= "audio is "@ + spec_duration_text(total_frames, input.sample_rate)
                    + "s long; use a start time within that range"@);
            }
            return Err(PanaudError::TrimOutOfRange { message, suggestion });
        }
        if end_frame <= start_frame {
            let mut message = String::new();
            message.append("end position (frame ");
            push_decimal(&mut message, end_frame);
            message.append(") must be after start (frame ");
            push_decimal(&mut message, start_frame);
            message.append(")");
            proof {
                assert(message@ =~= "end position (frame "@ + dec_seq(end_frame as nat)
                    + ") must be after start (frame "@ + dec_seq(start_frame as nat) + ")"@);
            }
            return Err(
                PanaudError::TrimOutOfRange {
                    message,
                    suggestion: "ensure end time is greater than start time".to_owned(),
                },
            );
        }
        Ok(input.slice_frames(start_frame, end_frame))
    }

    /// Human-readable description: `Trim audio from <start> to <end>` (or `to end`).
    pub fn description(&self) -> (s: String)
        ensures
            s@ == "Trim audio from "@ + spec_time_text(self.start) + " to "@ + match self.end {
                Some(e) => spec_time_text(e),
                None => "end"@,
            },
    {
        let mut s = String::new();
        s.append("Trim audio from ");
        let a = self.start.to_display_string();
        s.append(a.as_str());
        s.append(" to ");
        match self.end {
            Some(e) => {
                let b = e.to_display_string();
                s.append(b.as_str());
            },
            None => {
                s.append("end");
            },
        }
        proof {
            assert(s@ =~= "Trim audio from "@ + spec_time_text(self.start) + " to "@ + match self.end {
                Some(e) => spec_time_text(e),
                None => "end"@,
            });
        }
        s
    }
}

/// The duration of `frames` frames at `rate` in seconds with two decimals, as
/// `{:.2}` prints `frames as f64 / rate as f64`; `0.00` when the rate is zero.
pub open spec fn spec_duration_text(frames: u64, rate: u32) -> Seq<char> {
    if rate == 0 {
        "0.00"@
    } else {
        f64_quotient_text(f64_of_int(frames as nat), rate as nat)
    }
}

/// Appends the duration of `frames` frames at `rate` in seconds with two decimals
/// (zero when the rate is zero).
pub fn push_duration(out: &mut String, frames: u64, rate: u32)
    ensures
        final(out)@ == old(out)@ + spec_duration_text(frames, rate),
{
    if rate == 0 {
        out.append("0.00");
    } else {
        let v = f64_value_of_u64(frames);
        push_f64_quotient(out, v, rate as u64);
    }
}

/// The parameters of `trim`.
pub open spec fn trim_schema_view() -> CommandView {
    file_command_view(
        "trim"@,
        "Trim audio to a time range"@,
        seq![
            param_view(
                "start"@,
                ParamType::String,
                true,
                "Start time (e.g. '1:30', '90s', '1.5m', '44100S')"@,
                None,
                None,
            ),
            param_view(
                "end"@,
                ParamType::String,
                false,
                "End time (defaults to end of file)"@,
                None,
                None,
            ),
        ],
    )
}

impl TrimOp {
    /// Parameter schema of `trim`.
    pub fn schema() -> (s: CommandSchema)
        ensures
            s@ == trim_schema_view(),
    {
        let mut params = file_command_params();
        push_param(
            &mut params,
            param(
                "start",
                ParamType::String,
                true,
                "Start time (e.g. '1:30', '90s', '1.5m', '44100S')",
                None,
                None,
            ),
        );
        push_param(
            &mut params,
            param(
                "end",
                ParamType::String,
                false,
                "End time (defaults to end of file)",
                None,
                None,
            ),
        );
        let s = command("trim", "Trim audio to a time range", params);
        proof {
            assert(s@.params =~= trim_schema_view().params);
        }
        s
    }
}

} // verus!
