//! Fading audio in and out.
use vstd::prelude::*;
use crate::schema::{
    command, file_command_params, file_command_view, param, param_view, push_param, CommandSchema,
    CommandView, ParamType,
};
use crate::error::{PanaudError, Result};
use crate::ops::trim::{
    is_opt_time_error, opt_str_view, parse_opt_time, push_duration, spec_duration_text, spec_parse_opt_time,
};
use crate::text::{dec_seq, push_decimal};
use crate::time::{spec_time_text, spec_to_frame, TimeSpec};
use crate::types::{lemma_frame_index, lemma_frames_fit, AudioData};

verus! {

/// Apply fade-in and/or fade-out to audio.
#[derive(Debug, Clone, Copy, PartialEq, Eq, Structural)]
pub struct FadeOp {
    pub fade_in: Option<TimeSpec>,
    pub fade_out: Option<TimeSpec>,
}

/// Length in frames of an optional fade (none: zero frames).
pub open spec fn fade_frames(t: Option<TimeSpec>, rate: u32) -> u64 {
    match t {
        Some(x) => spec_to_frame(x, rate),
        None => 0,
    }
}

/// `g` and `h` can be asked to scale any sample at any point of any ramp.
pub open spec fn ramps_total<S, G: Fn(S, u64, u64) -> S, H: Fn(S, u64, u64) -> S>(g: G, h: H) -> bool {
    &&& forall|x: S, a: u64, b: u64| call_requires(g, (x, a, b))
    &&& forall|x: S, a: u64, b: u64| call_requires(h, (x, a, b))
}

/// Sample `c` of frame `f` after the fades: ramped up by `g(sample, f, n_in)` in the
/// first `n_in` frames, ramped down by `h(sample, offset, n_out)` in the last `n_out`
/// frames, and untouched in between.
pub open spec fn faded_sample<S, G: Fn(S, u64, u64) -> S, H: Fn(S, u64, u64) -> S>(
    orig: Seq<S>,
    out: Seq<S>,
    ch: int,
    total: int,
    n_in: int,
    n_out: int,
    g: G,
    h: H,
    f: int,
    c: int,
) -> bool {
    let i = f * ch + c;
    if f < n_in {
        call_ensures(g, (orig[i], f as u64, n_in as u64), out[i])
    } else if f >= total - n_out {
        call_ensures(h, (orig[i], (f - (total - n_out)) as u64, n_out as u64), out[i])
    } else {
        out[i] == orig[i]
    }
}

impl FadeOp {
    /// Parses the fade-in and fade-out durations; at least one must be given.
    pub fn new(fade_in_str: Option<&str>, fade_out_str: Option<&str>) -> (r: Result<FadeOp>)
        ensures
            match spec_parse_opt_time(opt_str_view(fade_in_str)) {
                Err(h) => r matches Err(e) && is_opt_time_error(e, fade_in_str, h),
                Ok(a) => match spec_parse_opt_time(opt_str_view(fade_out_str)) {
                    Err(h) => r matches Err(e) && is_opt_time_error(e, fade_out_str, h),
                    Ok(b) => if a is None && b is None {
                        r matches Err(PanaudError::InvalidArgument { message, suggestion }) && message@
                            == "at least one of --in or --out must be specified"@ && suggestion@
                            == "usage: panaud fade <input> -o <output> --in 2s --out 3s"@
                    } else {
                        r == Ok::<FadeOp, PanaudError>(FadeOp { fade_in: a, fade_out: b })
                    },
                },
            },
    {
        let fade_in = match parse_opt_time(fade_in_str) {
            Ok(t) => t,
            Err(e) => {
                return Err(e);
            },
        };
        let fade_out = match parse_opt_time(fade_out_str) {
            Ok(t) => t,
            Err(e) => {
                return Err(e);
            },
        };
        if fade_in.is_none() && fade_out.is_none() {
            return Err(
                PanaudError::InvalidArgument {
                    message: "at least one of --in or --out must be specified".to_owned(),
                    suggestion: "usage: panaud fade <input> -o <output> --in 2s --out 3s".to_owned(),
                },
            );
        }
        Ok(FadeOp { fade_in, fade_out })
    }

    /// Create from already-parsed TimeSpecs; at least one must be given.
    pub fn from_specs(fade_in: Option<TimeSpec>, fade_out: Option<TimeSpec>) -> (r: Result<FadeOp>)
        ensures
            fade_in is None && fade_out is None ==> (r matches Err(
                PanaudError::InvalidArgument { message, suggestion },
            ) && message@ == "at least one of fade_in or fade_out must be specified"@ && suggestion@
                == "provide a fade-in and/or fade-out duration"@),
            !(fade_in is None && fade_out is None) ==> r == Ok::<FadeOp, PanaudError>(
                FadeOp { fade_in, fade_out },
            ),
    {
        if fade_in.is_none() && fade_out.is_none() {
            return Err(
                PanaudError::InvalidArgument {
                    message: "at least one of fade_in or fade_out must be specified".to_owned(),
                    suggestion: "provide a fade-in and/or fade-out duration".to_owned(),
                },
            );
        }
        Ok(FadeOp { fade_in, fade_out })
    }

    pub fn name(&self) -> (s: &'static str)
        ensures
            s@ == "fade"@,
    {
        "fade"
    }

    /// Human-readable description: `Fade in: <time>, fade out: <time>` (`none` when absent).
    pub fn description(&self) -> (s: String)
        ensures
            s@ == "Fade in: "@ + match self.fade_in {
                Some(t) => spec_time_text(t),
                None => "none"@,
            } + ", fade out: "@ + match self.fade_out {
                Some(t) => spec_time_text(t),
                None => "none"@,
            },
    {
        let mut s = "Fade in: ".to_owned();
        match self.fade_in {
            Some(t) => {
                let x = t.to_display_string();
                s.append(x.as_str());
            },
            None => {
                s.append("none");
            },
        }
        s.append(", fade out: ");
        match self.fade_out {
            Some(t) => {
                let x = t.to_display_string();
                s.append(x.as_str());
            },
            None => {
                s.append("none");
            },
        }
        proof {
            assert(s@ =~= "Fade in: "@ + match self.fade_in {
                Some(t) => spec_time_text(t),
                None => "none"@,
            } + ", fade out: "@ + match self.fade_out {
                Some(t) => spec_time_text(t),
                None => "none"@,
            });
        }
        s
    }

    /// Applies the fades. `ramp_in(sample, i, n)` scales a sample by `i / n` (frame `i`
    /// of an `n`-frame fade-in); `ramp_out(sample, i, n)` scales it by `1 - i / n` (frame
    /// `i` of an `n`-frame fade-out).
    pub fn apply<S: Copy, G: Fn(S, u64, u64) -> S, H: Fn(S, u64, u64) -> S>(
        &self,
        input: AudioData<S>,
        ramp_in: G,
        ramp_out: H,
    ) -> (r: Result<AudioData<S>>)
        requires
            ramps_total(ramp_in, ramp_out),
        ensures
            ({
                let n_in = fade_frames(self.fade_in, input.sample_rate) as int;
                let n_out = fade_frames(self.fade_out, input.sample_rate) as int;
                let total = input.frames() as int;
                let ch = input.channels as int;
                if n_in + n_out > total {
                    r matches Err(PanaudError::InvalidArgument { message, suggestion }) && message@
                        == "fade-in ("@ + dec_seq(n_in as nat) + " frames) + fade-out ("@ + dec_seq(
                        n_out as nat,
                    ) + " frames) exceeds audio length ("@ + dec_seq(total as nat) + " frames)"@
                        && suggestion@ == "audio is "@ + spec_duration_text(total as u64, input.sample_rate)
                        + "s long; reduce fade durations to fit"@
                } else {
                    r is Ok && r->Ok_0.sample_rate == input.sample_rate && r->Ok_0.channels
                        == input.channels && r->Ok_0.samples@.len() == input.samples@.len()
                        && (forall|f: int, c: int|
                        #![trigger r->Ok_0.samples@[f * ch + c]]
                        0 <= f < total && 0 <= c < ch ==> faded_sample(
                            input.samples@,
                            r->Ok_0.samples@,
                            ch,
                            total,
                            n_in,
                            n_out,
                            ramp_in,
                            ramp_out,
                            f,
                            c,
                        )) && (forall|i: int|
                        total * ch <= i < input.samples@.len() ==> r->Ok_0.samples@[i]
                            == input.samples@[i])
                }
            }),
    {
        let mut input = input;
        let ghost orig = input.samples@;
        let rate = input.sample_rate;
        let total_frames = input.num_frames();
        let ch = input.channels as usize;
        let fade_in_frames = match self.fade_in {
            Some(t) => t.to_frame(input.sample_rate),
            None => 0,
        };
        let fade_out_frames = match self.fade_out {
            Some(t) => t.to_frame(input.sample_rate),
            None => 0,
        };
        if fade_in_frames > total_frames || fade_out_frames > total_frames - fade_in_frames {
            let mut message = "fade-in (".to_owned();
            push_decimal(&mut message, fade_in_frames);
            message.append(" frames) + fade-out (");
            push_decimal(&mut message, fade_out_frames);
            message.append(" frames) exceeds audio length (");
            push_decimal(&mut message, total_frames);
            message.append(" frames)");
            let mut suggestion = "audio is ".to_owned();
            push_duration(&mut suggestion, total_frames, input.sample_rate);
            suggestion.append("s long; reduce fade durations to fit");
            proof {
                assert(message@ =~= "fade-in ("@ + dec_seq(fade_in_frames as nat) + " frames) + fade-out ("@
                    + dec_seq(fade_out_frames as nat) + " frames) exceeds audio length ("@ + dec_seq(
                    total_frames as nat,
                ) + " frames)"@);
                assert(suggestion@ =~= "audio is "@ + spec_duration_text(total_frames, input.sample_rate)
                    + "s long; reduce fade durations to fit"@);
            }
            return Err(PanaudError::InvalidArgument { message, suggestion });
        }
        let ghost total = total_frames as int;
        let ghost n_in = fade_in_frames as int;
        let ghost n_out = fade_out_frames as int;
        let len = input.samples.len();
        proof {
            if ch > 0 {
                lemma_frames_fit(orig.len(), input.channels, total_frames as nat);
            }
        }
        // fade in: frames [0, n_in)
        let mut f: u64 = 0;
        while f < fade_in_frames
            invariant
                ch == input.channels,
                rate == input.sample_rate,
                len == input.samples@.len() == orig.len(),
                total_frames as int == total,
                fade_in_frames as int == n_in,
                fade_out_frames as int == n_out,
                n_in + n_out <= total,
                ch > 0 ==> total * ch <= len,
                ramps_total(ramp_in, ramp_out),
                f <= fade_in_frames,
                forall|f2: int, c: int|
                    #![trigger input.samples@[f2 * ch + c]]
                    0 <= f2 < f && 0 <= c < ch ==> call_ensures(
                        ramp_in,
                        (orig[f2 * ch + c], f2 as u64, n_in as u64),
                        input.samples@[f2 * ch + c],
                    ),
                forall|i: int| f * ch <= i < len ==> input.samples@[i] == orig[i],
            decreases fade_in_frames - f,
        {
            let mut c: usize = 0;
            while c < ch
                invariant
                    ch == input.channels,
                    rate == input.sample_rate,
                    len == input.samples@.len() == orig.len(),
                    total_frames as int == total,
                    fade_in_frames as int == n_in,
                    fade_out_frames as int == n_out,
                    n_in + n_out <= total,
                    ch > 0 ==> total * ch <= len,
                    ramps_total(ramp_in, ramp_out),
                    f < fade_in_frames,
                    c <= ch,
                    forall|f2: int, c2: int|
                        #![trigger input.samples@[f2 * ch + c2]]
                        0 <= f2 < f && 0 <= c2 < ch ==> call_ensures(
                            ramp_in,
                            (orig[f2 * ch + c2], f2 as u64, n_in as u64),
                            input.samples@[f2 * ch + c2],
                        ),
                    forall|c2: int|
                        0 <= c2 < c ==> call_ensures(
                            ramp_in,
                            (orig[f * ch + c2], f as u64, n_in as u64),
                            #[trigger] input.samples@[f * ch + c2],
                        ),
                    forall|i: int| f * ch + c <= i < len ==> input.samples@[i] == orig[i],
                decreases ch - c,
            {
                proof {
                    lemma_frame_index(f as int, c as int, ch as int, total);
                    assert(total <= total * ch) by (nonlinear_arith)
                        requires
                            ch >= 1,
                            total >= 0,
                    ;
                }
                let idx = (f as usize) * ch + c;
                let x = input.samples[idx];
                let y = ramp_in(x, f, fade_in_frames);
                let ghost prev = input.samples@;
                input.samples.set(idx, y);
                proof {
                    assert forall|f2: int, c2: int|
                        #![trigger input.samples@[f2 * ch + c2]]
                        0 <= f2 < f && 0 <= c2 < ch implies call_ensures(
                            ramp_in,
                            (orig[f2 * ch + c2], f2 as u64, n_in as u64),
                            input.samples@[f2 * ch + c2],
                        ) by {
                        lemma_frame_index(f2, c2, ch as int, f as int);
                        assert(input.samples@[f2 * ch + c2] == prev[f2 * ch + c2]);
                    }
                    assert forall|c2: int|
                        0 <= c2 < c + 1 implies call_ensures(
                            ramp_in,
                            (orig[f * ch + c2], f as u64, n_in as u64),
                            #[trigger] input.samples@[f * ch + c2],
                        ) by {
                        if c2 < c {
                            assert(input.samples@[f * ch + c2] == prev[f * ch + c2]);
                        }
                    }
                }
                c += 1;
            }
            proof {
                assert((f + 1) * ch == f * ch + ch) by (nonlinear_arith);
                assert forall|f2: int, c2: int|
                    #![trigger input.samples@[f2 * ch + c2]]
                    0 <= f2 < f + 1 && 0 <= c2 < ch implies call_ensures(
                        ramp_in,
                        (orig[f2 * ch + c2], f2 as u64, n_in as u64),
                        input.samples@[f2 * ch + c2],
                    ) by {
                    if f2 == f {
                    }
                }
            }
            f += 1;
        }
        assert(f == fade_in_frames);
        // fade out: frames [total - n_out, total)
        let fade_out_start = total_frames - fade_out_frames;
        let mut g: u64 = fade_out_start;
        proof {
            assert(n_in * ch <= fade_out_start * ch) by (nonlinear_arith)
                requires
                    n_in <= fade_out_start,
                    ch >= 0,
            ;
            assert(fade_out_start * ch <= total * ch) by (nonlinear_arith)
                requires
                    fade_out_start <= total,
                    ch >= 0,
            ;
            assert(f * ch == n_in * ch);
        }
        while g < total_frames
            invariant
                ch == input.channels,
                rate == input.sample_rate,
                len == input.samples@.len() == orig.len(),
                total_frames as int == total,
                fade_in_frames as int == n_in,
                fade_out_frames as int == n_out,
                fade_out_start == total - n_out,
                n_in + n_out <= total,
                n_in * ch <= fade_out_start * ch,
                ch > 0 ==> total * ch <= len,
                ramps_total(ramp_in, ramp_out),
                fade_out_start <= g <= total_frames,
                forall|f2: int, c: int|
                    #![trigger input.samples@[f2 * ch + c]]
                    0 <= f2 < n_in && 0 <= c < ch ==> call_ensures(
                        ramp_in,
                        (orig[f2 * ch + c], f2 as u64, n_in as u64),
                        input.samples@[f2 * ch + c],
                    ),
                forall|f2: int, c: int|
                    #![trigger input.samples@[f2 * ch + c]]
                    fade_out_start <= f2 < g && 0 <= c < ch ==> call_ensures(
                        ramp_out,
                        (orig[f2 * ch + c], (f2 - fade_out_start) as u64, n_out as u64),
                        input.samples@[f2 * ch + c],
                    ),
                forall|i: int| n_in * ch <= i < fade_out_start * ch ==> input.samples@[i] == orig[i],
                forall|i: int| g * ch <= i < len ==> input.samples@[i] == orig[i],
            decreases total_frames - g,
        {
            let mut c: usize = 0;
            while c < ch
                invariant
                    ch == input.channels,
                    rate == input.sample_rate,
                    len == input.samples@.len() == orig.len(),
                    total_frames as int == total,
                    fade_in_frames as int == n_in,
                    fade_out_frames as int == n_out,
                    fade_out_start == total - n_out,
                    n_in + n_out <= total,
                    n_in * ch <= fade_out_start * ch,
                    ch > 0 ==> total * ch <= len,
                    ramps_total(ramp_in, ramp_out),
                    fade_out_start <= g < total_frames,
                    c <= ch,
                    forall|f2: int, c2: int|
                        #![trigger input.samples@[f2 * ch + c2]]
                        0 <= f2 < n_in && 0 <= c2 < ch ==> call_ensures(
                            ramp_in,
                            (orig[f2 * ch + c2], f2 as u64, n_in as u64),
                            input.samples@[f2 * ch + c2],
                        ),
                    forall|f2: int, c2: int|
                        #![trigger input.samples@[f2 * ch + c2]]
                        fade_out_start <= f2 < g && 0 <= c2 < ch ==> call_ensures(
                            ramp_out,
                            (orig[f2 * ch + c2], (f2 - fade_out_start) as u64, n_out as u64),
                            input.samples@[f2 * ch + c2],
                        ),
                    forall|c2: int|
                        0 <= c2 < c ==> call_ensures(
                            ramp_out,
                            (orig[g * ch + c2], (g - fade_out_start) as u64, n_out as u64),
                            #[trigger] input.samples@[g * ch + c2],
                        ),
                    forall|i: int| n_in * ch <= i < fade_out_start * ch ==> input.samples@[i] == orig[i],
                    forall|i: int| g * ch + c <= i < len ==> input.samples@[i] == orig[i],
                decreases ch - c,
            {
                proof {
                    lemma_frame_index(g as int, c as int, ch as int, total);
                    assert(total <= total * ch) by (nonlinear_arith)
                        requires
                            ch >= 1,
                            total >= 0,
                    ;
                }
                let idx = (g as usize) * ch + c;
                let x = input.samples[idx];
                let y = ramp_out(x, g - fade_out_start, fade_out_frames);
                let ghost prev = input.samples@;
                input.samples.set(idx, y);
                proof {
                    assert(fade_out_start * ch <= g * ch) by (nonlinear_arith)
                        requires
                            fade_out_start <= g,
                            ch >= 0,
                    ;
                    assert forall|f2: int, c2: int|
                        #![trigger input.samples@[f2 * ch + c2]]
                        0 <= f2 < n_in && 0 <= c2 < ch implies call_ensures(
                            ramp_in,
                            (orig[f2 * ch + c2], f2 as u64, n_in as u64),
                            input.samples@[f2 * ch + c2],
                        ) by {
                        lemma_frame_index(f2, c2, ch as int, n_in);
                        assert(input.samples@[f2 * ch + c2] == prev[f2 * ch + c2]);
                    }
                    assert forall|f2: int, c2: int|
                        #![trigger input.samples@[f2 * ch + c2]]
                        fade_out_start <= f2 < g && 0 <= c2 < ch implies call_ensures(
                            ramp_out,
                            (orig[f2 * ch + c2], (f2 - fade_out_start) as u64, n_out as u64),
                            input.samples@[f2 * ch + c2],
                        ) by {
                        lemma_frame_index(f2, c2, ch as int, g as int);
                        assert(input.samples@[f2 * ch + c2] == prev[f2 * ch + c2]);
                    }
                    assert forall|c2: int|
                        0 <= c2 < c + 1 implies call_ensures(
                            ramp_out,
                            (orig[g * ch + c2], (g - fade_out_start) as u64, n_out as u64),
                            #[trigger] input.samples@[g * ch + c2],
                        ) by {
                        if c2 < c {
                            assert(input.samples@[g * ch + c2] == prev[g * ch + c2]);
                        }
                    }
                    assert(fade_out_start * ch <= g * ch) by (nonlinear_arith)
                        requires
                            fade_out_start <= g,
                            ch >= 0,
                    ;
                }
                c += 1;
            }
            proof {
                assert((g + 1) * ch == g * ch + ch) by (nonlinear_arith);
                assert forall|f2: int, c2: int|
                    #![trigger input.samples@[f2 * ch + c2]]
                    fade_out_start <= f2 < g + 1 && 0 <= c2 < ch implies call_ensures(
                        ramp_out,
                        (orig[f2 * ch + c2], (f2 - fade_out_start) as u64, n_out as u64),
                        input.samples@[f2 * ch + c2],
                    ) by {
                    if f2 == g {
                    }
                }
            }
            g += 1;
        }
        assert(g == total_frames);
        proof {
            let out = input.samples@;
            assert forall|f2: int, c2: int|
                #![trigger out[f2 * ch + c2]]
                0 <= f2 < total && 0 <= c2 < ch implies faded_sample(
                    orig,
                    out,
                    ch as int,
                    total,
                    n_in,
                    n_out,
                    ramp_in,
                    ramp_out,
                    f2,
                    c2,
                ) by {
                if f2 < n_in {
                } else if f2 >= total - n_out {
                } else {
                    lemma_frame_index(f2, c2, ch as int, fade_out_start as int);
                    assert(n_in * ch <= f2 * ch) by (nonlinear_arith)
                        requires
                            n_in <= f2,
                            ch >= 0,
                    ;
                }
            }
            assert forall|i: int| total * ch <= i < len implies out[i] == orig[i] by {
            }
        }
        Ok(input)
    }
}

/// The parameters of `fade`.
pub open spec fn fade_schema_view() -> CommandView {
    file_command_view(
        "fade"@,
        "Apply fade-in and/or fade-out to audio"@,
        seq![
            param_view(
                "in"@,
                ParamType::String,
                false,
                "Fade-in duration (e.g. '2s', '0:02')"@,
                None,
                None,
            ),
            param_view(
                "out"@,
                ParamType::String,
                false,
                "Fade-out duration (e.g. '3s', '0:03')"@,
                None,
                None,
            ),
        ],
    )
}

impl FadeOp {
    /// Parameter schema of `fade`.
    pub fn schema() -> (s: CommandSchema)
        ensures
            s@ == fade_schema_view(),
    {
        let mut params = file_command_params();
        push_param(
            &mut params,
            param(
                "in",
                ParamType::String,
                false,
                "Fade-in duration (e.g. '2s', '0:02')",
                None,
                None,
            ),
        );
        push_param(
            &mut params,
            param(
                "out",
                ParamType::String,
                false,
                "Fade-out duration (e.g. '3s', '0:03')",
                None,
                None,
            ),
        );
        let s = command("fade", "Apply fade-in and/or fade-out to audio", params);
        proof {
            assert(s@.params =~= fade_schema_view().params);
        }
        s
    }
}

/// The fade rule is the same for every channel of a frame: in a fade-in frame each
/// channel's sample is `ramp_in` of the input sample at that frame's offset, in a
/// fade-out frame each channel's sample is `ramp_out` of the input sample at its offset
/// into the fade-out, and in between each sample is the input's.
pub proof fn law_fade_every_channel<S, G: Fn(S, u64, u64) -> S, H: Fn(S, u64, u64) -> S>(
    orig: Seq<S>,
    out: Seq<S>,
    ch: int,
    total: int,
    n_in: int,
    n_out: int,
    ramp_in: G,
    ramp_out: H,
    f: int,
    c: int,
)
    requires
        0 <= c < ch,
        0 <= f < total,
        0 <= n_in,
        0 <= n_out,
        n_in + n_out <= total,
        faded_sample(orig, out, ch, total, n_in, n_out, ramp_in, ramp_out, f, c),
    ensures
        f < n_in ==> call_ensures(ramp_in, (orig[f * ch + c], f as u64, n_in as u64), out[f * ch + c]),
        total - n_out <= f ==> call_ensures(
            ramp_out,
            (orig[f * ch + c], (f - (total - n_out)) as u64, n_out as u64),
            out[f * ch + c],
        ),
        n_in <= f < total - n_out ==> out[f * ch + c] == orig[f * ch + c],
{
}

} // verus!
