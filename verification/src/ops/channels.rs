//! Changing the channel layout of audio.
use vstd::prelude::*;
use crate::schema::{
    command, file_command_params, file_command_view, param, param_view, param_with_choices, push_param,
    push_string, string_views, CommandSchema, CommandView, ParamType, ParamView,
};
use crate::error::{PanaudError, Result};
use crate::text::{dec_seq, push_decimal};
use crate::types::{lemma_frame_index, lemma_frames_fit, AudioData};

verus! {

/// Which channel to extract.
#[derive(Debug, Clone, Copy, PartialEq, Eq, Structural)]
pub enum ChannelSelector {
    Left,
    Right,
    Index(u16),
}

/// Channel conversion mode.
#[derive(Debug, Clone, Copy, PartialEq, Eq, Structural)]
pub enum ChannelMode {
    /// Mix down to mono (average all channels).
    Mono,
    /// Upmix mono to stereo (duplicate).
    Stereo,
    /// Set a specific channel count.
    Count(u16),
    /// Extract a single channel by name or index.
    Extract(ChannelSelector),
}

impl ChannelSelector {
    pub open spec fn spec_text(self) -> Seq<char> {
        match self {
            ChannelSelector::Left => "left"@,
            ChannelSelector::Right => "right"@,
            ChannelSelector::Index(i) => "channel "@ + dec_seq(i as nat),
        }
    }

    /// The text that names the selector: `left`, `right` or `channel N`.
    pub fn to_display_string(&self) -> (s: String)
        ensures
            s@ == self.spec_text(),
    {
        match self {
            ChannelSelector::Left => "left".to_owned(),
            ChannelSelector::Right => "right".to_owned(),
            ChannelSelector::Index(i) => {
                let mut s = "channel ".to_owned();
                push_decimal(&mut s, *i as u64);
                s
            },
        }
    }
}

impl ChannelMode {
    pub open spec fn spec_text(self) -> Seq<char> {
        match self {
            ChannelMode::Mono => "mono"@,
            ChannelMode::Stereo => "stereo"@,
            ChannelMode::Count(n) => dec_seq(n as nat) + " channels"@,
            ChannelMode::Extract(sel) => "extract "@ + sel.spec_text(),
        }
    }

    /// The text that describes the mode: `mono`, `stereo`, `N channels` or `extract <sel>`.
    pub fn to_display_string(&self) -> (s: String)
        ensures
            s@ == self.spec_text(),
    {
        match self {
            ChannelMode::Mono => "mono".to_owned(),
            ChannelMode::Stereo => "stereo".to_owned(),
            ChannelMode::Count(n) => {
                let mut s = String::new();
                push_decimal(&mut s, *n as u64);
                s.append(" channels");
                proof {
                    assert(s@ =~= dec_seq(*n as nat) + " channels"@);
                }
                s
            },
            ChannelMode::Extract(sel) => {
                let mut s = "extract ".to_owned();
                let t = sel.to_display_string();
                s.append(t.as_str());
                s
            },
        }
    }
}

/// Change the channel layout of audio.
#[derive(Debug, Clone, Copy, PartialEq, Eq, Structural)]
pub struct ChannelsOp {
    pub mode: ChannelMode,
}

/// `mix` can be asked for any frame of any sample buffer.
pub open spec fn mixer_total<S, F: Fn(&Vec<S>, usize, usize) -> S>(mix: F) -> bool {
    forall|v: &Vec<S>, start: usize, n: usize| start + n <= v@.len() ==> call_requires(mix, (v, start, n))
}

/// `out` holds, for every frame of `input`, the channels listed in `picks`, in order.
pub open spec fn picks_channels<S>(input: AudioData<S>, picks: Seq<int>, out: Seq<S>) -> bool {
    let ch = input.channels as int;
    let k = picks.len();
    &&& out.len() == input.frames() * k
    &&& forall|f: int, j: int|
        0 <= f < input.frames() && 0 <= j < k ==> #[trigger] out[f * k + j] == input.samples@[f * ch
            + picks[j]]
}

/// `out` holds, for every frame of `input`, `copies` copies of what `mix` makes of it.
pub open spec fn mixed_copies<S, F: Fn(&Vec<S>, usize, usize) -> S>(
    input: AudioData<S>,
    mix: F,
    copies: int,
    out: Seq<S>,
) -> bool {
    let ch = input.channels as int;
    &&& out.len() == input.frames() * copies
    &&& forall|f: int, j: int|
        0 <= f < input.frames() && 0 <= j < copies ==> call_ensures(
            mix,
            (&input.samples, (f * ch) as usize, ch as usize),
            #[trigger] out[f * copies + j],
        )
}

/// `0, 1, ..., k - 1`.
pub open spec fn first_channels(k: int) -> Seq<int> {
    Seq::new(k as nat, |j: int| j)
}

/// Takes the channels `picks` of every frame.
fn pick_channels<S: Copy>(input: &AudioData<S>, picks: &Vec<u16>) -> (r: Vec<S>)
    requires
        forall|j: int| 0 <= j < picks@.len() ==> (#[trigger] picks@[j]) < input.channels,
    ensures
        picks_channels(*input, picks@.map_values(|p: u16| p as int), r@),
{
    let ch = input.channels as usize;
    let k = picks.len();
    let nf = input.num_frames();
    let ghost pk = picks@.map_values(|p: u16| p as int);
    let mut out: Vec<S> = Vec::new();
    if k == 0 {
        assert(out@.len() == input.frames() * 0);
        return out;
    }
    assert(picks@[0] < input.channels);
    assert(ch > 0);
    proof {
        lemma_frames_fit(input.samples@.len(), input.channels, nf as nat);
    }
    let total_len = input.samples.len();
    let num_frames = nf as usize;
    let mut f: usize = 0;
    while f < num_frames
        invariant
            ch == input.channels,
            ch > 0,
            k == picks@.len(),
            k > 0,
            pk == picks@.map_values(|p: u16| p as int),
            num_frames == input.frames(),
            num_frames * ch <= input.samples@.len(),
            total_len == input.samples@.len(),
            forall|j: int| 0 <= j < picks@.len() ==> (#[trigger] picks@[j]) < input.channels,
            f <= num_frames,
            out@.len() == f * k,
            forall|f2: int, j: int|
                0 <= f2 < f && 0 <= j < k ==> #[trigger] out@[f2 * k + j] == input.samples@[f2
                    * ch + pk[j]],
        decreases num_frames - f,
    {
        let mut j: usize = 0;
        while j < k
            invariant
                ch == input.channels,
                ch > 0,
                k == picks@.len(),
                pk == picks@.map_values(|p: u16| p as int),
                num_frames == input.frames(),
                num_frames * ch <= input.samples@.len(),
                total_len == input.samples@.len(),
                forall|j2: int| 0 <= j2 < picks@.len() ==> (#[trigger] picks@[j2]) < input.channels,
                f < num_frames,
                j <= k,
                out@.len() == f * k + j,
                forall|f2: int, j2: int|
                    0 <= f2 < f && 0 <= j2 < k ==> #[trigger] out@[f2 * k + j2] == input.samples@[f2
                        * ch + pk[j2]],
                forall|j2: int| 0 <= j2 < j ==> #[trigger] out@[f * k + j2] == input.samples@[f * ch
                    + pk[j2]],
            decreases k - j,
        {
            let p = picks[j] as usize;
            proof {
                lemma_frame_index(f as int, p as int, ch as int, num_frames as int);
            }
            let ghost prev = out@;
            out.push(input.samples[f * ch + p]);
            proof {
                assert forall|f2: int, j2: int|
                    0 <= f2 < f && 0 <= j2 < k implies #[trigger] out@[f2 * k + j2]
                        == input.samples@[f2 * ch + pk[j2]] by {
                    lemma_frame_index(f2, j2, k as int, f as int);
                    assert(out@[f2 * k + j2] == prev[f2 * k + j2]);
                }
                assert forall|j2: int| 0 <= j2 < j + 1 implies #[trigger] out@[f * k + j2]
                    == input.samples@[f * ch + pk[j2]] by {
                    if j2 < j {
                        assert(out@[f * k + j2] == prev[f * k + j2]);
                    }
                }
            }
            j += 1;
        }
        proof {
            assert((f + 1) * k == f * k + k) by (nonlinear_arith);
            assert forall|f2: int, j2: int|
                0 <= f2 < f + 1 && 0 <= j2 < k implies #[trigger] out@[f2 * k + j2]
                    == input.samples@[f2 * ch + pk[j2]] by {
                if f2 == f {
                }
            }
        }
        f += 1;
    }
    out
}

/// Mixes every frame with `mix` and keeps `copies` copies of each result.
fn mix_frames<S: Copy, F: Fn(&Vec<S>, usize, usize) -> S>(input: &AudioData<S>, mix: &F, copies: usize) -> (r: Vec<S>)
    requires
        mixer_total(*mix),
    ensures
        mixed_copies(*input, *mix, copies as int, r@),
{
    let ch = input.channels as usize;
    let nf = input.num_frames();
    let mut out: Vec<S> = Vec::new();
    if ch == 0 {
        assert(input.frames() == 0);
        assert(out@.len() == input.frames() * copies);
        return out;
    }
    proof {
        lemma_frames_fit(input.samples@.len(), input.channels, nf as nat);
    }
    let total_len = input.samples.len();
    let num_frames = nf as usize;
    let mut f: usize = 0;
    while f < num_frames
        invariant
            ch == input.channels,
            ch > 0,
            mixer_total(*mix),
            num_frames == input.frames(),
            num_frames * ch <= input.samples@.len(),
            total_len == input.samples@.len(),
            f <= num_frames,
            out@.len() == f * copies,
            forall|f2: int, j: int|
                0 <= f2 < f && 0 <= j < copies ==> call_ensures(
                    *mix,
                    (&input.samples, (f2 * ch) as usize, ch as usize),
                    #[trigger] out@[f2 * copies + j],
                ),
        decreases num_frames - f,
    {
        proof {
            lemma_frame_index(f as int, (ch - 1) as int, ch as int, num_frames as int);
        }
        let m = mix(&input.samples, f * ch, ch);
        let mut j: usize = 0;
        while j < copies
            invariant
                ch == input.channels,
                num_frames == input.frames(),
                f < num_frames,
                j <= copies,
                out@.len() == f * copies + j,
                call_ensures(*mix, (&input.samples, (f * ch) as usize, ch as usize), m),
                forall|f2: int, j2: int|
                    0 <= f2 < f && 0 <= j2 < copies ==> call_ensures(
                        *mix,
                        (&input.samples, (f2 * ch) as usize, ch as usize),
                        #[trigger] out@[f2 * copies + j2],
                    ),
                forall|j2: int| 0 <= j2 < j ==> #[trigger] out@[f * copies + j2] == m,
            decreases copies - j,
        {
            let ghost prev = out@;
            out.push(m);
            proof {
                assert forall|f2: int, j2: int|
                    0 <= f2 < f && 0 <= j2 < copies implies call_ensures(
                        *mix,
                        (&input.samples, (f2 * ch) as usize, ch as usize),
                        #[trigger] out@[f2 * copies + j2],
                    ) by {
                    lemma_frame_index(f2, j2, copies as int, f as int);
                    assert(out@[f2 * copies + j2] == prev[f2 * copies + j2]);
                }
                assert forall|j2: int| 0 <= j2 < j + 1 implies #[trigger] out@[f * copies + j2] == m by {
                    if j2 < j {
                        assert(out@[f * copies + j2] == prev[f * copies + j2]);
                    }
                }
            }
            j += 1;
        }
        proof {
            assert((f + 1) * copies == f * copies + copies) by (nonlinear_arith);
            assert forall|f2: int, j2: int|
                0 <= f2 < f + 1 && 0 <= j2 < copies implies call_ensures(
                    *mix,
                    (&input.samples, (f2 * ch) as usize, ch as usize),
                    #[trigger] out@[f2 * copies + j2],
                ) by {
                if f2 == f {
                    assert(out@[f * copies + j2] == m);
                }
            }
        }
        f += 1;
    }
    out
}

/// The list `0, 1, ..., k - 1`.
fn first_k(k: u16) -> (r: Vec<u16>)
    ensures
        r@.len() == k,
        forall|j: int| 0 <= j < k ==> #[trigger] r@[j] == j,
{
    let mut v: Vec<u16> = Vec::new();
    let mut i: u16 = 0;
    while i < k
        invariant
            i <= k,
            v@.len() == i,
            forall|j: int| 0 <= j < i ==> #[trigger] v@[j] == j,
        decreases k - i,
    {
        v.push(i);
        i += 1;
    }
    v
}

impl ChannelsOp {
    pub fn new(mode: ChannelMode) -> (r: ChannelsOp)
        ensures
            r.mode == mode,
    {
        ChannelsOp { mode }
    }

    pub fn name(&self) -> (s: &'static str)
        ensures
            s@ == "channels"@,
    {
        "channels"
    }

    /// Human-readable description: `Convert channels: <mode>`.
    pub fn description(&self) -> (s: String)
        ensures
            s@ == "Convert channels: "@ + self.mode.spec_text(),
    {
        let mut s = "Convert channels: ".to_owned();
        let t = self.mode.to_display_string();
        s.append(t.as_str());
        s
    }

    /// Applies the channel conversion. `mix(samples, start, n)` averages the `n`
    /// samples from `start` (one frame); it makes mono mixes and the source of upmixes.
    pub fn apply<S: Copy, F: Fn(&Vec<S>, usize, usize) -> S>(&self, input: AudioData<S>, mix: F) -> (r: Result<AudioData<S>>)
        requires
            mixer_total(mix),
        ensures
            ({
                let ch = input.channels as int;
                match self.mode {
                    ChannelMode::Mono => if ch == 1 {
                        r == Ok::<AudioData<S>, PanaudError>(input)
                    } else {
                        r is Ok && r->Ok_0.channels == 1 && r->Ok_0.sample_rate == input.sample_rate
                            && mixed_copies(input, mix, 1, r->Ok_0.samples@)
                    },
                    ChannelMode::Stereo => if ch == 2 {
                        r == Ok::<AudioData<S>, PanaudError>(input)
                    } else if ch == 1 {
                        r is Ok && r->Ok_0.channels == 2 && r->Ok_0.sample_rate == input.sample_rate
                            && picks_channels(input, seq![0int, 0int], r->Ok_0.samples@)
                    } else if ch == 0 {
                        r is Ok && r->Ok_0.channels == 2 && r->Ok_0.sample_rate == input.sample_rate
                            && r->Ok_0.samples@.len() == 0
                    } else {
                        r is Ok && r->Ok_0.channels == 2 && r->Ok_0.sample_rate == input.sample_rate
                            && picks_channels(input, seq![0int, 1int], r->Ok_0.samples@)
                    },
                    ChannelMode::Count(t) => if t == ch {
                        r == Ok::<AudioData<S>, PanaudError>(input)
                    } else if t == 0 {
                        r matches Err(PanaudError::InvalidArgument { message, suggestion }) && message@
                            == "channel count must be at least 1"@ && suggestion@
                            == "use --mono for single channel or --count N where N >= 1"@
                    } else if t < ch {
                        r is Ok && r->Ok_0.channels == t && r->Ok_0.sample_rate == input.sample_rate
                            && picks_channels(input, first_channels(t as int), r->Ok_0.samples@)
                    } else {
                        r is Ok && r->Ok_0.channels == t && r->Ok_0.sample_rate == input.sample_rate
                            && mixed_copies(input, mix, t as int, r->Ok_0.samples@)
                    },
                    ChannelMode::Extract(sel) => {
                        let idx: int = match sel {
                            ChannelSelector::Left => 0,
                            ChannelSelector::Right => 1,
                            ChannelSelector::Index(i) => i as int,
                        };
                        if sel is Right && ch < 2 {
                            r matches Err(PanaudError::InvalidArgument { message, suggestion }) && message@
                                == "cannot extract right channel from mono audio"@ && suggestion@
                                == "input has only 1 channel"@
                        } else if sel is Index && idx >= ch {
                            r matches Err(PanaudError::InvalidArgument { message, suggestion }) && message@
                                == "channel index "@ + dec_seq(idx as nat) + " is out of range (audio has "@
                                + dec_seq(ch as nat) + " channels)"@ && suggestion@
                                == "use an index between 0 and "@ + dec_seq(
                                if ch == 0 {
                                    0nat
                                } else {
                                    (ch - 1) as nat
                                },
                            )
                        } else if ch == 0 {
                            r is Ok && r->Ok_0.channels == 1 && r->Ok_0.sample_rate
                                == input.sample_rate && r->Ok_0.samples@.len() == 0
                        } else {
                            r is Ok && r->Ok_0.channels == 1 && r->Ok_0.sample_rate
                                == input.sample_rate && picks_channels(
                                input,
                                seq![idx],
                                r->Ok_0.samples@,
                            )
                        }
                    },
                }
            }),
    {
        let in_ch = input.channels;
        match self.mode {
            ChannelMode::Mono => {
                if in_ch == 1 {
                    return Ok(input);
                }
                let samples = mix_frames(&input, &mix, 1);
                Ok(AudioData { samples, sample_rate: input.sample_rate, channels: 1 })
            },
            ChannelMode::Stereo => {
                if in_ch == 2 {
                    return Ok(input);
                }
                if in_ch == 0 {
                    let samples: Vec<S> = Vec::new();
                    return Ok(AudioData { samples, sample_rate: input.sample_rate, channels: 2 });
                }
                let mut picks: Vec<u16> = Vec::new();
                picks.push(0);
                if in_ch == 1 {
                    picks.push(0);
                } else {
                    picks.push(1);
                }
                let samples = pick_channels(&input, &picks);
                proof {
                    if in_ch == 1 {
                        assert(picks@.map_values(|p: u16| p as int) =~= seq![0int, 0int]);
                    } else {
                        assert(picks@.map_values(|p: u16| p as int) =~= seq![0int, 1int]);
                    }
                }
                Ok(AudioData { samples, sample_rate: input.sample_rate, channels: 2 })
            },
            ChannelMode::Count(target) => {
                if target == in_ch {
                    return Ok(input);
                }
                if target == 0 {
                    return Err(
                        PanaudError::InvalidArgument {
                            message: "channel count must be at least 1".to_owned(),
                            suggestion: "use --mono for single channel or --count N where N >= 1".to_owned(),
                        },
                    );
                }
                if target < in_ch {
                    let picks = first_k(target);
                    let samples = pick_channels(&input, &picks);
                    proof {
                        assert(picks@.map_values(|p: u16| p as int) =~= first_channels(target as int));
                    }
                    Ok(AudioData { samples, sample_rate: input.sample_rate, channels: target })
                } else {
                    let samples = mix_frames(&input, &mix, target as usize);
                    Ok(AudioData { samples, sample_rate: input.sample_rate, channels: target })
                }
            },
            ChannelMode::Extract(selector) => {
                let ch_idx: u16 = match selector {
                    ChannelSelector::Left => 0,
                    ChannelSelector::Right => {
                        if in_ch < 2 {
                            return Err(
                                PanaudError::InvalidArgument {
                                    message: "cannot extract right channel from mono audio".to_owned(),
                                    suggestion: "input has only 1 channel".to_owned(),
                                },
                            );
                        }
                        1
                    },
                    ChannelSelector::Index(i) => {
                        if i >= in_ch {
                            let mut message = "channel index ".to_owned();
                            push_decimal(&mut message, i as u64);
                            message.append(" is out of range (audio has ");
                            push_decimal(&mut message, in_ch as u64);
                            message.append(" channels)");
                            let mut suggestion = "use an index between 0 and ".to_owned();
                            let top: u16 = if in_ch == 0 {
                                0
                            } else {
                                in_ch - 1
                            };
                            push_decimal(&mut suggestion, top as u64);
                            proof {
                                assert(message@ =~= "channel index "@ + dec_seq(i as nat)
                                    + " is out of range (audio has "@ + dec_seq(in_ch as nat) + " channels)"@);
                            }
                            return Err(PanaudError::InvalidArgument { message, suggestion });
                        }
                        i
                    },
                };
                if in_ch == 0 {
                    let samples: Vec<S> = Vec::new();
                    return Ok(AudioData { samples, sample_rate: input.sample_rate, channels: 1 });
                }
                let mut picks: Vec<u16> = Vec::new();
                picks.push(ch_idx);
                let samples = pick_channels(&input, &picks);
                proof {
                    assert(picks@.map_values(|p: u16| p as int) =~= seq![ch_idx as int]);
                }
                Ok(AudioData { samples, sample_rate: input.sample_rate, channels: 1 })
            },
        }
    }
}


/// The parameters of `channels`.
pub open spec fn channels_schema_view() -> CommandView {
    file_command_view(
        "channels"@,
        "Change audio channel layout"@,
        seq![
            param_view("mono"@, ParamType::Boolean, false, "Mix down to mono"@, None, None),
            param_view("stereo"@, ParamType::Boolean, false, "Convert to stereo"@, None, None),
            param_view("count"@, ParamType::Integer, false, "Target channel count"@, None, None),
            ParamView {
                name: "extract"@,
                param_type: ParamType::String,
                required: false,
                description: "Extract a channel (left, right, or numeric index)"@,
                default: None,
                choices: Some(seq!["left"@, "right"@]),
                range: None,
            },
        ],
    )
}

impl ChannelsOp {
    /// Parameter schema of `channels`.
    pub fn schema() -> (s: CommandSchema)
        ensures
            s@ == channels_schema_view(),
    {
        let mut params = file_command_params();
        push_param(&mut params, param("mono", ParamType::Boolean, false, "Mix down to mono", None, None));
        push_param(
            &mut params,
            param("stereo", ParamType::Boolean, false, "Convert to stereo", None, None),
        );
        push_param(
            &mut params,
            param("count", ParamType::Integer, false, "Target channel count", None, None),
        );
        let mut choices: Vec<String> = Vec::new();
        push_string(&mut choices, "left");
        push_string(&mut choices, "right");
        assert(string_views(choices@) =~= seq!["left"@, "right"@]);
        push_param(
            &mut params,
            param_with_choices(
                "extract",
                ParamType::String,
                false,
                "Extract a channel (left, right, or numeric index)",
                choices,
            ),
        );
        let s = command("channels", "Change audio channel layout", params);
        proof {
            assert(s@.params =~= channels_schema_view().params);
        }
        s
    }
}


/// Making stereo of mono audio and extracting either channel gives back the mono
/// samples.
pub proof fn law_stereo_then_extract<S>(mono: AudioData<S>, stereo: AudioData<S>, side: int, out: AudioData<S>)
    requires
        mono.channels == 1,
        stereo.channels == 2,
        picks_channels(mono, seq![0int, 0int], stereo.samples@),
        side == 0 || side == 1,
        out.channels == 1,
        picks_channels(stereo, seq![side], out.samples@),
    ensures
        out.samples@ == mono.samples@,
{
    let n = mono.samples@.len();
    assert(mono.frames() == n);
    assert(stereo.samples@.len() == n * 2);
    assert(stereo.frames() == n);
    assert(out.samples@.len() == stereo.frames() * 1);
    assert(out.samples@.len() == n);
    assert forall|f: int| 0 <= f < n implies out.samples@[f] == mono.samples@[f] by {
        assert(out.samples@[f * 1 + 0] == stereo.samples@[f * 2 + side]);
        assert(stereo.samples@[f * 2 + side] == mono.samples@[f * 1 + seq![0int, 0int][side]]);
    }
    assert(out.samples@ =~= mono.samples@);
}

} // verus!
