//! Resampling to another sample rate: the checks and the chunk plan that the
//! resampler follows.
use vstd::prelude::*;
use crate::schema::{
    command, file_command_params, file_command_view, param, param_view, push_param, CommandSchema,
    CommandView, ParamRange, ParamType,
};
use crate::error::{PanaudError, Result};
use crate::text::{dec_seq, push_decimal};

verus! {

/// Resample audio to a target sample rate.
#[derive(Debug, Clone, Copy, PartialEq, Eq, Structural)]
pub struct ResampleOp {
    pub target_rate: u32,
}

/// One block of frames handed to the resampler: frames `[start, end)`, and whether it
/// is a short final block that goes through the partial-block call.
#[derive(Debug, Clone, Copy, PartialEq, Eq, Structural)]
pub struct ResampleChunk {
    pub start: usize,
    pub end: usize,
    pub partial: bool,
}

/// Blocks of `chunk` frames from the start, the last one cut at `frames`.
pub open spec fn spec_chunks(frames: nat, chunk: nat) -> Seq<ResampleChunk> {
    Seq::new(
        (if frames == 0 {
            0
        } else {
            (frames - 1) / (chunk as int) + 1
        }) as nat,
        |i: int|
            {
                let start = i * chunk;
                let end = if start + chunk < frames {
                    start + chunk
                } else {
                    frames as int
                };
                ResampleChunk {
                    start: start as usize,
                    end: end as usize,
                    partial: end >= frames && end - start < chunk,
                }
            },
    )
}

/// The blocks in which `frames` frames go through a resampler that takes `chunk`
/// frames at a time.
pub fn resample_chunks(frames: usize, chunk: usize) -> (r: Vec<ResampleChunk>)
    requires
        chunk > 0,
    ensures
        r@ == spec_chunks(frames as nat, chunk as nat),
{
    let mut out: Vec<ResampleChunk> = Vec::new();
    let mut pos: usize = 0;
    let mut i: usize = 0;
    while pos < frames
        invariant
            chunk > 0,
            pos <= frames,
            pos < frames ==> pos == i * chunk && i <= (frames - 1) / (chunk as int),
            pos == frames ==> (frames == 0 && i == 0) || i == (frames - 1) / (chunk as int) + 1,
            out@ == spec_chunks(frames as nat, chunk as nat).subrange(0, i as int),
            i <= frames,
        decreases frames - pos,
    {
        let end = if chunk < frames - pos {
            pos + chunk
        } else {
            frames
        };
        let partial = end >= frames && end - pos < chunk;
        proof {
            assert(i <= (frames - 1) / (chunk as int));
            assert((frames - 1) / (chunk as int) <= frames - 1) by (nonlinear_arith)
                requires
                    chunk > 0,
                    frames >= 1,
            ;
        }
        out.push(ResampleChunk { start: pos, end, partial });
        proof {
            let n = if frames == 0 { 0 } else { (frames - 1) / (chunk as int) + 1 };
            assert(i < n);
            assert(out@ =~= spec_chunks(frames as nat, chunk as nat).subrange(0, i + 1));
            if pos + chunk < frames {
                assert(i + 1 <= (frames - 1) / (chunk as int)) by (nonlinear_arith)
                    requires
                        pos == i * chunk,
                        pos + chunk < frames,
                        chunk > 0,
                ;
            } else {
                assert(i + 1 == (frames - 1) / (chunk as int) + 1) by (nonlinear_arith)
                    requires
                        pos == i * chunk,
                        pos < frames,
                        pos + chunk >= frames,
                        chunk > 0,
                ;
            }
            assert((i + 1) * chunk == i * chunk + chunk) by (nonlinear_arith);
        }
        pos = end;
        i = i + 1;
    }
    proof {
        let n = if frames == 0 { 0 } else { (frames - 1) / (chunk as int) + 1 };
        assert(spec_chunks(frames as nat, chunk as nat).len() == n);
        assert(spec_chunks(frames as nat, chunk as nat).subrange(0, i as int) =~= spec_chunks(
            frames as nat,
            chunk as nat,
        ));
    }
    out
}

impl ResampleOp {
    /// A resampler to `target_rate` Hz; the rate must be positive.
    pub fn new(target_rate: u32) -> (r: Result<ResampleOp>)
        ensures
            target_rate == 0 ==> (r matches Err(PanaudError::InvalidArgument { message, suggestion })
                && message@ == "target sample rate must be greater than 0"@ && suggestion@
                == "common sample rates: 8000, 22050, 44100, 48000, 96000"@),
            target_rate > 0 ==> r == Ok::<ResampleOp, PanaudError>(ResampleOp { target_rate }),
    {
        if target_rate == 0 {
            return Err(
                PanaudError::InvalidArgument {
                    message: "target sample rate must be greater than 0".to_owned(),
                    suggestion: "common sample rates: 8000, 22050, 44100, 48000, 96000".to_owned(),
                },
            );
        }
        Ok(ResampleOp { target_rate })
    }

    pub fn name(&self) -> (s: &'static str)
        ensures
            s@ == "resample"@,
    {
        "resample"
    }

    /// Human-readable description: `Resample to <rate> Hz`.
    pub fn description(&self) -> (s: String)
        ensures
            s@ == "Resample to "@ + dec_seq(self.target_rate as nat) + " Hz"@,
    {
        let mut s = "Resample to ".to_owned();
        push_decimal(&mut s, self.target_rate as u64);
        s.append(" Hz");
        s
    }

    /// Whether audio at `input_rate` passes through unchanged.
    pub fn is_identity(&self, input_rate: u32) -> (b: bool)
        ensures
            b == (input_rate == self.target_rate),
    {
        input_rate == self.target_rate
    }
}

/// The parameters of `resample`.
pub open spec fn resample_schema_view() -> CommandView {
    file_command_view(
        "resample"@,
        "Resample audio to a target sample rate"@,
        seq![
            param_view(
                "rate"@,
                ParamType::Integer,
                true,
                "Target sample rate in Hz"@,
                None,
                Some(ParamRange { min: 1, max: 384000 }),
            ),
        ],
    )
}

impl ResampleOp {
    /// Parameter schema of `resample`.
    pub fn schema() -> (s: CommandSchema)
        ensures
            s@ == resample_schema_view(),
    {
        let mut params = file_command_params();
        push_param(
            &mut params,
            param(
                "rate",
                ParamType::Integer,
                true,
                "Target sample rate in Hz",
                None,
                Some(ParamRange { min: 1, max: 384000 }),
            ),
        );
        let s = command("resample", "Resample audio to a target sample rate", params);
        proof {
            assert(s@.params =~= resample_schema_view().params);
        }
        s
    }
}


/// The blocks cover every frame once, in order: the first starts at frame 0, each ends
/// where the next starts, none is empty or longer than `chunk`, and the last ends at
/// `frames`.
pub proof fn law_chunks_cover(frames: nat, chunk: nat)
    requires
        chunk > 0,
        frames > 0,
        frames <= usize::MAX,
    ensures
        ({
            let c = spec_chunks(frames, chunk);
            &&& c.len() > 0
            &&& c[0].start == 0
            &&& c[c.len() - 1].end == frames
            &&& forall|i: int| 0 <= i < c.len() ==> c[i].start < #[trigger] c[i].end <= c[i].start + chunk
            &&& forall|i: int| 0 <= i < c.len() - 1 ==> #[trigger] c[i].end == c[i + 1].start
        }),
{
    let c = spec_chunks(frames, chunk);
    let n = (frames - 1) / (chunk as int) + 1;
    assert(c.len() == n);
    assert((n - 1) * chunk <= frames - 1) by (nonlinear_arith)
        requires
            n - 1 == (frames - 1) / (chunk as int),
            chunk > 0,
            frames > 0,
    ;
    assert forall|i: int| 0 <= i < c.len() implies c[i].start < #[trigger] c[i].end <= c[i].start + chunk by {
        assert(0 <= i * chunk <= (n - 1) * chunk) by (nonlinear_arith)
            requires
                0 <= i < n,
                chunk > 0,
        ;
        assert(c[i].start == i * chunk);
    }
    assert forall|i: int| 0 <= i < c.len() - 1 implies #[trigger] c[i].end == c[i + 1].start by {
        assert(0 <= i * chunk && (i + 1) * chunk <= (n - 1) * chunk) by (nonlinear_arith)
            requires
                0 <= i < n - 1,
                chunk > 0,
        ;
        assert((i + 1) * chunk == i * chunk + chunk) by (nonlinear_arith);
        assert(c[i + 1].start == (i + 1) * chunk);
    }
    assert(0 <= (n - 1) * chunk) by (nonlinear_arith)
        requires
            n >= 1,
            chunk > 0,
    ;
    assert((n - 1) * chunk + chunk >= frames) by (nonlinear_arith)
        requires
            n - 1 == (frames - 1) / (chunk as int),
            chunk > 0,
            frames > 0,
    ;
}

/// A block goes through the partial-block call exactly when it is the last one (it ends
/// at the last frame) and holds fewer frames than a full chunk; every other block is a
/// full chunk.
pub proof fn law_partial_only_short_last(frames: nat, chunk: nat)
    requires
        chunk > 0,
        frames <= usize::MAX,
    ensures
        forall|i: int|
            0 <= i < spec_chunks(frames, chunk).len() ==> ((#[trigger] spec_chunks(frames, chunk)[i]).partial <==> (
            spec_chunks(frames, chunk)[i].end == frames && spec_chunks(frames, chunk)[i].end
                - spec_chunks(frames, chunk)[i].start < chunk)),
        forall|i: int|
            0 <= i < spec_chunks(frames, chunk).len() ==> !(#[trigger] spec_chunks(frames, chunk)[i]).partial
                ==> spec_chunks(frames, chunk)[i].end - spec_chunks(frames, chunk)[i].start == chunk,
{
    let c = spec_chunks(frames, chunk);
    assert forall|i: int| 0 <= i < c.len() implies ((#[trigger] c[i]).partial <==> (c[i].end == frames && c[i].end
        - c[i].start < chunk)) && (!c[i].partial ==> c[i].end - c[i].start == chunk) by {
        assert(frames > 0);
        assert(i <= (frames - 1) / (chunk as int));
        assert(i * chunk <= frames - 1) by (nonlinear_arith)
            requires
                0 <= i <= (frames - 1) / (chunk as int),
                chunk > 0,
                frames >= 1,
        ;
    }
}

} // verus!
