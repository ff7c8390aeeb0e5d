//! The `concat` command.
use vstd::prelude::*;
use crate::ops::concat::{channel_mismatch, channel_mismatch_message, extend_from, rate_mismatch, rate_mismatch_message};
use crate::types::AudioData;
use crate::schema::{command, param, param_view, push_param, CommandSchema, CommandView, ParamDefault, ParamSchema, ParamType};
use crate::commands::{require_encodable, spec_format_of_path};
use crate::error::{PanaudError, Result};
use crate::types::AudioFormat;

verus! {

/// The format `concat` writes: the output path's, else WAV; it must be one that can be
/// encoded.
pub fn concat_output_format(output_path: &str) -> (r: Result<AudioFormat>)
    ensures
        ({
            let f = match spec_format_of_path(output_path@) {
                Some(x) => x,
                None => AudioFormat::Wav,
            };
            if f.spec_can_encode() {
                r == Ok::<AudioFormat, PanaudError>(f)
            } else {
                r matches Err(PanaudError::UnsupportedFormat { format, suggestion }) && format@ == f.spec_name()
                    && suggestion@ == "use a supported output format extension (e.g. .wav, .flac, .mp3)"@
            }
        }),
{
    let f = match AudioFormat::from_path(output_path) {
        Some(x) => x,
        None => AudioFormat::Wav,
    };
    require_encodable(f, "use a supported output format extension (e.g. .wav, .flac, .mp3)")
}


/// The parameters of `concat`.
pub open spec fn concat_schema_view() -> CommandView {
    CommandView {
        command: "concat"@,
        description: "Concatenate multiple audio files into one"@,
        params: seq![
            param_view(
                "inputs"@,
                ParamType::Path,
                true,
                "Input audio files (two or more)"@,
                None,
                None,
            ),
            param_view(
                "output"@,
                ParamType::Path,
                true,
                "Output file path"@,
                None,
                None,
            ),
            param_view(
                "overwrite"@,
                ParamType::Boolean,
                false,
                "Overwrite output if it exists"@,
                Some(ParamDefault::Flag(false)),
                None,
            ),
        ],
    }
}

/// Parameter schema of `concat`.
pub fn schema() -> (s: CommandSchema)
    ensures
        s@ == concat_schema_view(),
{
    let mut params: Vec<ParamSchema> = Vec::new();
    push_param(
        &mut params,
        param(
            "inputs",
            ParamType::Path,
            true,
            "Input audio files (two or more)",
            None,
            None,
        ),
    );
    push_param(
        &mut params,
        param(
            "output",
            ParamType::Path,
            true,
            "Output file path",
            None,
            None,
        ),
    );
    push_param(
        &mut params,
        param(
            "overwrite",
            ParamType::Boolean,
            false,
            "Overwrite output if it exists",
            Some(ParamDefault::Flag(false)),
            None,
        ),
    );
    let s = command("concat", "Concatenate multiple audio files into one", params);
    proof {
        assert(s@.params =~= concat_schema_view().params);
    }
    s
}


/// The output path of `concat`, once there is at least one input and an output; the
/// errors say which is missing.
pub fn concat_output_arg(inputs: &Vec<String>, output: &Option<String>) -> (r: Result<String>)
    ensures
        inputs@.len() == 0 ==> (r matches Err(PanaudError::InvalidArgument { message, suggestion })
            && message@ == "missing required argument: inputs"@ && suggestion@
            == "usage: panaud concat <file1> <file2> ... -o <output>"@),
        inputs@.len() > 0 && output is None ==> (r matches Err(
            PanaudError::InvalidArgument { message, suggestion },
        ) && message@ == "missing required argument: output (-o)"@ && suggestion@
            == "usage: panaud concat <file1> <file2> ... -o <output>"@),
        inputs@.len() > 0 && output is Some ==> (r matches Ok(o) && o@ == output->0@),
{
    if inputs.len() == 0 {
        return Err(
            PanaudError::InvalidArgument {
                message: "missing required argument: inputs".to_owned(),
                suggestion: "usage: panaud concat <file1> <file2> ... -o <output>".to_owned(),
            },
        );
    }
    match output {
        Some(o) => Ok(o.clone()),
        None => Err(
            PanaudError::InvalidArgument {
                message: "missing required argument: output (-o)".to_owned(),
                suggestion: "usage: panaud concat <file1> <file2> ... -o <output>".to_owned(),
            },
        ),
    }
}

/// Appends input `index` (decoded) to what has been joined so far, when its sample rate
/// and channel count are those of the first input; otherwise leaves it unchanged and
/// says which differs.
pub fn append_input<S: Copy>(combined: &mut AudioData<S>, index: u64, next: &AudioData<S>) -> (r: Result<()>)
    ensures
        next.sample_rate == old(combined).sample_rate && next.channels == old(combined).channels ==> (
        r is Ok && final(combined).samples@ == old(combined).samples@ + next.samples@
            && final(combined).sample_rate == old(combined).sample_rate && final(combined).channels
            == old(combined).channels),
        next.sample_rate != old(combined).sample_rate ==> (r matches Err(
            PanaudError::FormatMismatch { message, .. },
        ) && message@ == rate_mismatch_message(
            index as nat,
            next.sample_rate as nat,
            old(combined).sample_rate as nat,
        ) && final(combined).samples@ == old(combined).samples@ && final(combined).sample_rate == old(combined).sample_rate && final(combined).channels == old(combined).channels),
        next.sample_rate == old(combined).sample_rate && next.channels != old(combined).channels ==> (
        r matches Err(PanaudError::FormatMismatch { message, .. }) && message@
            == channel_mismatch_message(index as nat, next.channels as nat, old(combined).channels as nat)
            && final(combined).samples@ == old(combined).samples@ && final(combined).sample_rate == old(combined).sample_rate && final(combined).channels == old(combined).channels),
{
    if next.sample_rate != combined.sample_rate {
        return Err(rate_mismatch(index, next.sample_rate, combined.sample_rate));
    }
    if next.channels != combined.channels {
        return Err(channel_mismatch(index, next.channels, combined.channels));
    }
    extend_from(&mut combined.samples, &next.samples);
    Ok(())
}

} // verus!
