//! Shared steps of the commands that run one pipeline from an input file to an output file.
use vstd::prelude::*;
use crate::cli::{IoArgs, OutputFormat};
use crate::commands::{require_encodable, spec_format_of_path};
use crate::error::{PanaudError, Result};
use crate::types::AudioFormat;

verus! {

/// Shared context for pipeline-based commands: the input and output paths in effect.
#[derive(Debug)]
pub struct PipelineContext<'a> {
    pub input: &'a str,
    pub output_path_str: String,
    pub format: OutputFormat,
}

impl<'a> PipelineContext<'a> {
    /// Checks that the I/O arguments name an input and an output; the error carries
    /// `usage: <usage>` as its suggestion.
    pub fn from_io_args(io: &'a IoArgs, format: OutputFormat, usage: &str) -> (r: Result<PipelineContext<'a>>)
        ensures
            io.input is None ==> (r matches Err(PanaudError::InvalidArgument { message, suggestion })
                && message@ == "missing required argument: input"@ && suggestion@ == "usage: "@
                + usage@),
            io.input is Some && io.spec_output_path() is None ==> (r matches Err(
                PanaudError::InvalidArgument { message, suggestion },
            ) && message@ == "missing required argument: output (-o)"@ && suggestion@ == "usage: "@
                + usage@),
            io.input is Some && io.spec_output_path() is Some ==> (r matches Ok(c) && c.input@
                == io.input->0@ && Some(c.output_path_str@) == io.spec_output_path() && c.format
                == format),
    {
        let input = match &io.input {
            Some(i) => i.as_str(),
            None => {
                let mut suggestion = "usage: ".to_owned();
                suggestion.append(usage);
                return Err(
                    PanaudError::InvalidArgument {
                        message: "missing required argument: input".to_owned(),
                        suggestion,
                    },
                );
            },
        };
        let output_path_str = match io.output_path() {
            Some(o) => o.to_owned(),
            None => {
                let mut suggestion = "usage: ".to_owned();
                suggestion.append(usage);
                return Err(
                    PanaudError::InvalidArgument {
                        message: "missing required argument: output (-o)".to_owned(),
                        suggestion,
                    },
                );
            },
        };
        Ok(PipelineContext { input, output_path_str, format })
    }
}

/// The format a pipeline command writes: the output path's, else the input path's,
/// else WAV; it must be one that can be encoded.
pub fn pipeline_output_format(output_path: &str, input_path: &str) -> (r: Result<AudioFormat>)
    ensures
        ({
            let f = match spec_format_of_path(output_path@) {
                Some(x) => x,
                None => match spec_format_of_path(input_path@) {
                    Some(y) => y,
                    None => AudioFormat::Wav,
                },
            };
            if f.spec_can_encode() {
                r == Ok::<AudioFormat, PanaudError>(f)
            } else {
                r matches Err(PanaudError::UnsupportedFormat { format, suggestion }) && format@ == f.spec_name()
                    && suggestion@ == "use a supported output format extension (e.g. .wav, .flac, .mp3)"@
            }
        }),
{
    let f = match AudioFormat::from_path(output_path) {
        Some(x) => x,
        None => match AudioFormat::from_path(input_path) {
            Some(y) => y,
            None => AudioFormat::Wav,
        },
    };
    require_encodable(f, "use a supported output format extension (e.g. .wav, .flac, .mp3)")
}

} // verus!
