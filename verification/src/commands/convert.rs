//! The `convert` command.
use vstd::prelude::*;
use crate::schema::{
    command, param, param_view, param_with_choices, push_param, CommandSchema, CommandView, ParamDefault,
    ParamSchema, ParamType, ParamView,
};
use crate::commands::{require_encodable, spec_format_of_path};
use crate::error::{PanaudError, Result};
use crate::types::{all_formats, encodable_texts, encodable_texts_of_all, spec_format_of_extension, AudioFormat};

verus! {

/// The source and target formats of `convert`: the source from the input's extension;
/// the target from `--to`, else from the output's extension; the target must be one that
/// can be encoded.
pub fn convert_formats(input_path: &str, output_path: &str, to: Option<&str>) -> (r: Result<(AudioFormat, AudioFormat)>)
    ensures
        match spec_format_of_path(input_path@) {
            None => r matches Err(PanaudError::UnknownFormat { path, suggestion }) && path@ == input_path@
                && suggestion@ == "use a recognized audio extension: wav, mp3, flac, ogg, aac"@,
            Some(src) => match to {
                Some(t) => match spec_format_of_extension(t@) {
                    None => r matches Err(PanaudError::UnsupportedFormat { format, suggestion }) && format@
                        == t@ && suggestion@
                        == "unsupported output format; use a format with encoding support"@,
                    Some(dst) => if dst.spec_can_encode() {
                        r == Ok::<(AudioFormat, AudioFormat), PanaudError>((src, dst))
                    } else {
                        r matches Err(PanaudError::UnsupportedFormat { format, suggestion }) && format@
                            == dst.spec_name() && suggestion@
                            == "use a supported output format extension (e.g. .wav, .flac, .mp3)"@
                    },
                },
                None => match spec_format_of_path(output_path@) {
                    None => r matches Err(PanaudError::UnknownFormat { path, suggestion }) && path@
                        == output_path@ && suggestion@
                        == "specify --to <format> or use a recognized output extension"@,
                    Some(dst) => if dst.spec_can_encode() {
                        r == Ok::<(AudioFormat, AudioFormat), PanaudError>((src, dst))
                    } else {
                        r matches Err(PanaudError::UnsupportedFormat { format, suggestion }) && format@
                            == dst.spec_name() && suggestion@
                            == "use a supported output format extension (e.g. .wav, .flac, .mp3)"@
                    },
                },
            },
        },
{
    let input_format = match AudioFormat::from_path(input_path) {
        Some(f) => f,
        None => {
            return Err(
                PanaudError::UnknownFormat {
                    path: input_path.to_owned(),
                    suggestion: "use a recognized audio extension: wav, mp3, flac, ogg, aac".to_owned(),
                },
            );
        },
    };
    let target_format = match to {
        Some(t) => match AudioFormat::from_extension(t) {
            Some(f) => f,
            None => {
                return Err(
                    PanaudError::UnsupportedFormat {
                        format: t.to_owned(),
                        suggestion: "unsupported output format; use a format with encoding support".to_owned(),
                    },
                );
            },
        },
        None => match AudioFormat::from_path(output_path) {
            Some(f) => f,
            None => {
                return Err(
                    PanaudError::UnknownFormat {
                        path: output_path.to_owned(),
                        suggestion: "specify --to <format> or use a recognized output extension".to_owned(),
                    },
                );
            },
        },
    };
    match require_encodable(target_format, "use a supported output format extension (e.g. .wav, .flac, .mp3)") {
        Ok(f) => Ok((input_format, f)),
        Err(e) => Err(e),
    }
}

/// What `convert` does about an output that is already there.
#[derive(Debug, Clone, Copy, PartialEq, Eq, Structural)]
pub enum ExistingOutput {
    /// Go on and write the output.
    Write,
    /// Leave the existing output alone and report that it was skipped.
    Skip,
}

/// `convert`'s rule for an existing output: replace it with `--overwrite`, skip it with
/// `--skip-existing`, otherwise refuse.
pub fn convert_existing_output(output_exists: bool, overwrite: bool, skip_existing: bool, path: &str) -> (r: Result<ExistingOutput>)
    ensures
        !output_exists || overwrite ==> r == Ok::<ExistingOutput, PanaudError>(ExistingOutput::Write),
        output_exists && !overwrite && skip_existing ==> r == Ok::<ExistingOutput, PanaudError>(
            ExistingOutput::Skip,
        ),
        output_exists && !overwrite && !skip_existing ==> (r matches Err(
            PanaudError::OutputExists { path: p, suggestion },
        ) && p@ == path@ && suggestion@ == "use --overwrite to replace or --skip-existing to skip"@),
{
    if output_exists && !overwrite {
        if skip_existing {
            return Ok(ExistingOutput::Skip);
        }
        return Err(
            PanaudError::OutputExists {
                path: path.to_owned(),
                suggestion: "use --overwrite to replace or --skip-existing to skip".to_owned(),
            },
        );
    }
    Ok(ExistingOutput::Write)
}


/// The parameters of `convert`; `--to` offers the extensions of the formats that can be
/// encoded.
pub open spec fn convert_schema_view() -> CommandView {
    CommandView {
        command: "convert"@,
        description: "Convert audio between formats"@,
        params: seq![
            param_view(
                "input"@,
                ParamType::Path,
                true,
                "Input audio file path"@,
                None,
                None,
            ),
            param_view(
                "output"@,
                ParamType::Path,
                true,
                "Output file path"@,
                None,
                None,
            ),
            ParamView {
                name: "to"@,
                param_type: ParamType::String,
                required: false,
                description: "Target format (inferred from output extension if not set)"@,
                default: None,
                choices: Some(encodable_texts(all_formats(), true)),
                range: None,
            },
            param_view(
                "overwrite"@,
                ParamType::Boolean,
                false,
                "Overwrite output if it exists"@,
                Some(ParamDefault::Flag(false)),
                None,
            ),
            param_view(
                "skip-existing"@,
                ParamType::Boolean,
                false,
                "Skip if output already exists"@,
                Some(ParamDefault::Flag(false)),
                None,
            ),
        ],
    }
}

/// Parameter schema of `convert`.
pub fn schema() -> (s: CommandSchema)
    ensures
        s@ == convert_schema_view(),
{
    let mut params: Vec<ParamSchema> = Vec::new();
    push_param(
        &mut params,
        param(
            "input",
            ParamType::Path,
            true,
            "Input audio file path",
            None,
            None,
        ),
    );
    push_param(
        &mut params,
        param(
            "output",
            ParamType::Path,
            true,
            "Output file path",
            None,
            None,
        ),
    );
    push_param(
        &mut params,
        param_with_choices(
            "to",
            ParamType::String,
            false,
            "Target format (inferred from output extension if not set)",
            encodable_texts_of_all(true),
        ),
    );
    push_param(
        &mut params,
        param(
            "overwrite",
            ParamType::Boolean,
            false,
            "Overwrite output if it exists",
            Some(ParamDefault::Flag(false)),
            None,
        ),
    );
    push_param(
        &mut params,
        param(
            "skip-existing",
            ParamType::Boolean,
            false,
            "Skip if output already exists",
            Some(ParamDefault::Flag(false)),
            None,
        ),
    );
    let s = command("convert", "Convert audio between formats", params);
    proof {
        assert(s@.params =~= convert_schema_view().params);
    }
    s
}

} // verus!
