//! What the commands decide before and after the audio work: paths, formats, modes and
//! parameter schemas.
pub mod channels;
pub mod concat;
pub mod convert;
pub mod info;
pub mod pipeline_runner;
pub mod report;
pub mod split;

use vstd::prelude::*;
use crate::error::{PanaudError, Result};
use crate::types::{path_extension, spec_format_of_extension, AudioFormat};

verus! {

/// What `from_path` finds for a path.
pub open spec fn spec_format_of_path(p: Seq<char>) -> Option<AudioFormat> {
    match path_extension(p) {
        Some(e) => spec_format_of_extension(e),
        None => None,
    }
}

/// Refuses to replace an existing output unless overwriting was asked for.
pub fn check_overwrite(output_exists: bool, overwrite: bool, path: &str, suggestion: &str) -> (r: Result<()>)
    ensures
        output_exists && !overwrite ==> (r matches Err(PanaudError::OutputExists { path: p, suggestion: s })
            && p@ == path@ && s@ == suggestion@),
        !(output_exists && !overwrite) ==> r is Ok,
{
    if output_exists && !overwrite {
        return Err(PanaudError::OutputExists { path: path.to_owned(), suggestion: suggestion.to_owned() });
    }
    Ok(())
}

/// `Ok(format)` when `format` can be encoded, else the unsupported-format error.
pub(crate) fn require_encodable(format: AudioFormat, suggestion: &str) -> (r: Result<AudioFormat>)
    ensures
        format.spec_can_encode() ==> r == Ok::<AudioFormat, PanaudError>(format),
        !format.spec_can_encode() ==> (r matches Err(PanaudError::UnsupportedFormat { format: f, suggestion: s })
            && f@ == format.spec_name() && s@ == suggestion@),
{
    if !format.can_encode() {
        return Err(
            PanaudError::UnsupportedFormat { format: format.name().to_owned(), suggestion: suggestion.to_owned() },
        );
    }
    Ok(format)
}

} // verus!
