//! The structured error type of the library, with its exit codes and hints.
use vstd::prelude::*;

verus! {

/// Process exit codes (POSIX style) that the command line reports for each error.
#[derive(Debug, Clone, Copy, PartialEq, Eq, Structural)]
pub enum ExitCode {
    Success,
    General,
    InputFile,
    OutputIssue,
    Unsupported,
    BadArgs,
}

impl ExitCode {
    pub open spec fn spec_code(self) -> u8 {
        match self {
            ExitCode::Success => 0,
            ExitCode::General => 1,
            ExitCode::InputFile => 2,
            ExitCode::OutputIssue => 3,
            ExitCode::Unsupported => 4,
            ExitCode::BadArgs => 5,
        }
    }

    /// The numeric process exit status.
    pub fn code(&self) -> (c: u8)
        ensures
            c == self.spec_code(),
    {
        match self {
            ExitCode::Success => 0,
            ExitCode::General => 1,
            ExitCode::InputFile => 2,
            ExitCode::OutputIssue => 3,
            ExitCode::Unsupported => 4,
            ExitCode::BadArgs => 5,
        }
    }
}

/// Structured error type for panaud. Paths are held as the text the user gave.
#[derive(Debug)]
#[allow(inconsistent_fields)]
pub enum PanaudError {
    FileNotFound { path: String, suggestion: String },
    PermissionDenied { path: String, suggestion: String },
    UnsupportedFormat { format: String, suggestion: String },
    UnknownFormat { path: String, suggestion: String },
    DecodeError { message: String, path: Option<String>, suggestion: String },
    EncodeError { message: String, path: Option<String>, suggestion: String },
    OutputExists { path: String, suggestion: String },
    InvalidArgument { message: String, suggestion: String },
    InvalidTimeFormat { input: String, suggestion: String },
    TrimOutOfRange { message: String, suggestion: String },
    FormatMismatch { message: String, suggestion: String },
    SplitError { message: String, suggestion: String },
    ResampleError { message: String, suggestion: String },
    IoError { message: String, path: Option<String>, suggestion: String },
}

pub type Result<T> = core::result::Result<T, PanaudError>;

impl PanaudError {
    /// The exit code that each kind of error maps to.
    pub open spec fn spec_exit_code(&self) -> ExitCode {
        match self {
            PanaudError::FileNotFound { .. } | PanaudError::PermissionDenied { .. } => ExitCode::InputFile,
            PanaudError::OutputExists { .. } => ExitCode::OutputIssue,
            PanaudError::UnsupportedFormat { .. } | PanaudError::UnknownFormat { .. } => ExitCode::Unsupported,
            PanaudError::InvalidArgument { .. }
            | PanaudError::InvalidTimeFormat { .. }
            | PanaudError::TrimOutOfRange { .. }
            | PanaudError::SplitError { .. }
            | PanaudError::FormatMismatch { .. } => ExitCode::BadArgs,
            PanaudError::ResampleError { .. } => ExitCode::OutputIssue,
            PanaudError::DecodeError { .. } => ExitCode::InputFile,
            PanaudError::EncodeError { .. } | PanaudError::IoError { .. } => ExitCode::OutputIssue,
        }
    }

    /// The hint text that every variant carries.
    pub open spec fn spec_suggestion(&self) -> Seq<char> {
        match self {
            PanaudError::FileNotFound { suggestion, .. } => suggestion@,
            PanaudError::PermissionDenied { suggestion, .. } => suggestion@,
            PanaudError::UnsupportedFormat { suggestion, .. } => suggestion@,
            PanaudError::UnknownFormat { suggestion, .. } => suggestion@,
            PanaudError::DecodeError { suggestion, .. } => suggestion@,
            PanaudError::EncodeError { suggestion, .. } => suggestion@,
            PanaudError::OutputExists { suggestion, .. } => suggestion@,
            PanaudError::InvalidArgument { suggestion, .. } => suggestion@,
            PanaudError::InvalidTimeFormat { suggestion, .. } => suggestion@,
            PanaudError::TrimOutOfRange { suggestion, .. } => suggestion@,
            PanaudError::FormatMismatch { suggestion, .. } => suggestion@,
            PanaudError::SplitError { suggestion, .. } => suggestion@,
            PanaudError::ResampleError { suggestion, .. } => suggestion@,
            PanaudError::IoError { suggestion, .. } => suggestion@,
        }
    }

    pub fn exit_code(&self) -> (c: ExitCode)
        ensures
            c == self.spec_exit_code(),
    {
        match self {
            PanaudError::FileNotFound { .. } | PanaudError::PermissionDenied { .. } => ExitCode::InputFile,
            PanaudError::OutputExists { .. } => ExitCode::OutputIssue,
            PanaudError::UnsupportedFormat { .. } | PanaudError::UnknownFormat { .. } => ExitCode::Unsupported,
            PanaudError::InvalidArgument { .. }
            | PanaudError::InvalidTimeFormat { .. }
            | PanaudError::TrimOutOfRange { .. }
            | PanaudError::SplitError { .. } => ExitCode::BadArgs,
            PanaudError::FormatMismatch { .. } => ExitCode::BadArgs,
            PanaudError::ResampleError { .. } => ExitCode::OutputIssue,
            PanaudError::DecodeError { .. } => ExitCode::InputFile,
            PanaudError::EncodeError { .. } | PanaudError::IoError { .. } => ExitCode::OutputIssue,
        }
    }

    pub fn suggestion(&self) -> (s: &str)
        ensures
            s@ == self.spec_suggestion(),
    {
        match self {
            PanaudError::FileNotFound { suggestion, .. }
            | PanaudError::PermissionDenied { suggestion, .. }
            | PanaudError::UnsupportedFormat { suggestion, .. }
            | PanaudError::UnknownFormat { suggestion, .. }
            | PanaudError::DecodeError { suggestion, .. }
            | PanaudError::EncodeError { suggestion, .. }
            | PanaudError::OutputExists { suggestion, .. }
            | PanaudError::InvalidArgument { suggestion, .. }
            | PanaudError::InvalidTimeFormat { suggestion, .. }
            | PanaudError::TrimOutOfRange { suggestion, .. }
            | PanaudError::FormatMismatch { suggestion, .. }
            | PanaudError::SplitError { suggestion, .. }
            | PanaudError::ResampleError { suggestion, .. }
            | PanaudError::IoError { suggestion, .. } => suggestion.as_str(),
        }
    }

    /// Convenience constructor for encode errors about the file at `path`.
    pub fn encode(path: &str, message: String, suggestion: String) -> (e: PanaudError)
        ensures
            e matches PanaudError::EncodeError { message: m, path: Some(p), suggestion: s }
                && m@ == message@ && p@ == path@ && s@ == suggestion@,
    {
        PanaudError::EncodeError { message, path: Some(path.to_owned()), suggestion }
    }
}

} // verus!
