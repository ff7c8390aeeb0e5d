//! Arguments of the command line, as its parser hands them over.
use vstd::prelude::*;

verus! {

/// Output format of the command line.
#[derive(Debug, Clone, Copy, PartialEq, Eq, Structural)]
pub enum OutputFormat {
    Human,
    Json,
}

/// Common I/O arguments shared by processing commands.
#[derive(Debug, Clone)]
pub struct IoArgs {
    /// Input audio file
    pub input: Option<String>,
    /// Output file path (positional)
    pub output_pos: Option<String>,
    /// Output file path
    pub output: Option<String>,
    /// Overwrite output if it exists
    pub overwrite: bool,
}

pub open spec fn opt_string_view(s: Option<String>) -> Option<Seq<char>> {
    match s {
        Some(x) => Some(x@),
        None => None,
    }
}

impl IoArgs {
    /// The output path in effect: `-o`/`--output` when given, else the positional one.
    pub open spec fn spec_output_path(&self) -> Option<Seq<char>> {
        match self.output {
            Some(o) => Some(o@),
            None => opt_string_view(self.output_pos),
        }
    }

    /// Resolve the effective output path from positional or -o flag.
    pub fn output_path(&self) -> (r: Option<&str>)
        ensures
            match r {
                Some(s) => self.spec_output_path() == Some(s@),
                None => self.spec_output_path() is None,
            },
    {
        match &self.output {
            Some(o) => Some(o.as_str()),
            None => match &self.output_pos {
                Some(o) => Some(o.as_str()),
                None => None,
            },
        }
    }
}

#[derive(Debug, Clone)]
pub struct InfoArgs {
    /// Input audio file
    pub input: Option<String>,
    /// Comma-separated list of fields to include in output
    pub fields: Option<String>,
}

#[derive(Debug, Clone)]
pub struct ConvertArgs {
    pub io: IoArgs,
    /// Target format (inferred from output extension if not set)
    pub to: Option<String>,
    /// Skip if output already exists
    pub skip_existing: bool,
}

#[derive(Debug, Clone)]
pub struct TrimArgs {
    pub io: IoArgs,
    /// Start time (e.g. '1:30', '90s', '1.5m', '44100S')
    pub start: String,
    /// End time (defaults to end of file)
    pub end: Option<String>,
}

#[derive(Debug, Clone)]
pub struct ChannelsArgs {
    pub io: IoArgs,
    /// Mix down to mono
    pub mono: bool,
    /// Convert to stereo
    pub stereo: bool,
    /// Target channel count
    pub count: Option<u16>,
    /// Extract a channel (left, right, or numeric index)
    pub extract: Option<String>,
}

#[derive(Debug, Clone)]
pub struct SplitArgs {
    /// Input audio file
    pub input: Option<String>,
    /// Output directory
    pub output: Option<String>,
    /// Split at specific time points (comma-separated)
    pub at: Option<String>,
    /// Split into N equal parts
    pub count: Option<u32>,
    /// Split into chunks of a given duration
    pub duration: Option<String>,
    /// Overwrite existing files
    pub overwrite: bool,
}


#[derive(Debug, Clone)]
pub struct FadeArgs {
    pub io: IoArgs,
    /// Fade-in duration (e.g. '2s', '0:02')
    pub fade_in: Option<String>,
    /// Fade-out duration (e.g. '3s', '0:03')
    pub fade_out: Option<String>,
}

#[derive(Debug, Clone)]
pub struct ResampleArgs {
    pub io: IoArgs,
    /// Target sample rate in Hz
    pub rate: u32,
}

#[derive(Debug, Clone)]
pub struct ConcatArgs {
    /// Input audio files (two or more)
    pub inputs: Vec<String>,
    /// Output file path
    pub output: Option<String>,
    /// Overwrite output if it exists
    pub overwrite: bool,
}

} // verus!
