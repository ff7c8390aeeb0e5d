//! What the program can do: its commands, the formats it reads and writes, and its global
//! flags, as `--capabilities` reports them.
use vstd::prelude::*;
use crate::schema::{push_string, string_views};
use crate::types::{all_formats, AudioFormat};

verus! {

/// A command and what it does.
#[derive(Debug)]
pub struct CommandCap {
    pub name: String,
    pub description: String,
}

/// A format, its extension, and whether it can be read and written.
#[derive(Debug)]
pub struct FormatCap {
    pub name: String,
    pub extension: String,
    pub can_decode: bool,
    pub can_encode: bool,
}

/// Everything `--capabilities` reports.
#[derive(Debug)]
pub struct Capabilities {
    pub version: String,
    pub commands: Vec<CommandCap>,
    pub formats: Vec<FormatCap>,
    pub global_flags: Vec<String>,
}

impl View for CommandCap {
    type V = (Seq<char>, Seq<char>);

    open spec fn view(&self) -> (Seq<char>, Seq<char>) {
        (self.name@, self.description@)
    }
}

impl View for FormatCap {
    type V = (Seq<char>, Seq<char>, bool, bool);

    open spec fn view(&self) -> (Seq<char>, Seq<char>, bool, bool) {
        (self.name@, self.extension@, self.can_decode, self.can_encode)
    }
}

/// The commands, each with what it does, in the order they are listed.
pub open spec fn command_caps() -> Seq<(Seq<char>, Seq<char>)> {
    seq![
        ("info"@, "Show audio file metadata and properties"@),
        ("convert"@, "Convert audio between formats"@),
        ("trim"@, "Trim audio to a time range"@),
        ("volume"@, "Adjust audio volume"@),
        ("normalize"@, "Peak-normalize audio"@),
        ("fade"@, "Apply fade-in/fade-out to audio"@),
        ("channels"@, "Change audio channel layout"@),
        ("resample"@, "Resample audio to a different sample rate"@),
        ("concat"@, "Concatenate multiple audio files"@),
        ("split"@, "Split audio into multiple files"@),
    ]
}

/// What is reported of a format.
pub open spec fn format_cap(f: AudioFormat) -> (Seq<char>, Seq<char>, bool, bool) {
    (f.spec_name(), f.spec_extension(), true, f.spec_can_encode())
}

/// The global flags, as they are listed.
pub open spec fn global_flag_texts() -> Seq<Seq<char>> {
    seq!["--format <human|json>"@, "--dry-run"@, "--schema"@, "--capabilities"@]
}

fn push_command(v: &mut Vec<CommandCap>, name: &str, description: &str)
    ensures
        final(v)@.map_values(|c: CommandCap| c@) == old(v)@.map_values(|c: CommandCap| c@).push(
            (name@, description@),
        ),
{
    v.push(CommandCap { name: name.to_owned(), description: description.to_owned() });
    proof {
        assert(final(v)@.map_values(|c: CommandCap| c@) =~= old(v)@.map_values(|c: CommandCap| c@).push(
            (name@, description@),
        ));
    }
}

/// The capabilities of the program whose version is `version`: its commands, every
/// known format, and the global flags.
pub fn capabilities(version: &str) -> (c: Capabilities)
    ensures
        c.version@ == version@,
        c.commands@.map_values(|x: CommandCap| x@) == command_caps(),
        c.formats@.map_values(|x: FormatCap| x@) == all_formats().map_values(|f: AudioFormat| format_cap(f)),
        string_views(c.global_flags@) == global_flag_texts(),
{
    let mut commands: Vec<CommandCap> = Vec::new();
    push_command(&mut commands, "info", "Show audio file metadata and properties");
    push_command(&mut commands, "convert", "Convert audio between formats");
    push_command(&mut commands, "trim", "Trim audio to a time range");
    push_command(&mut commands, "volume", "Adjust audio volume");
    push_command(&mut commands, "normalize", "Peak-normalize audio");
    push_command(&mut commands, "fade", "Apply fade-in/fade-out to audio");
    push_command(&mut commands, "channels", "Change audio channel layout");
    push_command(&mut commands, "resample", "Resample audio to a different sample rate");
    push_command(&mut commands, "concat", "Concatenate multiple audio files");
    push_command(&mut commands, "split", "Split audio into multiple files");
    assert(commands@.map_values(|x: CommandCap| x@) =~= command_caps());
    let all = AudioFormat::all();
    let mut formats: Vec<FormatCap> = Vec::new();
    let mut i: usize = 0;
    while i < all.len()
        invariant
            all@ == all_formats(),
            i <= all@.len(),
            formats@.len() == i,
            formats@.map_values(|x: FormatCap| x@) == all@.take(i as int).map_values(
                |f: AudioFormat| format_cap(f),
            ),
        decreases all@.len() - i,
    {
        let f = all[i];
        let cap = FormatCap {
            name: f.name().to_owned(),
            extension: f.extension().to_owned(),
            can_decode: f.can_decode(),
            can_encode: f.can_encode(),
        };
        assert(cap@ == format_cap(f));
        let ghost before = formats@;
        formats.push(cap);
        proof {
            assert(all@.take(i + 1) =~= all@.take(i as int).push(f));
            assert(before.map_values(|x: FormatCap| x@) == all@.take(i as int).map_values(
                |f: AudioFormat| format_cap(f),
            ));
            let got = formats@.map_values(|x: FormatCap| x@);
            let want = all@.take(i + 1).map_values(|f: AudioFormat| format_cap(f));
            let prev = before.map_values(|x: FormatCap| x@);
            assert forall|j: int| 0 <= j < i + 1 implies got[j] == want[j] by {
                if j < i {
                    assert(formats@[j] == before[j]);
                    assert(got[j] == prev[j]);
                }
            }
            assert(got =~= want);
        }
        i += 1;
    }
    assert(all@.take(all@.len() as int) =~= all@);
    let mut global_flags: Vec<String> = Vec::new();
    push_string(&mut global_flags, "--format <human|json>");
    push_string(&mut global_flags, "--dry-run");
    push_string(&mut global_flags, "--schema");
    push_string(&mut global_flags, "--capabilities");
    assert(string_views(global_flags@) =~= global_flag_texts());
    Capabilities { version: version.to_owned(), commands, formats, global_flags }
}

} // verus!
