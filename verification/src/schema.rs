//! Parameter schemas that the commands show with `--schema`.
use vstd::prelude::*;

verus! {

/// The kind of value a parameter takes.
#[derive(Debug, Clone, Copy, PartialEq, Eq, Structural)]
pub enum ParamType {
    String,
    Integer,
    Float,
    Boolean,
    Path,
}

/// The inclusive range of a numeric parameter. Every range the commands declare has
/// whole-number bounds.
#[derive(Debug, Clone, Copy, PartialEq, Eq, Structural)]
pub struct ParamRange {
    pub min: i64,
    pub max: i64,
}

/// The default of a parameter: a flag's `true`/`false`, or a whole number.
#[derive(Debug, Clone, Copy, PartialEq, Eq, Structural)]
pub enum ParamDefault {
    Flag(bool),
    Number(i64),
}

/// Describes a single parameter for a command.
#[derive(Debug)]
pub struct ParamSchema {
    pub name: String,
    pub param_type: ParamType,
    pub required: bool,
    pub description: String,
    pub default: Option<ParamDefault>,
    pub choices: Option<Vec<String>>,
    pub range: Option<ParamRange>,
}

/// Full schema for a command.
#[derive(Debug)]
pub struct CommandSchema {
    pub command: String,
    pub description: String,
    pub params: Vec<ParamSchema>,
}

/// What a parameter schema says, as text and values.
pub struct ParamView {
    pub name: Seq<char>,
    pub param_type: ParamType,
    pub required: bool,
    pub description: Seq<char>,
    pub default: Option<ParamDefault>,
    pub choices: Option<Seq<Seq<char>>>,
    pub range: Option<ParamRange>,
}

/// What a command schema says, as text and values.
pub struct CommandView {
    pub command: Seq<char>,
    pub description: Seq<char>,
    pub params: Seq<ParamView>,
}

/// The texts of a list of strings.
pub open spec fn string_views(v: Seq<String>) -> Seq<Seq<char>> {
    v.map_values(|s: String| s@)
}

impl View for ParamSchema {
    type V = ParamView;

    open spec fn view(&self) -> ParamView {
        ParamView {
            name: self.name@,
            param_type: self.param_type,
            required: self.required,
            description: self.description@,
            default: self.default,
            choices: match self.choices {
                Some(c) => Some(string_views(c@)),
                None => None,
            },
            range: self.range,
        }
    }
}

impl View for CommandSchema {
    type V = CommandView;

    open spec fn view(&self) -> CommandView {
        CommandView {
            command: self.command@,
            description: self.description@,
            params: self.params@.map_values(|p: ParamSchema| p@),
        }
    }
}

/// A parameter without choices, given its name, type, whether it is required, its
/// description, its default and its range.
pub open spec fn param_view(
    name: Seq<char>,
    param_type: ParamType,
    required: bool,
    description: Seq<char>,
    default: Option<ParamDefault>,
    range: Option<ParamRange>,
) -> ParamView {
    ParamView { name, param_type, required, description, default, choices: None, range }
}

/// Builds a parameter schema without choices.
pub fn param(
    name: &str,
    param_type: ParamType,
    required: bool,
    description: &str,
    default: Option<ParamDefault>,
    range: Option<ParamRange>,
) -> (p: ParamSchema)
    ensures
        p@ == param_view(name@, param_type, required, description@, default, range),
{
    ParamSchema {
        name: name.to_owned(),
        param_type,
        required,
        description: description.to_owned(),
        default,
        choices: None,
        range,
    }
}

/// Builds a parameter schema that offers the given choices.
pub fn param_with_choices(
    name: &str,
    param_type: ParamType,
    required: bool,
    description: &str,
    choices: Vec<String>,
) -> (p: ParamSchema)
    ensures
        p@ == (ParamView {
            name: name@,
            param_type,
            required,
            description: description@,
            default: None,
            choices: Some(string_views(choices@)),
            range: None,
        }),
{
    ParamSchema {
        name: name.to_owned(),
        param_type,
        required,
        description: description.to_owned(),
        default: None,
        choices: Some(choices),
        range: None,
    }
}

/// Appends an owned copy of `s` to a list of strings.
pub fn push_string(v: &mut Vec<String>, s: &str)
    ensures
        string_views(final(v)@) == string_views(old(v)@).push(s@),
{
    v.push(s.to_owned());
    proof {
        assert(string_views(final(v)@) =~= string_views(old(v)@).push(s@));
    }
}

/// Appends a parameter schema to a list of them.
pub fn push_param(v: &mut Vec<ParamSchema>, p: ParamSchema)
    ensures
        final(v)@.map_values(|q: ParamSchema| q@) == old(v)@.map_values(|q: ParamSchema| q@).push(p@),
{
    let ghost pv = p@;
    v.push(p);
    proof {
        assert(final(v)@.map_values(|q: ParamSchema| q@) =~= old(v)@.map_values(|q: ParamSchema| q@).push(pv));
    }
}

/// Builds a command schema from its name, description and parameters.
pub fn command(name: &str, description: &str, params: Vec<ParamSchema>) -> (s: CommandSchema)
    ensures
        s@ == (CommandView {
            command: name@,
            description: description@,
            params: params@.map_values(|q: ParamSchema| q@),
        }),
{
    CommandSchema { command: name.to_owned(), description: description.to_owned(), params }
}

/// The `input` parameter that every file command takes.
pub open spec fn input_param() -> ParamView {
    param_view("input"@, ParamType::Path, true, "Input audio file path"@, None, None)
}

/// The `output` parameter of the commands that write one audio file.
pub open spec fn output_param() -> ParamView {
    param_view("output"@, ParamType::Path, true, "Output audio file path"@, None, None)
}

/// The schema of a command whose parameters are `input`, `output` and then `rest`.
pub open spec fn file_command_view(command: Seq<char>, description: Seq<char>, rest: Seq<ParamView>) -> CommandView {
    CommandView { command, description, params: seq![input_param(), output_param()] + rest }
}

/// Starts the schema of a command that reads `input` and writes `output`.
pub fn file_command_params() -> (v: Vec<ParamSchema>)
    ensures
        v@.map_values(|q: ParamSchema| q@) == seq![input_param(), output_param()],
{
    let mut v: Vec<ParamSchema> = Vec::new();
    push_param(&mut v, param("input", ParamType::Path, true, "Input audio file path", None, None));
    push_param(&mut v, param("output", ParamType::Path, true, "Output audio file path", None, None));
    proof {
        assert(v@.map_values(|q: ParamSchema| q@) =~= seq![input_param(), output_param()]);
    }
    v
}

} // verus!
