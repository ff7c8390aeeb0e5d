//! The `info` command.
use vstd::prelude::*;
use crate::cli::InfoArgs;
use crate::error::{PanaudError, Result};
use crate::numparse::{index_of_either, index_of_either_exec};
use crate::text::{lemma_split_commas_step, split_commas, str_chars, trim_bounds, trim_seq};
use crate::schema::{
    command, param, param_view, param_with_choices, push_param, push_string, string_views, CommandSchema,
    CommandView, ParamSchema, ParamType, ParamView,
};

verus! {




/// The fields that `info` can show, in the order it shows them.
pub open spec fn info_field_names() -> Seq<Seq<char>> {
    seq![
        "path"@,
        "format"@,
        "codec"@,
        "sample_rate"@,
        "channels"@,
        "duration_secs"@,
        "num_frames"@,
        "file_size"@,
    ]
}

/// The parameters of `info`.
pub open spec fn info_schema_view() -> CommandView {
    CommandView {
        command: "info"@,
        description: "Show audio file metadata and properties"@,
        params: seq![
            param_view(
                "input"@,
                ParamType::Path,
                true,
                "Input audio file path"@,
                None,
                None,
            ),
            ParamView {
                name: "fields"@,
                param_type: ParamType::String,
                required: false,
                description: "Comma-separated list of fields to include in output"@,
                default: None,
                choices: Some(info_field_names()),
                range: None,
            },
        ],
    }
}

/// Parameter schema of `info`.
pub fn schema() -> (s: CommandSchema)
    ensures
        s@ == info_schema_view(),
{
    let mut params: Vec<ParamSchema> = Vec::new();
    push_param(
        &mut params,
        param(
            "input",
            ParamType::Path,
            true,
            "Input audio file path",
            None,
            None,
        ),
    );
    let mut choices: Vec<String> = Vec::new();
    push_string(&mut choices, "path");
    push_string(&mut choices, "format");
    push_string(&mut choices, "codec");
    push_string(&mut choices, "sample_rate");
    push_string(&mut choices, "channels");
    push_string(&mut choices, "duration_secs");
    push_string(&mut choices, "num_frames");
    push_string(&mut choices, "file_size");
    assert(string_views(choices@) =~= info_field_names());
    push_param(
        &mut params,
        param_with_choices(
            "fields",
            ParamType::String,
            false,
            "Comma-separated list of fields to include in output",
            choices,
        ),
    );
    let s = command("info", "Show audio file metadata and properties", params);
    proof {
        assert(s@.params =~= info_schema_view().params);
    }
    s
}


/// The field names of `--fields`: its comma-separated pieces with the white space round
/// each taken off; none when the flag is absent.
pub open spec fn spec_fields(fields: Option<Seq<char>>) -> Seq<Seq<char>> {
    match fields {
        None => Seq::empty(),
        Some(f) => split_commas(f).map_values(|p: Seq<char>| trim_seq(p)),
    }
}

/// Reads `--fields` into the list of field names.
pub fn parse_fields(fields: &Option<String>) -> (r: Vec<String>)
    ensures
        string_views(r@) == spec_fields(
            match fields {
                Some(f) => Some(f@),
                None => None,
            },
        ),
{
    let mut out: Vec<String> = Vec::new();
    match fields {
        None => {
            assert(string_views(out@) =~= Seq::<Seq<char>>::empty());
            out
        },
        Some(f) => {
            let s = f.as_str();
            let c = str_chars(s);
            let n = c.len();
            let mut lo: usize = 0;
            assert(c@.subrange(0, n as int) =~= c@);
            assert(string_views(out@) =~= Seq::<Seq<char>>::empty());
            loop
                invariant_except_break
                    lo <= n,
                    split_commas(c@).map_values(|p: Seq<char>| trim_seq(p)) == string_views(out@)
                        + split_commas(c@.subrange(lo as int, n as int)).map_values(
                        |p: Seq<char>| trim_seq(p),
                    ),
                invariant
                    n == c@.len(),
                    c@ == s@,
                    s@ == f@,
                ensures
                    split_commas(c@).map_values(|p: Seq<char>| trim_seq(p)) == string_views(out@),
                decreases n - lo,
            {
                let ghost rest = c@.subrange(lo as int, n as int);
                let comma = index_of_either_exec(&c, lo, n, ',', ',');
                let piece = s.substring_char(lo, comma);
                let pc = str_chars(piece);
                let (a, b) = trim_bounds(&pc);
                let ghost before = string_views(out@);
                out.push(piece.substring_char(a, b).to_owned());
                proof {
                    lemma_split_commas_step(rest);
                    assert(piece@ == rest.take(comma - lo));
                    assert(string_views(out@) =~= before.push(trim_seq(piece@)));
                }
                if comma >= n {
                    proof {
                        assert(rest.take(comma - lo) =~= rest);
                        assert(split_commas(rest).map_values(|p: Seq<char>| trim_seq(p)) =~= seq![
                            trim_seq(rest),
                        ]);
                        assert(before + seq![trim_seq(rest)] =~= before.push(trim_seq(rest)));
                    }
                    break;
                }
                proof {
                    let tail = rest.skip(comma - lo + 1);
                    assert(tail =~= c@.subrange(comma + 1, n as int));
                    let mt = split_commas(tail).map_values(|p: Seq<char>| trim_seq(p));
                    assert(split_commas(rest).map_values(|p: Seq<char>| trim_seq(p)) =~= seq![
                        trim_seq(piece@),
                    ] + mt);
                    assert(before + (seq![trim_seq(piece@)] + mt) =~= before.push(trim_seq(piece@)) + mt);
                }
                lo = comma + 1;
            }
            out
        },
    }
}


/// The input file of `info`; the error says it is missing.
pub fn info_input(args: &InfoArgs) -> (r: Result<String>)
    ensures
        args.input is None ==> (r matches Err(PanaudError::InvalidArgument { message, suggestion })
            && message@ == "missing required argument: input"@ && suggestion@ == "usage: panaud info <file>"@),
        args.input is Some ==> (r matches Ok(i) && i@ == args.input->0@),
{
    match &args.input {
        Some(i) => Ok(i.clone()),
        None => Err(
            PanaudError::InvalidArgument {
                message: "missing required argument: input".to_owned(),
                suggestion: "usage: panaud info <file>".to_owned(),
            },
        ),
    }
}

} // verus!
