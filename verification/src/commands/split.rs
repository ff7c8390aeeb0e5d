//! The `split` command.
use vstd::prelude::*;
use crate::schema::{command, param, param_view, push_param, CommandSchema, CommandView, ParamSchema, ParamType};
use crate::cli::SplitArgs;
use crate::commands::{require_encodable, spec_format_of_path};
use crate::error::{PanaudError, Result};
use crate::numparse::{index_of_either, lemma_digits_value_push};
use crate::time_laws::lemma_dec_digits;
use crate::text::{lemma_split_commas_step, split_commas};
use crate::ops::split::SplitMode;
use crate::text::{all_digits, dec_seq, digits_value, push_decimal, str_chars, trim_bounds, trim_seq};
use crate::time::{is_time_error, parse_time, spec_parse_time, TimeSpec};
use crate::types::AudioFormat;

verus! {

/// The format `split` writes its parts in: the input path's, else WAV; it must be one
/// that can be encoded.
pub fn split_output_format(input_path: &str) -> (r: Result<AudioFormat>)
    ensures
        ({
            let f = match spec_format_of_path(input_path@) {
                Some(x) => x,
                None => AudioFormat::Wav,
            };
            if f.spec_can_encode() {
                r == Ok::<AudioFormat, PanaudError>(f)
            } else {
                r matches Err(PanaudError::UnsupportedFormat { format, suggestion }) && format@ == f.spec_name()
                    && suggestion@ == "use an input format that supports encoding (e.g. .wav, .flac, .mp3)"@
            }
        }),
{
    let f = match AudioFormat::from_path(input_path) {
        Some(x) => x,
        None => AudioFormat::Wav,
    };
    require_encodable(f, "use an input format that supports encoding (e.g. .wav, .flac, .mp3)")
}

/// One comma-separated piece read as a time, white space round it left out.
#[verifier::opaque]
pub open spec fn piece_time(piece: Seq<char>) -> core::result::Result<TimeSpec, Seq<char>> {
    spec_parse_time(trim_seq(piece))
}

/// The result of reading every piece as a time, stopping at the first that fails.
#[verifier::opaque]
pub open spec fn spec_parse_times(pieces: Seq<Seq<char>>) -> core::result::Result<Seq<TimeSpec>, (Seq<char>, Seq<char>)>
    decreases pieces.len(),
{
    if pieces.len() == 0 {
        Ok(Seq::empty())
    } else {
        match piece_time(pieces[0]) {
            Err(h) => Err((pieces[0], h)),
            Ok(t) => match spec_parse_times(pieces.drop_first()) {
                Ok(rest) => Ok(seq![t] + rest),
                Err(e) => Err(e),
            },
        }
    }
}

/// `r` with `prefix` put in front of the times it holds.
pub open spec fn prepend_times(
    prefix: Seq<TimeSpec>,
    r: core::result::Result<Seq<TimeSpec>, (Seq<char>, Seq<char>)>,
) -> core::result::Result<Seq<TimeSpec>, (Seq<char>, Seq<char>)> {
    match r {
        Ok(ts) => Ok(prefix + ts),
        Err(e) => Err(e),
    }
}

proof fn lemma_parse_times_cons(p: Seq<char>, tail: Seq<Seq<char>>)
    ensures
        spec_parse_times(seq![p] + tail) == match piece_time(p) {
            Err(h) => Err((p, h)),
            Ok(t) => prepend_times(seq![t], spec_parse_times(tail)),
        },
{
    reveal(spec_parse_times);
    let all = seq![p] + tail;
    assert(all[0] == p);
    assert(all.drop_first() =~= tail);
}

/// One piece of `rest` read as a time: what remains to be read, and what has been.
proof fn lemma_times_step_ok(
    total: core::result::Result<Seq<TimeSpec>, (Seq<char>, Seq<char>)>,
    before: Seq<TimeSpec>,
    rest: Seq<char>,
    t: TimeSpec,
)
    requires
        total == prepend_times(before, spec_parse_times(split_commas(rest))),
        piece_time(rest.take(index_of_either(rest, ',', ',') as int)) == Ok::<
            TimeSpec,
            Seq<char>,
        >(t),
    ensures
        ({
            let i = index_of_either(rest, ',', ',') as int;
            &&& i < rest.len() ==> total == prepend_times(
                before.push(t),
                spec_parse_times(split_commas(rest.skip(i + 1))),
            )
            &&& i >= rest.len() ==> total == Ok::<Seq<TimeSpec>, (Seq<char>, Seq<char>)>(
                before.push(t),
            )
        }),
{
    reveal(spec_parse_times);
    let i = index_of_either(rest, ',', ',') as int;
    lemma_split_commas_step(rest);
    if i < rest.len() {
        let tail = split_commas(rest.skip(i + 1));
        lemma_parse_times_cons(rest.take(i), tail);
        match spec_parse_times(tail) {
            Ok(ts) => {
                assert(before + (seq![t] + ts) =~= before.push(t) + ts);
            },
            Err(e) => {},
        }
    } else {
        assert(rest.take(i) =~= rest);
        assert(seq![rest] =~= seq![rest] + Seq::<Seq<char>>::empty());
        lemma_parse_times_cons(rest, Seq::<Seq<char>>::empty());
        assert(before + (seq![t] + Seq::<TimeSpec>::empty()) =~= before.push(t));
    }
}

/// A piece of `rest` that is no time ends the reading with its error.
proof fn lemma_times_step_err(
    total: core::result::Result<Seq<TimeSpec>, (Seq<char>, Seq<char>)>,
    before: Seq<TimeSpec>,
    rest: Seq<char>,
    h: Seq<char>,
)
    requires
        total == prepend_times(before, spec_parse_times(split_commas(rest))),
        piece_time(rest.take(index_of_either(rest, ',', ',') as int)) == Err::<
            TimeSpec,
            Seq<char>,
        >(h),
    ensures
        total == Err::<Seq<TimeSpec>, (Seq<char>, Seq<char>)>(
            (rest.take(index_of_either(rest, ',', ',') as int), h),
        ),
{
    reveal(spec_parse_times);
    let i = index_of_either(rest, ',', ',') as int;
    lemma_split_commas_step(rest);
    if i < rest.len() {
        lemma_parse_times_cons(rest.take(i), split_commas(rest.skip(i + 1)));
    } else {
        assert(rest.take(i) =~= rest);
        assert(seq![rest] =~= seq![rest] + Seq::<Seq<char>>::empty());
        lemma_parse_times_cons(rest, Seq::<Seq<char>>::empty());
    }
}

/// Reads one comma-separated piece, with the white space round it taken off, as a time.
fn parse_time_piece(piece: &str) -> (r: Result<TimeSpec>)
    ensures
        match piece_time(piece@) {
            Ok(t) => r == Ok::<TimeSpec, PanaudError>(t),
            Err(h) => (r matches Err(e) && is_time_error(e, trim_seq(piece@), h)),
        },
{
    let pc = str_chars(piece);
    let (a, b) = trim_bounds(&pc);
    let trimmed = piece.substring_char(a, b);
    proof {
        reveal(piece_time);
        crate::text::lemma_trim_idempotent(piece@);
    }
    parse_time(trimmed)
}

/// The split mode that the `split` flags ask for, first of `--at`, `--count`,
/// `--duration`; the times of `--at` are comma-separated.
pub fn parse_split_mode(args: &SplitArgs) -> (r: Result<SplitMode>)
    ensures
        args.at is Some ==> match spec_parse_times(split_commas(args.at->0@)) {
            Ok(ts) => (r matches Ok(SplitMode::At(v)) && v@ == ts),
            Err((piece, h)) => (r matches Err(e) && is_time_error(e, trim_seq(piece), h)),
        },
        args.at is None && args.count is Some ==> (r matches Ok(SplitMode::Count(n)) && n
            == args.count->0),
        args.at is None && args.count is None && args.duration is Some ==> match spec_parse_time(
            args.duration->0@,
        ) {
            Ok(t) => (r matches Ok(SplitMode::Duration(d)) && d == t),
            Err(h) => (r matches Err(e) && is_time_error(e, args.duration->0@, h)),
        },
        args.at is None && args.count is None && args.duration is None ==> r matches Err(
            PanaudError::InvalidArgument { .. },
        ),
{
    if let Some(at_str) = &args.at {
        let s = at_str.as_str();
        let c = str_chars(s);
        let n = c.len();
        let mut specs: Vec<TimeSpec> = Vec::new();
        let mut lo: usize = 0;
        let ghost total = spec_parse_times(split_commas(c@));
        assert(c@.subrange(0, n as int) =~= c@);
        assert(prepend_times(specs@, total) == total) by {
            match total {
                Ok(ts) => {
                    assert(specs@ + ts =~= ts);
                },
                Err(e) => {},
            }
        }
        loop
            invariant_except_break
                lo <= n,
                total == prepend_times(specs@, spec_parse_times(split_commas(c@.subrange(lo as int, n as int)))),
            invariant
                n == c@.len(),
                c@ == s@,
                args.at is Some,
                args.at->0@ == s@,
                total == spec_parse_times(split_commas(s@)),
            ensures
                total == Ok::<Seq<TimeSpec>, (Seq<char>, Seq<char>)>(specs@),
            decreases n - lo,
        {
            let ghost rest = c@.subrange(lo as int, n as int);
            let comma = crate::numparse::index_of_either_exec(&c, lo, n, ',', ',');
            let piece = s.substring_char(lo, comma);
            assert(piece@ == rest.take(comma - lo));
            match parse_time_piece(piece) {
                Ok(t) => {
                    proof {
                        lemma_times_step_ok(total, specs@, rest, t);
                    }
                    specs.push(t);
                    if comma >= n {
                        break;
                    }
                    assert(rest.skip(comma - lo + 1) =~= c@.subrange(comma + 1, n as int));
                    lo = comma + 1;
                },
                Err(e) => {
                    proof {
                        let h = piece_time(piece@)->Err_0;
                        lemma_times_step_err(total, specs@, rest, h);
                    }
                    return Err(e);
                },
            }
        }
        return Ok(SplitMode::At(specs));
    }
    if let Some(count) = args.count {
        return Ok(SplitMode::Count(count));
    }
    if let Some(dur_str) = &args.duration {
        return match parse_time(dur_str.as_str()) {
            Ok(spec) => Ok(SplitMode::Duration(spec)),
            Err(e) => Err(e),
        };
    }
    Err(
        PanaudError::InvalidArgument {
            message: "no split mode specified".to_owned(),
            suggestion: "use --at <times>, --count <N>, or --duration <time>".to_owned(),
        },
    )
}


/// The parameters of `split`.
pub open spec fn split_schema_view() -> CommandView {
    CommandView {
        command: "split"@,
        description: "Split audio into multiple files"@,
        params: seq![
            param_view(
                "input"@,
                ParamType::Path,
                true,
                "Input audio file path"@,
                None,
                None,
            ),
            param_view(
                "output"@,
                ParamType::Path,
                true,
                "Output directory or file prefix"@,
                None,
                None,
            ),
            param_view(
                "at"@,
                ParamType::String,
                false,
                "Split at specific time points (comma-separated)"@,
                None,
                None,
            ),
            param_view(
                "count"@,
                ParamType::Integer,
                false,
                "Split into N equal parts"@,
                None,
                None,
            ),
            param_view(
                "duration"@,
                ParamType::String,
                false,
                "Split into chunks of a given duration"@,
                None,
                None,
            ),
        ],
    }
}

/// Parameter schema of `split`.
pub fn schema() -> (s: CommandSchema)
    ensures
        s@ == split_schema_view(),
{
    let mut params: Vec<ParamSchema> = Vec::new();
    push_param(
        &mut params,
        param(
            "input",
            ParamType::Path,
            true,
            "Input audio file path",
            None,
            None,
        ),
    );
    push_param(
        &mut params,
        param(
            "output",
            ParamType::Path,
            true,
            "Output directory or file prefix",
            None,
            None,
        ),
    );
    push_param(
        &mut params,
        param(
            "at",
            ParamType::String,
            false,
            "Split at specific time points (comma-separated)",
            None,
            None,
        ),
    );
    push_param(
        &mut params,
        param(
            "count",
            ParamType::Integer,
            false,
            "Split into N equal parts",
            None,
            None,
        ),
    );
    push_param(
        &mut params,
        param(
            "duration",
            ParamType::String,
            false,
            "Split into chunks of a given duration",
            None,
            None,
        ),
    );
    let s = command("split", "Split audio into multiple files", params);
    proof {
        assert(s@.params =~= split_schema_view().params);
    }
    s
}


/// The file stem of the last component of `path`, as `std::path::Path::file_stem` finds
/// it (the component without its extension); `None` when there is none or it is not
/// UTF-8.
pub uninterp spec fn path_file_stem(path: Seq<char>) -> Option<Seq<char>>;

/// Calls `std::path::Path::file_stem` on `path`, giving the stem as text. The contract
/// claims only that the result is the stem `path_file_stem` names.
#[verifier::external_body]
fn std_path_file_stem(path: &str) -> (r: Option<String>)
    ensures
        match r {
            Some(s) => path_file_stem(path@) == Some(s@),
            None => path_file_stem(path@) is None,
        },
{
    std::path::Path::new(path).file_stem().and_then(|s| s.to_str()).map(|s| s.to_string())
}

/// The stem the parts of `input` are named after: its file stem, else `part`.
pub fn part_stem(input: &str) -> (r: String)
    ensures
        r@ == match path_file_stem(input@) {
            Some(s) => s,
            None => "part"@,
        },
{
    match std_path_file_stem(input) {
        Some(s) => s,
        None => "part".to_owned(),
    }
}

/// `n` with at least three digits, as `{:03}` prints it.
pub open spec fn pad3_seq(n: nat) -> Seq<char> {
    if n < 10 {
        "00"@ + dec_seq(n)
    } else if n < 100 {
        "0"@ + dec_seq(n)
    } else {
        dec_seq(n)
    }
}

/// The file name of part `number` (counted from one): `<stem>_<number>.<ext>`, the
/// number with at least three digits.
pub open spec fn spec_part_name(stem: Seq<char>, number: nat, ext: Seq<char>) -> Seq<char> {
    stem + "_"@ + pad3_seq(number) + "."@ + ext
}

/// The file name of part `number` (counted from one).
pub fn part_file_name(stem: &str, number: u64, ext: &str) -> (r: String)
    ensures
        r@ == spec_part_name(stem@, number as nat, ext@),
{
    let mut r = stem.to_owned();
    r.append("_");
    if number < 10 {
        r.append("00");
    } else if number < 100 {
        r.append("0");
    }
    push_decimal(&mut r, number);
    r.append(".");
    r.append(ext);
    proof {
        assert(r@ =~= spec_part_name(stem@, number as nat, ext@));
    }
    r
}

/// How a split is described: `at <times>`, `<n> equal parts` or `every <duration>`, the
/// times and the duration as they were given.
pub open spec fn spec_split_mode_text(mode: SplitMode, at: Seq<char>, duration: Seq<char>) -> Seq<char> {
    match mode {
        SplitMode::At(_) => "at "@ + at,
        SplitMode::Count(n) => dec_seq(n as nat) + " equal parts"@,
        SplitMode::Duration(_) => "every "@ + duration,
    }
}

/// Describes a split mode; `at` and `duration` are the texts of `--at` and `--duration`,
/// empty when absent.
pub fn split_mode_text(mode: &SplitMode, at: Option<&str>, duration: Option<&str>) -> (r: String)
    ensures
        r@ == spec_split_mode_text(
            *mode,
            match at {
                Some(a) => a@,
                None => Seq::empty(),
            },
            match duration {
                Some(d) => d@,
                None => Seq::empty(),
            },
        ),
{
    match mode {
        SplitMode::At(_) => {
            let mut r = "at ".to_owned();
            if let Some(a) = at {
                r.append(a);
            }
            proof {
                assert(at is None ==> r@ =~= "at "@ + Seq::<char>::empty());
            }
            r
        },
        SplitMode::Count(n) => {
            let mut r = String::new();
            push_decimal(&mut r, *n as u64);
            r.append(" equal parts");
            proof {
                assert(r@ =~= dec_seq(*n as nat) + " equal parts"@);
            }
            r
        },
        SplitMode::Duration(_) => {
            let mut r = "every ".to_owned();
            if let Some(d) = duration {
                r.append(d);
            }
            proof {
                assert(duration is None ==> r@ =~= "every "@ + Seq::<char>::empty());
            }
            r
        },
    }
}


/// The input file and output directory of `split`; the errors say which is missing.
pub fn split_paths(args: &SplitArgs) -> (r: Result<(String, String)>)
    ensures
        args.input is None ==> (r matches Err(PanaudError::InvalidArgument { message, suggestion })
            && message@ == "missing required argument: input"@ && suggestion@
            == "usage: panaud split <input> -o <output_dir> --count N"@),
        args.input is Some && args.output is None ==> (r matches Err(
            PanaudError::InvalidArgument { message, suggestion },
        ) && message@ == "missing required argument: output (-o)"@ && suggestion@
            == "usage: panaud split <input> -o <output_dir> --count N"@),
        args.input is Some && args.output is Some ==> (r matches Ok((i, o)) && i@ == args.input->0@
            && o@ == args.output->0@),
{
    let input = match &args.input {
        Some(i) => i.clone(),
        None => {
            return Err(
                PanaudError::InvalidArgument {
                    message: "missing required argument: input".to_owned(),
                    suggestion: "usage: panaud split <input> -o <output_dir> --count N".to_owned(),
                },
            );
        },
    };
    match &args.output {
        Some(o) => Ok((input, o.clone())),
        None => Err(
            PanaudError::InvalidArgument {
                message: "missing required argument: output (-o)".to_owned(),
                suggestion: "usage: panaud split <input> -o <output_dir> --count N".to_owned(),
            },
        ),
    }
}

/// A zero in front of a run of digits does not change the number it denotes.
proof fn lemma_leading_zero(s: Seq<char>)
    ensures
        digits_value(seq!['0'] + s) == digits_value(s),
    decreases s.len(),
{
    let t = seq!['0'] + s;
    if s.len() == 0 {
        assert(t.drop_last() =~= Seq::<char>::empty());
        assert(t.last() == '0');
        assert(digits_value(t) == digits_value(t.drop_last()) * 10 + crate::text::digit_val(t.last()));
    } else {
        assert(t.drop_last() =~= seq!['0'] + s.drop_last());
        assert(t.last() == s.last());
        lemma_leading_zero(s.drop_last());
        assert(digits_value(t) == digits_value(t.drop_last()) * 10 + crate::text::digit_val(t.last()));
    }
}

proof fn lemma_dec_len(n: nat)
    ensures
        n < 10 ==> dec_seq(n).len() == 1,
        10 <= n < 100 ==> dec_seq(n).len() == 2,
        n >= 100 ==> dec_seq(n).len() >= 3,
{
    lemma_dec_digits(n);
    if n >= 10 {
        lemma_dec_digits(n / 10);
        if n >= 100 {
            lemma_dec_digits(n / 100);
            assert(dec_seq(n / 10) == dec_seq(n / 10 / 10).push(digit_char_of(n / 10)));
        }
    }
}

spec fn digit_char_of(n: nat) -> char {
    crate::text::digit_char(n % 10)
}

/// A part number is written as `{:03}` writes it: its decimal digits, with zeros in front
/// to make at least three; the digits denote the number.
pub proof fn law_part_number_digits(n: nat)
    ensures
        all_digits(pad3_seq(n)),
        digits_value(pad3_seq(n)) == n,
        pad3_seq(n).len() == if dec_seq(n).len() < 3 {
            3
        } else {
            dec_seq(n).len()
        },
        n >= 100 ==> pad3_seq(n) == dec_seq(n),
{
    lemma_dec_digits(n);
    lemma_dec_len(n);
    let d = dec_seq(n);
    if n < 10 {
        lemma_leading_zero(d);
        lemma_leading_zero(seq!['0'] + d);
        reveal_strlit("00");
        assert("00"@ + d =~= seq!['0'] + (seq!['0'] + d));
        assert forall|i: int| 0 <= i < ("00"@ + d).len() implies crate::text::is_digit(#[trigger] ("00"@ + d)[i]) by {
            if i >= 2 {
                assert(("00"@ + d)[i] == d[i - 2]);
            }
        }
    } else if n < 100 {
        lemma_leading_zero(d);
        reveal_strlit("0");
        assert("0"@ + d =~= seq!['0'] + d);
        assert forall|i: int| 0 <= i < ("0"@ + d).len() implies crate::text::is_digit(#[trigger] ("0"@ + d)[i]) by {
            if i >= 1 {
                assert(("0"@ + d)[i] == d[i - 1]);
            }
        }
    }
}

/// The name of part `n` is the stem, `_`, the part number with at least three digits
/// (see `law_part_number_digits`), `.`, and the extension.
pub proof fn law_part_file_name(stem: Seq<char>, n: nat, ext: Seq<char>)
    ensures
        ({
            let name = spec_part_name(stem, n, ext);
            let num = name.subrange(stem.len() + 1int, name.len() - ext.len() - 1);
            &&& name.take(stem.len() as int) == stem
            &&& name[stem.len() as int] == '_'
            &&& all_digits(num)
            &&& digits_value(num) == n
            &&& num.len() == if dec_seq(n).len() < 3 {
                3
            } else {
                dec_seq(n).len()
            }
            &&& name[name.len() - ext.len() - 1] == '.'
            &&& name.skip(name.len() - ext.len() as int) == ext
        }),
{
    law_part_number_digits(n);
    reveal_strlit("_");
    reveal_strlit(".");
    let p = pad3_seq(n);
    let name = spec_part_name(stem, n, ext);
    assert(name =~= stem + seq!['_'] + p + seq!['.'] + ext);
    assert(name.subrange(stem.len() + 1int, name.len() - ext.len() - 1) =~= p);
    assert(name.take(stem.len() as int) =~= stem);
    assert(name.skip(name.len() - ext.len() as int) =~= ext);
}

} // verus!
