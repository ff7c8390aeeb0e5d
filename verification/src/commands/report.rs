//! The one-line reports the commands print for people, before (dry run) or after the work.
use vstd::prelude::*;
use crate::text::{dec_seq, push_decimal};

verus! {

/// `<verb> <input> → <output>`.
pub open spec fn spec_transfer_text(verb: Seq<char>, input: Seq<char>, output: Seq<char>) -> Seq<char> {
    verb + " "@ + input + " → "@ + output
}

/// Reports a command that read `input` and wrote (or would write) `output`, such as
/// `Trimmed a.wav → b.wav` or `Would trim a.wav → b.wav`.
pub fn transfer_text(verb: &str, input: &str, output: &str) -> (r: String)
    ensures
        r@ == spec_transfer_text(verb@, input@, output@),
{
    let mut r = verb.to_owned();
    r.append(" ");
    r.append(input);
    r.append(" → ");
    r.append(output);
    proof {
        assert(r@ =~= spec_transfer_text(verb@, input@, output@));
    }
    r
}

/// The report of `channels`: `<verb> (<mode>) <input> → <output>`.
pub fn channels_text(verb: &str, mode: &str, input: &str, output: &str) -> (r: String)
    ensures
        r@ == verb@ + " ("@ + mode@ + ") "@ + input@ + " → "@ + output@,
{
    let mut r = verb.to_owned();
    r.append(" (");
    r.append(mode);
    r.append(") ");
    r.append(input);
    r.append(" → ");
    r.append(output);
    proof {
        assert(r@ =~= verb@ + " ("@ + mode@ + ") "@ + input@ + " → "@ + output@);
    }
    r
}

/// The report of `concat`: `<verb> <count> files → <output>`.
pub fn concat_text(verb: &str, count: u64, output: &str) -> (r: String)
    ensures
        r@ == verb@ + " "@ + dec_seq(count as nat) + " files → "@ + output@,
{
    let mut r = verb.to_owned();
    r.append(" ");
    push_decimal(&mut r, count);
    r.append(" files → ");
    r.append(output);
    proof {
        assert(r@ =~= verb@ + " "@ + dec_seq(count as nat) + " files → "@ + output@);
    }
    r
}

/// The dry-run report of `convert`: `Would convert <input> (<from>) → <output> (<to>)`.
pub fn convert_plan_text(input: &str, from: &str, output: &str, to: &str) -> (r: String)
    ensures
        r@ == "Would convert "@ + input@ + " ("@ + from@ + ") → "@ + output@ + " ("@ + to@ + ")"@,
{
    let mut r = "Would convert ".to_owned();
    r.append(input);
    r.append(" (");
    r.append(from);
    r.append(") → ");
    r.append(output);
    r.append(" (");
    r.append(to);
    r.append(")");
    proof {
        assert(r@ =~= "Would convert "@ + input@ + " ("@ + from@ + ") → "@ + output@ + " ("@ + to@
            + ")"@);
    }
    r
}

/// The report of `convert`: `Converted <input> → <output> (<from> → <to>)`.
pub fn convert_done_text(input: &str, output: &str, from: &str, to: &str) -> (r: String)
    ensures
        r@ == "Converted "@ + input@ + " → "@ + output@ + " ("@ + from@ + " → "@ + to@ + ")"@,
{
    let mut r = "Converted ".to_owned();
    r.append(input);
    r.append(" → ");
    r.append(output);
    r.append(" (");
    r.append(from);
    r.append(" → ");
    r.append(to);
    r.append(")");
    proof {
        assert(r@ =~= "Converted "@ + input@ + " → "@ + output@ + " ("@ + from@ + " → "@ + to@
            + ")"@);
    }
    r
}

/// The report of `resample`: `<verb> <input> → <output> at <rate> Hz`.
pub fn resample_text(verb: &str, input: &str, output: &str, rate: u32) -> (r: String)
    ensures
        r@ == spec_transfer_text(verb@, input@, output@) + " at "@ + dec_seq(rate as nat) + " Hz"@,
{
    let mut r = transfer_text(verb, input, output);
    r.append(" at ");
    push_decimal(&mut r, rate as u64);
    r.append(" Hz");
    proof {
        assert(r@ =~= spec_transfer_text(verb@, input@, output@) + " at "@ + dec_seq(rate as nat)
            + " Hz"@);
    }
    r
}

/// The dry-run report of `split`: `Would split <input> → <output dir> (<mode>)`.
pub fn split_plan_text(input: &str, output_dir: &str, mode: &str) -> (r: String)
    ensures
        r@ == spec_transfer_text("Would split"@, input@, output_dir@) + " ("@ + mode@ + ")"@,
{
    let mut r = transfer_text("Would split", input, output_dir);
    r.append(" (");
    r.append(mode);
    r.append(")");
    proof {
        assert(r@ =~= spec_transfer_text("Would split"@, input@, output_dir@) + " ("@ + mode@ + ")"@);
    }
    r
}

/// The report of `split`: `Split <input> into <parts> parts → <output dir>`.
pub fn split_done_text(input: &str, parts: u64, output_dir: &str) -> (r: String)
    ensures
        r@ == "Split "@ + input@ + " into "@ + dec_seq(parts as nat) + " parts → "@ + output_dir@,
{
    let mut r = "Split ".to_owned();
    r.append(input);
    r.append(" into ");
    push_decimal(&mut r, parts);
    r.append(" parts → ");
    r.append(output_dir);
    proof {
        assert(r@ =~= "Split "@ + input@ + " into "@ + dec_seq(parts as nat) + " parts → "@
            + output_dir@);
    }
    r
}

} // verus!
