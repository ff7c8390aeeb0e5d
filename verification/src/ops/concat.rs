//! Joining audio segments end to end.
use vstd::prelude::*;
use crate::error::{PanaudError, Result};
use crate::text::{dec_seq, push_decimal};
use crate::types::AudioData;

verus! {

/// Whether input `i` differs from the first input in sample rate or channel count.
pub open spec fn mismatched<S>(inputs: Seq<AudioData<S>>, i: int) -> bool {
    inputs[i].sample_rate != inputs[0].sample_rate || inputs[i].channels != inputs[0].channels
}

/// Input `i` is the first that differs from the first input.
pub open spec fn first_mismatch<S>(inputs: Seq<AudioData<S>>, i: int) -> bool {
    &&& 1 <= i < inputs.len()
    &&& mismatched(inputs, i)
    &&& forall|j: int| 1 <= j < i ==> !#[trigger] mismatched(inputs, j)
}

/// The message for a mismatched input `i`: its sample rate when that differs, else its
/// channel count.
pub open spec fn mismatch_message<S>(inputs: Seq<AudioData<S>>, i: int) -> Seq<char> {
    if inputs[i].sample_rate != inputs[0].sample_rate {
        rate_mismatch_message(i as nat, inputs[i].sample_rate as nat, inputs[0].sample_rate as nat)
    } else {
        channel_mismatch_message(i as nat, inputs[i].channels as nat, inputs[0].channels as nat)
    }
}

/// The samples of all inputs, one after another.
pub open spec fn joined_samples<S>(inputs: Seq<AudioData<S>>) -> Seq<S> {
    inputs.map_values(|a: AudioData<S>| a.samples@).flatten()
}

/// Appends a copy of every sample of `src`.
pub fn extend_from<S: Copy>(out: &mut Vec<S>, src: &Vec<S>)
    ensures
        final(out)@ == old(out)@ + src@,
{
    let mut i: usize = 0;
    while i < src.len()
        invariant
            i <= src.len(),
            out@ == old(out)@ + src@.subrange(0, i as int),
        decreases src.len() - i,
    {
        out.push(src[i]);
        i += 1;
    }
    assert(src@.subrange(0, src.len() as int) =~= src@);
}

/// The message for input `i` whose sample rate `rate` is not the first input's `first`.
pub open spec fn rate_mismatch_message(i: nat, rate: nat, first: nat) -> Seq<char> {
    "input "@ + dec_seq(i) + " has sample rate "@ + dec_seq(rate) + " Hz, but input 0 has "@ + dec_seq(first)
        + " Hz"@
}

/// The message for input `i` whose channel count `ch` is not the first input's `first`.
pub open spec fn channel_mismatch_message(i: nat, ch: nat, first: nat) -> Seq<char> {
    "input "@ + dec_seq(i) + " has "@ + dec_seq(ch) + " channels, but input 0 has "@ + dec_seq(first)
        + " channels"@
}

/// The error for input `i` whose sample rate differs from the first input's.
pub fn rate_mismatch(i: u64, rate: u32, first: u32) -> (e: PanaudError)
    ensures
        e matches PanaudError::FormatMismatch { message, suggestion } && message@ == rate_mismatch_message(
            i as nat,
            rate as nat,
            first as nat,
        ) && suggestion@
            == "all inputs must have the same sample rate; use 'panaud resample' to match them first"@,
{
    let mut message = String::new();
    message.append("input ");
    push_decimal(&mut message, i);
    message.append(" has sample rate ");
    push_decimal(&mut message, rate as u64);
    message.append(" Hz, but input 0 has ");
    push_decimal(&mut message, first as u64);
    message.append(" Hz");
    proof {
        assert(message@ =~= rate_mismatch_message(i as nat, rate as nat, first as nat));
    }
    PanaudError::FormatMismatch {
        message,
        suggestion: "all inputs must have the same sample rate; use 'panaud resample' to match them first".to_owned(),
    }
}

/// The error for input `i` whose channel count differs from the first input's.
pub fn channel_mismatch(i: u64, ch: u16, first: u16) -> (e: PanaudError)
    ensures
        e matches PanaudError::FormatMismatch { message, suggestion } && message@
            == channel_mismatch_message(i as nat, ch as nat, first as nat) && suggestion@
            == "all inputs must have the same channel count; use 'panaud channels' to match them first"@,
{
    let mut message = String::new();
    message.append("input ");
    push_decimal(&mut message, i);
    message.append(" has ");
    push_decimal(&mut message, ch as u64);
    message.append(" channels, but input 0 has ");
    push_decimal(&mut message, first as u64);
    message.append(" channels");
    proof {
        assert(message@ =~= channel_mismatch_message(i as nat, ch as nat, first as nat));
    }
    PanaudError::FormatMismatch {
        message,
        suggestion: "all inputs must have the same channel count; use 'panaud channels' to match them first".to_owned(),
    }
}

/// Concatenate multiple audio segments into one.
///
/// All inputs must have the same sample rate and channel count.
pub fn concat_audio<S: Copy>(inputs: Vec<AudioData<S>>) -> (r: Result<AudioData<S>>)
    ensures
        inputs@.len() == 0 ==> (r matches Err(PanaudError::InvalidArgument { message, suggestion })
            && message@ == "concat requires at least one input"@ && suggestion@
            == "provide two or more audio files to concatenate"@),
        inputs@.len() > 0 && (exists|i: int| 1 <= i < inputs@.len() && mismatched(inputs@, i))
            ==> (r matches Err(PanaudError::FormatMismatch { message, .. }) && exists|i: int|
            first_mismatch(inputs@, i) && message@ == mismatch_message(inputs@, i)),
        inputs@.len() > 0 && !(exists|i: int| 1 <= i < inputs@.len() && mismatched(inputs@, i))
            ==> (r matches Ok(out) && out.samples@ == joined_samples(inputs@) && out.sample_rate
            == inputs@[0].sample_rate && out.channels == inputs@[0].channels),
{
    if inputs.len() == 0 {
        return Err(
            PanaudError::InvalidArgument {
                message: "concat requires at least one input".to_owned(),
                suggestion: "provide two or more audio files to concatenate".to_owned(),
            },
        );
    }
    let sample_rate = inputs[0].sample_rate;
    let channels = inputs[0].channels;
    let mut i: usize = 1;
    while i < inputs.len()
        invariant
            1 <= i <= inputs.len(),
            sample_rate == inputs@[0].sample_rate,
            channels == inputs@[0].channels,
            forall|j: int| 1 <= j < i ==> !mismatched(inputs@, j),
        decreases inputs.len() - i,
    {
        if inputs[i].sample_rate != sample_rate {
            assert(first_mismatch(inputs@, i as int));
            return Err(rate_mismatch(i as u64, inputs[i].sample_rate, sample_rate));
        }
        if inputs[i].channels != channels {
            assert(first_mismatch(inputs@, i as int));
            return Err(channel_mismatch(i as u64, inputs[i].channels, channels));
        }
        i += 1;
    }
    let mut samples: Vec<S> = Vec::new();
    let mut k: usize = 0;
    while k < inputs.len()
        invariant
            k <= inputs.len(),
            samples@ == joined_samples(inputs@.subrange(0, k as int)),
        decreases inputs.len() - k,
    {
        proof {
            let pre = inputs@.subrange(0, k as int);
            assert(inputs@.subrange(0, k + 1) =~= pre.push(inputs@[k as int]));
            assert(pre.push(inputs@[k as int]).map_values(|a: AudioData<S>| a.samples@) =~= pre.map_values(
                |a: AudioData<S>| a.samples@,
            ).push(inputs@[k as int].samples@));
            pre.map_values(|a: AudioData<S>| a.samples@).lemma_flatten_push(inputs@[k as int].samples@);
        }
        extend_from(&mut samples, &inputs[k].samples);
        k += 1;
    }
    assert(inputs@.subrange(0, inputs.len() as int) =~= inputs@);
    Ok(AudioData { samples, sample_rate, channels })
}

} // verus!
