//! Splitting audio into consecutive segments.
use vstd::prelude::*;
use crate::error::{PanaudError, Result};
use crate::ops::concat::{joined_samples, mismatched};
use crate::ops::trim::{push_duration, spec_duration_text};
use crate::text::{dec_seq, push_decimal};
use crate::time::{spec_to_frame, TimeSpec};
use crate::types::{lemma_frames_fit, AudioData};

verus! {

/// How to split the audio.
#[derive(Debug, Clone)]
pub enum SplitMode {
    /// Split at specific time points.
    At(Vec<TimeSpec>),
    /// Split into N equal parts.
    Count(u32),
    /// Split into chunks of a given duration.
    Duration(TimeSpec),
}

pub open spec fn strictly_increasing(s: Seq<u64>) -> bool {
    forall|i: int, j: int| 0 <= i < j < s.len() ==> s[i] < s[j]
}

/// `x` is a cut point of `At(times)`: strictly inside the audio, and the frame of one of
/// the times.
pub open spec fn is_at_point(times: Seq<TimeSpec>, rate: u32, total: nat, x: u64) -> bool {
    0 < x < total && exists|i: int| 0 <= i < times.len() && spec_to_frame(times[i], rate) == x
}

/// `pts` lists the cut points of `At(times)` in increasing order, each once.
pub open spec fn at_points(pts: Seq<u64>, times: Seq<TimeSpec>, rate: u32, total: nat) -> bool {
    &&& strictly_increasing(pts)
    &&& forall|x: u64| pts.contains(x) <==> is_at_point(times, rate, total, x)
}

/// The multiples `chunk * i` for `1 <= i < n`.
pub open spec fn multiples(chunk: nat, n: nat) -> Seq<u64> {
    Seq::new(n, |i: int| (chunk * (i + 1)) as u64)
}

/// Boundaries of the segments: 0, the cut points, and the end.
pub open spec fn bounds(pts: Seq<u64>, total: nat) -> Seq<int> {
    seq![0int] + pts.map_values(|p: u64| p as int) + seq![total as int]
}

/// `segs` are the segments of `input` between consecutive boundaries.
pub open spec fn segments_match<S>(input: AudioData<S>, pts: Seq<u64>, segs: Seq<AudioData<S>>) -> bool {
    let b = bounds(pts, input.frames());
    &&& segs.len() == pts.len() + 1
    &&& forall|j: int|
        0 <= j < segs.len() ==> (#[trigger] segs[j]).samples@ == input.samples@.subrange(
            b[j] * input.channels,
            b[j + 1] * input.channels,
        ) && segs[j].sample_rate == input.sample_rate && segs[j].channels == input.channels
}

/// The cut points of `Count` and `Duration` modes; the ones of `At` are given by `at_points`.
pub open spec fn spec_split_points(mode: SplitMode, rate: u32, total: nat) -> Option<Seq<u64>> {
    match mode {
        SplitMode::At(_) => None,
        SplitMode::Count(n) => if n < 2 || total / (n as nat) == 0 {
            None
        } else {
            Some(multiples(total / (n as nat), (n - 1) as nat))
        },
        SplitMode::Duration(d) => {
            let chunk = spec_to_frame(d, rate);
            if chunk == 0 || chunk >= total {
                None
            } else {
                Some(multiples(chunk as nat, ((total - 1) as nat / chunk as nat) as nat))
            }
        },
    }
}

/// The message and the suggestion of the error for a split that makes no cut.
pub open spec fn split_failure(mode: SplitMode, rate: u32, total: nat) -> (Seq<char>, Seq<char>) {
    match mode {
        SplitMode::At(_) => (
            "all split points are outside the audio range"@,
            "audio is "@ + spec_duration_text(total as u64, rate) + "s long; use split points within that range"@,
        ),
        SplitMode::Count(n) => if n < 2 {
            ("split count must be at least 2"@, "use --count N where N >= 2"@)
        } else {
            (
                "audio too short ("@ + dec_seq(total) + " frames) to split into "@ + dec_seq(n as nat) + " parts"@,
                "reduce the number of parts or use longer audio"@,
            )
        },
        SplitMode::Duration(d) => {
            let chunk = spec_to_frame(d, rate);
            if chunk == 0 {
                ("split duration must be greater than 0"@, "use a positive duration like '30s' or '1:00'"@)
            } else {
                (
                    "duration ("@ + dec_seq(chunk as nat) + " frames) exceeds audio length ("@ + dec_seq(total)
                        + " frames)"@,
                    "use a shorter duration or longer audio"@,
                )
            }
        },
    }
}

/// `r` is the split error that `split_failure` describes.
pub open spec fn is_split_failure<T>(r: Result<T>, mode: SplitMode, rate: u32, total: nat) -> bool {
    r matches Err(PanaudError::SplitError { message, suggestion }) && (message@, suggestion@) == split_failure(
        mode,
        rate,
        total,
    )
}

/// Insert `p` into a strictly increasing list, unless it is already there.
fn insert_point(v: &mut Vec<u64>, p: u64)
    requires
        strictly_increasing(old(v)@),
    ensures
        strictly_increasing(final(v)@),
        forall|x: u64| final(v)@.contains(x) <==> (old(v)@.contains(x) || x == p),
{
    let mut i: usize = 0;
    while i < v.len() && v[i] < p
        invariant
            i <= v.len(),
            forall|j: int| 0 <= j < i ==> v@[j] < p,
        decreases v.len() - i,
    {
        i += 1;
    }
    if i < v.len() && v[i] == p {
        assert(v@.contains(p));
        return;
    }
    let ghost pre = v@;
    v.insert(i, p);
    proof {
        let post = v@;
        assert(post =~= pre.subrange(0, i as int).push(p) + pre.subrange(i as int, pre.len() as int));
        assert forall|a: int, b: int| 0 <= a < b < post.len() implies post[a] < post[b] by {
            if b < i {
            } else if b == i {
            } else if a < i {
                assert(post[b] == pre[b - 1]);
                assert(pre[i as int] > p);
                if b - 1 > i {
                    assert(pre[i as int] < pre[b - 1]);
                }
            } else if a == i {
                assert(post[b] == pre[b - 1]);
                assert(pre[i as int] > p);
                if b - 1 > i {
                    assert(pre[i as int] < pre[b - 1]);
                }
            } else {
                assert(post[a] == pre[a - 1]);
                assert(post[b] == pre[b - 1]);
            }
        }
        assert forall|x: u64| post.contains(x) <==> (pre.contains(x) || x == p) by {
            if post.contains(x) {
                let k = choose|k: int| 0 <= k < post.len() && post[k] == x;
                if k < i {
                    assert(pre[k] == x);
                } else if k > i {
                    assert(pre[k - 1] == x);
                }
            }
            if pre.contains(x) {
                let k = choose|k: int| 0 <= k < pre.len() && pre[k] == x;
                if k < i {
                    assert(post[k] == x);
                } else {
                    assert(post[k + 1] == x);
                }
            }
            if x == p {
                assert(post[i as int] == p);
            }
        }
    }
}

/// The cut points of `At(times)`, sorted, without repeats, strictly inside the audio.
fn at_split_points(times: &Vec<TimeSpec>, rate: u32, total: u64) -> (r: Vec<u64>)
    ensures
        at_points(r@, times@, rate, total as nat),
{
    let mut pts: Vec<u64> = Vec::new();
    let mut k: usize = 0;
    while k < times.len()
        invariant
            k <= times.len(),
            strictly_increasing(pts@),
            forall|x: u64|
                pts@.contains(x) <==> (0 < x < total && exists|i: int|
                    0 <= i < k && spec_to_frame(times@[i], rate) == x),
        decreases times.len() - k,
    {
        let p = times[k].to_frame(rate);
        let ghost before = pts@;
        if p > 0 && p < total {
            insert_point(&mut pts, p);
        }
        proof {
            assert forall|x: u64|
                pts@.contains(x) <==> (0 < x < total && exists|i: int|
                    0 <= i < k + 1 && spec_to_frame(times@[i], rate) == x) by {
                if 0 < x < total && exists|i: int|
                    0 <= i < k + 1 && spec_to_frame(times@[i], rate) == x {
                    let i = choose|i: int| 0 <= i < k + 1 && spec_to_frame(times@[i], rate) == x;
                    if i < k {
                        assert(before.contains(x));
                    }
                }
                if before.contains(x) {
                    let i = choose|i: int| 0 <= i < k && spec_to_frame(times@[i], rate) == x;
                    assert(0 <= i < k + 1);
                }
            }
        }
        k += 1;
    }
    pts
}

/// The multiples `chunk * i` for `1 <= i <= count`.
fn multiples_exec(chunk: u64, count: u64) -> (r: Vec<u64>)
    requires
        chunk * count <= u64::MAX,
    ensures
        r@ == multiples(chunk as nat, count as nat),
{
    let mut v: Vec<u64> = Vec::new();
    let mut i: u64 = 0;
    while i < count
        invariant
            i <= count,
            chunk * count <= u64::MAX,
            v@ == multiples(chunk as nat, i as nat),
        decreases count - i,
    {
        assert(chunk * (i + 1) <= chunk * count) by (nonlinear_arith)
            requires
                i < count,
        ;
        v.push(chunk * (i + 1));
        assert(v@ =~= multiples(chunk as nat, (i + 1) as nat));
        i += 1;
    }
    v
}

/// The boundaries are 0, then the cut points, then the end.
proof fn lemma_bounds(pts: Seq<u64>, total: nat, i: int)
    requires
        0 <= i <= pts.len() + 1,
    ensures
        i == 0 ==> bounds(pts, total)[i] == 0,
        1 <= i <= pts.len() ==> bounds(pts, total)[i] == pts[i - 1],
        i == pts.len() + 1 ==> bounds(pts, total)[i] == total,
        bounds(pts, total).len() == pts.len() + 2,
{
}

proof fn lemma_multiples_increasing(chunk: nat, n: nat, total: nat)
    requires
        chunk > 0,
        chunk * n < total,
        total <= u64::MAX,
    ensures
        strictly_increasing(multiples(chunk, n)),
        forall|i: int| 0 <= i < n ==> 0 < #[trigger] multiples(chunk, n)[i] < total,
{
    assert forall|i: int, j: int| 0 <= i < j < n implies multiples(chunk, n)[i] < multiples(
        chunk,
        n,
    )[j] by {
        assert(chunk * (i + 1) < chunk * (j + 1)) by (nonlinear_arith)
            requires
                chunk > 0,
                i < j,
        ;
        assert(chunk * (j + 1) <= chunk * n) by (nonlinear_arith)
            requires
                j < n,
        ;
    }
    assert forall|i: int| 0 <= i < n implies 0 < #[trigger] multiples(chunk, n)[i] < total by {
        assert(0 < chunk * (i + 1) <= chunk * n) by (nonlinear_arith)
            requires
                chunk > 0,
                0 <= i < n,
        ;
    }
}

/// The segments of `input` between consecutive cut points.
fn segments<S: Copy>(input: &AudioData<S>, pts: &Vec<u64>, total: u64) -> (r: Vec<AudioData<S>>)
    requires
        total == input.frames(),
        strictly_increasing(pts@),
        forall|i: int| 0 <= i < pts@.len() ==> 0 < #[trigger] pts@[i] < total,
    ensures
        segments_match(*input, pts@, r@),
{
    let ghost b = bounds(pts@, total as nat);
    let mut out: Vec<AudioData<S>> = Vec::new();
    let mut start: u64 = 0;
    let mut j: usize = 0;
    while j < pts.len()
        invariant
            total == input.frames(),
            b == bounds(pts@, total as nat),
            strictly_increasing(pts@),
            forall|i: int| 0 <= i < pts@.len() ==> 0 < #[trigger] pts@[i] < total,
            j <= pts.len(),
            start == b[j as int],
            out@.len() == j,
            forall|q: int|
                0 <= q < j ==> (#[trigger] out@[q]).samples@ == input.samples@.subrange(
                    b[q] * input.channels,
                    b[q + 1] * input.channels,
                ) && out@[q].sample_rate == input.sample_rate && out@[q].channels == input.channels,
        decreases pts.len() - j,
    {
        let p = pts[j];
        assert(b[j + 1] == p);
        if j > 0 {
            assert(pts@[j - 1] < pts@[j as int]);
        }
        let seg = input.slice_frames(start, p);
        out.push(seg);
        start = p;
        j += 1;
    }
    assert(b[j + 1] == total);
    if j > 0 {
        assert(pts@[j - 1] < total);
    }
    let last = input.slice_frames(start, total);
    out.push(last);
    out
}

/// `segs` is a split of `input` as `mode` asks: the segments between its cut points.
pub open spec fn split_outcome<S>(input: AudioData<S>, mode: SplitMode, segs: Seq<AudioData<S>>) -> bool {
    match mode {
        SplitMode::At(times) => exists|pts: Seq<u64>|
            pts.len() > 0 && at_points(pts, times@, input.sample_rate, input.frames()) && segments_match(
                input,
                pts,
                segs,
            ),
        _ => match spec_split_points(mode, input.sample_rate, input.frames()) {
            Some(pts) => segments_match(input, pts, segs),
            None => false,
        },
    }
}

/// Split audio into multiple segments.
///
/// `At` cuts at the given times (those strictly inside the audio, sorted, once each),
/// `Count(n)` cuts into `n` parts of `total / n` frames (the last part takes the rest),
/// `Duration(d)` cuts every `d`.
pub fn split_audio<S: Copy>(input: &AudioData<S>, mode: &SplitMode) -> (r: Result<Vec<AudioData<S>>>)
    ensures
        r is Ok ==> split_outcome(*input, *mode, r->Ok_0@),
        input.frames() == 0 ==> (r matches Err(PanaudError::SplitError { message, suggestion })
            && message@ == "cannot split empty audio"@ && suggestion@ == "input audio has no samples"@),
        input.frames() > 0 ==> match *mode {
            SplitMode::At(times) => {
                if exists|x: u64| is_at_point(times@, input.sample_rate, input.frames(), x) {
                    r is Ok && exists|pts: Seq<u64>|
                        at_points(pts, times@, input.sample_rate, input.frames())
                            && segments_match(*input, pts, r->Ok_0@)
                } else {
                    is_split_failure(r, *mode, input.sample_rate, input.frames())
                }
            },
            _ => match spec_split_points(*mode, input.sample_rate, input.frames()) {
                Some(pts) => r is Ok && segments_match(*input, pts, r->Ok_0@),
                None => is_split_failure(r, *mode, input.sample_rate, input.frames()),
            },
        },
{
    let total_frames = input.num_frames();
    if total_frames == 0 {
        return Err(
            PanaudError::SplitError {
                message: "cannot split empty audio".to_owned(),
                suggestion: "input audio has no samples".to_owned(),
            },
        );
    }
    match mode {
        SplitMode::At(times) => {
            let points = at_split_points(times, input.sample_rate, total_frames);
            if points.len() == 0 {
                proof {
                    assert forall|x: u64| !is_at_point(times@, input.sample_rate, input.frames(), x) by {
                        assert(!points@.contains(x));
                    }
                }
                let mut suggestion = String::new();
                suggestion.append("audio is ");
                push_duration(&mut suggestion, total_frames, input.sample_rate);
                suggestion.append("s long; use split points within that range");
                proof {
                    assert(suggestion@ =~= "audio is "@ + spec_duration_text(total_frames, input.sample_rate)
                        + "s long; use split points within that range"@);
                }
                return Err(
                    PanaudError::SplitError {
                        message: "all split points are outside the audio range".to_owned(),
                        suggestion,
                    },
                );
            }
            proof {
                assert(points@.contains(points@[0]));
                assert(is_at_point(times@, input.sample_rate, input.frames(), points@[0]));
                assert forall|i: int| 0 <= i < points@.len() implies 0 < #[trigger] points@[i]
                    < total_frames by {
                    assert(points@.contains(points@[i]));
                }
            }
            let res = segments(input, &points, total_frames);
            let r: Result<Vec<AudioData<S>>> = Ok(res);
            proof {
                assert(at_points(points@, times@, input.sample_rate, input.frames()));
                assert(segments_match(*input, points@, res@));
                assert(r->Ok_0 == res);
                assert(exists|pts: Seq<u64>|
                    pts.len() > 0 && at_points(pts, times@, input.sample_rate, input.frames()) && segments_match(
                        *input,
                        pts,
                        r->Ok_0@,
                    ));
            }
            r
        },
        SplitMode::Count(n) => {
            let n = *n;
            if n < 2 {
                return Err(
                    PanaudError::SplitError {
                        message: "split count must be at least 2".to_owned(),
                        suggestion: "use --count N where N >= 2".to_owned(),
                    },
                );
            }
            let chunk_frames = total_frames / n as u64;
            if chunk_frames == 0 {
                let mut message = String::new();
                message.append("audio too short (");
                push_decimal(&mut message, total_frames);
                message.append(" frames) to split into ");
                push_decimal(&mut message, n as u64);
                message.append(" parts");
                proof {
                    assert(message@ =~= "audio too short ("@ + dec_seq(total_frames as nat) + " frames) to split into "@
                        + dec_seq(n as nat) + " parts"@);
                }
                return Err(
                    PanaudError::SplitError {
                        message,
                        suggestion: "reduce the number of parts or use longer audio".to_owned(),
                    },
                );
            }
            proof {
                assert(chunk_frames * (n - 1) < total_frames) by (nonlinear_arith)
                    requires
                        chunk_frames as int == (total_frames as int) / (n as int),
                        chunk_frames > 0,
                        n >= 2,
                ;
                lemma_multiples_increasing(chunk_frames as nat, (n - 1) as nat, total_frames as nat);
            }
            let pts = multiples_exec(chunk_frames, (n - 1) as u64);
            Ok(segments(input, &pts, total_frames))
        },
        SplitMode::Duration(dur) => {
            let chunk_frames = dur.to_frame(input.sample_rate);
            if chunk_frames == 0 {
                return Err(
                    PanaudError::SplitError {
                        message: "split duration must be greater than 0".to_owned(),
                        suggestion: "use a positive duration like '30s' or '1:00'".to_owned(),
                    },
                );
            }
            if chunk_frames >= total_frames {
                let mut message = String::new();
                message.append("duration (");
                push_decimal(&mut message, chunk_frames);
                message.append(" frames) exceeds audio length (");
                push_decimal(&mut message, total_frames);
                message.append(" frames)");
                proof {
                    assert(message@ =~= "duration ("@ + dec_seq(chunk_frames as nat) + " frames) exceeds audio length ("@
                        + dec_seq(total_frames as nat) + " frames)"@);
                }
                return Err(
                    PanaudError::SplitError {
                        message,
                        suggestion: "use a shorter duration or longer audio".to_owned(),
                    },
                );
            }
            let count = (total_frames - 1) / chunk_frames;
            proof {
                assert(chunk_frames * count <= total_frames - 1) by (nonlinear_arith)
                    requires
                        count as int == (total_frames as int - 1) / (chunk_frames as int),
                        chunk_frames > 0,
                ;
                lemma_multiples_increasing(chunk_frames as nat, count as nat, total_frames as nat);
            }
            let pts = multiples_exec(chunk_frames, count);
            Ok(segments(input, &pts, total_frames))
        },
    }
}

proof fn lemma_segments_prefix<S>(input: AudioData<S>, pts: Seq<u64>, segs: Seq<AudioData<S>>, k: int)
    requires
        input.channels > 0,
        segments_match(input, pts, segs),
        strictly_increasing(pts),
        forall|i: int| 0 <= i < pts.len() ==> 0 < #[trigger] pts[i] < input.frames(),
        0 <= k <= segs.len(),
    ensures
        joined_samples(segs.subrange(0, k)) == input.samples@.subrange(
            0,
            bounds(pts, input.frames())[k] * input.channels,
        ),
    decreases k,
{
    let b = bounds(pts, input.frames());
    let ch = input.channels as int;
    lemma_bounds(pts, input.frames(), 0);
    if k == 0 {
        assert(segs.subrange(0, 0).map_values(|a: AudioData<S>| a.samples@) =~= Seq::<Seq<S>>::empty());
        assert(input.samples@.subrange(0, 0) =~= Seq::<S>::empty());
    } else {
        lemma_segments_prefix(input, pts, segs, k - 1);
        let pre = segs.subrange(0, k - 1);
        assert(segs.subrange(0, k) =~= pre.push(segs[k - 1]));
        assert(pre.push(segs[k - 1]).map_values(|a: AudioData<S>| a.samples@) =~= pre.map_values(
            |a: AudioData<S>| a.samples@,
        ).push(segs[k - 1].samples@));
        pre.map_values(|a: AudioData<S>| a.samples@).lemma_flatten_push(segs[k - 1].samples@);
        assert(segs[k - 1].samples@ == input.samples@.subrange(b[k - 1] * ch, b[k] * ch));
        // boundaries are nondecreasing and within the samples
        lemma_bounds(pts, input.frames(), k - 1);
        lemma_bounds(pts, input.frames(), k);
        assert(b[k - 1] <= b[k]) by {
            if k - 1 >= 1 && k <= pts.len() {
                assert(pts[k - 2] < pts[k - 1]);
            } else if k - 1 >= 1 {
                assert(pts[k - 2] < input.frames());
            }
        }
        assert(b[k] <= input.frames()) by {
            if k <= pts.len() {
                assert(pts[k - 1] < input.frames());
            }
        }
        lemma_frames_fit(input.samples@.len(), input.channels, b[k] as nat);
        assert(b[k - 1] * ch <= b[k] * ch) by (nonlinear_arith)
            requires
                b[k - 1] <= b[k],
                ch > 0,
        ;
        assert(input.samples@.subrange(0, b[k - 1] * ch) + input.samples@.subrange(
            b[k - 1] * ch,
            b[k] * ch,
        ) =~= input.samples@.subrange(0, b[k] * ch));
    }
}

/// Splitting audio and joining the segments again gives back every whole frame of the
/// input, and the segments all share the input's sample rate and channel count.
proof fn lemma_segments_join<S>(input: AudioData<S>, pts: Seq<u64>, segs: Seq<AudioData<S>>)
    requires
        input.channels > 0,
        segments_match(input, pts, segs),
        strictly_increasing(pts),
        forall|i: int| 0 <= i < pts.len() ==> 0 < #[trigger] pts[i] < input.frames(),
    ensures
        joined_samples(segs) == input.samples@.subrange(0, input.frames() * input.channels),
        forall|i: int| 0 <= i < segs.len() ==> !mismatched(segs, i),
{
    lemma_segments_prefix(input, pts, segs, segs.len() as int);
    assert(segs.subrange(0, segs.len() as int) =~= segs);
    lemma_bounds(pts, input.frames(), segs.len() as int);
    lemma_frames_fit(input.samples@.len(), input.channels, input.frames());
    assert(bounds(pts, input.frames())[segs.len() as int] == input.frames());
}


proof fn lemma_multiple_value(chunk: nat, n: nat, i: int)
    requires
        0 <= i < n,
        chunk * n <= u64::MAX,
    ensures
        multiples(chunk, n)[i] == chunk * (i + 1),
{
    assert(chunk * (i + 1) <= chunk * n) by (nonlinear_arith)
        requires
            0 <= i < n,
    ;
}

/// Joining the segments of any split gives back the audio: every whole frame, in order,
/// and every segment has the input's sample rate and channel count (so they can be
/// joined again).
pub proof fn law_split_then_concat<S>(input: AudioData<S>, mode: SplitMode, segs: Seq<AudioData<S>>)
    requires
        input.channels > 0,
        input.samples@.len() <= usize::MAX,
        split_outcome(input, mode, segs),
    ensures
        joined_samples(segs) == input.samples@.subrange(0, input.frames() * input.channels),
        input.samples@.len() % (input.channels as nat) == 0 ==> joined_samples(segs) == input.samples@,
        forall|i: int| 0 <= i < segs.len() ==> !mismatched(segs, i),
{
    let total = input.frames();
    assert(total <= input.samples@.len()) by (nonlinear_arith)
        requires
            total == input.samples@.len() / (input.channels as nat),
            input.channels > 0,
    ;
    match mode {
        SplitMode::At(times) => {
            let pts = choose|pts: Seq<u64>|
                pts.len() > 0 && at_points(pts, times@, input.sample_rate, total) && segments_match(
                    input,
                    pts,
                    segs,
                );
            assert forall|i: int| 0 <= i < pts.len() implies 0 < #[trigger] pts[i] < total by {
                assert(pts.contains(pts[i]));
            }
            lemma_segments_join(input, pts, segs);
        },
        SplitMode::Count(n) => {
            let chunk = total / (n as nat);
            assert(chunk * ((n - 1) as nat) < total) by (nonlinear_arith)
                requires
                    chunk == total / (n as nat),
                    chunk > 0,
                    n >= 2,
            ;
            lemma_frames_fit(input.samples@.len(), input.channels, total);
            lemma_multiples_increasing(chunk, (n - 1) as nat, total);
            lemma_segments_join(input, multiples(chunk, (n - 1) as nat), segs);
        },
        SplitMode::Duration(d) => {
            let chunk = spec_to_frame(d, input.sample_rate) as nat;
            let count = ((total - 1) as nat / chunk) as nat;
            assert(chunk * count <= total - 1) by (nonlinear_arith)
                requires
                    count == (total - 1) as nat / chunk,
                    chunk > 0,
                    total >= 1,
            ;
            lemma_frames_fit(input.samples@.len(), input.channels, total);
            lemma_multiples_increasing(chunk, count, total);
            lemma_segments_join(input, multiples(chunk, count), segs);
        },
    }
    let ch = input.channels as nat;
    if input.samples@.len() % ch == 0 {
        assert(total * ch == input.samples@.len()) by (nonlinear_arith)
            requires
                total == input.samples@.len() / ch,
                input.samples@.len() % ch == 0,
                ch > 0,
        ;
        assert(input.samples@.subrange(0, (total * ch) as int) =~= input.samples@);
    }
}

/// `Count(n)` cuts into `n` parts; all but the last hold `total / n` frames and the last
/// holds the rest, at least as many.
pub proof fn law_count_parts(n: u32, rate: u32, total: nat, pts: Seq<u64>)
    requires
        total <= u64::MAX,
        spec_split_points(SplitMode::Count(n), rate, total) == Some(pts),
    ensures
        pts.len() + 1 == n,
        forall|j: int|
            0 <= j < n - 1 ==> #[trigger] bounds(pts, total)[j + 1] - bounds(pts, total)[j] == total
                / (n as nat),
        total / (n as nat) <= bounds(pts, total)[n as int] - bounds(pts, total)[n - 1],
{
    let chunk = total / (n as nat);
    let b = bounds(pts, total);
    assert(chunk * ((n - 1) as nat) < total) by (nonlinear_arith)
        requires
            chunk == total / (n as nat),
            chunk > 0,
            n >= 2,
    ;
    assert forall|j: int| 0 <= j < n - 1 implies #[trigger] b[j + 1] - b[j] == chunk by {
        lemma_bounds(pts, total, j);
        lemma_bounds(pts, total, j + 1);
        lemma_multiple_value(chunk, (n - 1) as nat, j);
        assert(pts == multiples(chunk, (n - 1) as nat));
        assert(b[j + 1] == chunk * (j + 1));
        if j > 0 {
            lemma_multiple_value(chunk, (n - 1) as nat, j - 1);
            assert(b[j] == chunk * j);
            assert(chunk * (j + 1) == chunk * j + chunk) by (nonlinear_arith);
        } else {
            assert(b[j] == 0);
            assert(chunk * (j + 1) == chunk) by (nonlinear_arith)
                requires
                    j == 0,
            ;
        }
    }
    if n >= 3 {
        lemma_multiple_value(chunk, (n - 1) as nat, n - 2);
    }
    lemma_bounds(pts, total, (n - 1) as int);
    lemma_bounds(pts, total, n as int);
    assert(chunk * n <= total) by (nonlinear_arith)
        requires
            chunk == total / (n as nat),
            n >= 2,
    ;
    assert(chunk * ((n - 1) as nat) + chunk == chunk * n) by (nonlinear_arith)
        requires
            n >= 1,
    ;
    assert(chunk * ((n - 1) as nat) == chunk * (n - 2 + 1));
}

/// `Duration(d)` cuts every `d` (as frames, `chunk`): every part but the last holds
/// `chunk` frames and the last holds between one and `chunk` frames.
pub proof fn law_duration_parts(d: TimeSpec, rate: u32, total: nat, pts: Seq<u64>)
    requires
        total <= u64::MAX,
        spec_split_points(SplitMode::Duration(d), rate, total) == Some(pts),
    ensures
        ({
            let chunk = spec_to_frame(d, rate) as int;
            let b = bounds(pts, total);
            &&& forall|j: int| 0 <= j < pts.len() ==> #[trigger] b[j + 1] - b[j] == chunk
            &&& 1 <= b[pts.len() + 1int] - b[pts.len() as int] <= chunk
        }),
{
    let chunk = spec_to_frame(d, rate) as nat;
    let count = ((total - 1) as nat / chunk) as nat;
    let b = bounds(pts, total);
    assert(chunk * count <= total - 1) by (nonlinear_arith)
        requires
            count == (total - 1) as nat / chunk,
            chunk > 0,
            total >= 1,
    ;
    assert forall|j: int| 0 <= j < pts.len() implies #[trigger] b[j + 1] - b[j] == chunk by {
        lemma_bounds(pts, total, j);
        lemma_bounds(pts, total, j + 1);
        assert(pts == multiples(chunk, count));
        lemma_multiple_value(chunk, count, j);
        assert(b[j + 1] == chunk * (j + 1));
        if j > 0 {
            lemma_multiple_value(chunk, count, j - 1);
            assert(b[j] == chunk * j);
            assert(chunk * (j + 1) == chunk * j + chunk) by (nonlinear_arith);
        } else {
            assert(b[j] == 0);
            assert(chunk * (j + 1) == chunk) by (nonlinear_arith)
                requires
                    j == 0,
            ;
        }
    }
    if count > 0 {
        lemma_multiple_value(chunk, count, count - 1);
    }
    lemma_bounds(pts, total, count as int);
    lemma_bounds(pts, total, count + 1int);
    assert(chunk * count <= total - 1 && total - 1 < chunk * count + chunk) by (nonlinear_arith)
        requires
            count == (total - 1) as nat / chunk,
            chunk > 0,
            total >= 1,
    ;
}

/// A segment between two boundaries inside the audio holds as many frames as lie
/// between them.
proof fn lemma_segment_frames<S>(input: AudioData<S>, pts: Seq<u64>, segs: Seq<AudioData<S>>, j: int)
    requires
        input.channels > 0,
        segments_match(input, pts, segs),
        0 <= j < segs.len(),
        0 <= bounds(pts, input.frames())[j] <= bounds(pts, input.frames())[j + 1] <= input.frames(),
    ensures
        segs[j].frames() == bounds(pts, input.frames())[j + 1] - bounds(pts, input.frames())[j],
{
    let b = bounds(pts, input.frames());
    let ch = input.channels as int;
    let len = input.samples@.len() as int;
    let total = input.frames() as int;
    let lo = b[j];
    let hi = b[j + 1];
    assert(total * ch <= len) by (nonlinear_arith)
        requires
            total == len / ch,
            ch > 0,
            len >= 0,
    ;
    assert(0 <= lo * ch <= hi * ch <= total * ch) by (nonlinear_arith)
        requires
            0 <= lo <= hi <= total,
            ch > 0,
    ;
    assert(segs[j].samples@.len() == hi * ch - lo * ch);
    assert(hi * ch - lo * ch == (hi - lo) * ch) by (nonlinear_arith);
    assert(((hi - lo) * ch) / ch == hi - lo) by (nonlinear_arith)
        requires
            ch > 0,
            hi - lo >= 0,
    ;
}

/// Segments between strictly increasing cut points inside the audio each hold at least
/// one frame.
proof fn lemma_parts_nonempty<S>(input: AudioData<S>, pts: Seq<u64>, segs: Seq<AudioData<S>>)
    requires
        input.channels > 0,
        segments_match(input, pts, segs),
        pts.len() > 0,
        strictly_increasing(pts),
        forall|i: int| 0 <= i < pts.len() ==> 0 < #[trigger] pts[i] < input.frames(),
    ensures
        forall|j: int| 0 <= j < segs.len() ==> (#[trigger] segs[j]).frames() >= 1,
{
    let total = input.frames();
    let b = bounds(pts, total);
    assert forall|j: int| 0 <= j < segs.len() implies (#[trigger] segs[j]).frames() >= 1 by {
        lemma_bounds(pts, total, j);
        lemma_bounds(pts, total, j + 1);
        if 1 <= j && j + 1 <= pts.len() {
            assert(pts[j - 1] < pts[j]);
        }
        if j >= 1 {
            assert(0 < pts[j - 1] < total);
        }
        if j + 1 <= pts.len() {
            assert(0 < pts[j] < total);
        }
        assert(0 <= b[j] < b[j + 1] <= total);
        lemma_segment_frames(input, pts, segs, j);
    }
}

/// Every split that succeeds gives at least two parts, each of at least one frame and
/// with the input's sample rate and channel count.
pub proof fn law_split_parts<S>(input: AudioData<S>, mode: SplitMode, segs: Seq<AudioData<S>>)
    requires
        input.channels > 0,
        input.samples@.len() <= usize::MAX,
        split_outcome(input, mode, segs),
    ensures
        segs.len() >= 2,
        forall|j: int|
            0 <= j < segs.len() ==> (#[trigger] segs[j]).sample_rate == input.sample_rate && segs[j].channels
                == input.channels && segs[j].frames() >= 1,
{
    let total = input.frames();
    let pts = match mode {
        SplitMode::At(times) => {
            let pts = choose|pts: Seq<u64>|
                pts.len() > 0 && at_points(pts, times@, input.sample_rate, total) && segments_match(
                    input,
                    pts,
                    segs,
                );
            assert forall|i: int| 0 <= i < pts.len() implies 0 < #[trigger] pts[i] < total by {
                assert(pts.contains(pts[i]));
            }
            pts
        },
        SplitMode::Count(n) => {
            let chunk = total / (n as nat);
            assert(chunk * ((n - 1) as nat) < total) by (nonlinear_arith)
                requires
                    chunk == total / (n as nat),
                    chunk > 0,
                    n >= 2,
            ;
            assert(total <= u64::MAX) by {
                lemma_segment_total_bound(input);
            }
            lemma_multiples_increasing(chunk, (n - 1) as nat, total);
            multiples(chunk, (n - 1) as nat)
        },
        SplitMode::Duration(d) => {
            let chunk = spec_to_frame(d, input.sample_rate) as nat;
            let count = ((total - 1) as nat / chunk) as nat;
            assert(chunk * count <= total - 1 && count >= 1) by (nonlinear_arith)
                requires
                    count == (total - 1) as nat / chunk,
                    chunk > 0,
                    chunk < total,
            ;
            assert(total <= u64::MAX) by {
                lemma_segment_total_bound(input);
            }
            lemma_multiples_increasing(chunk, count, total);
            multiples(chunk, count)
        },
    };
    lemma_parts_nonempty(input, pts, segs);
}

/// The frame count of audio fits in a `u64`.
proof fn lemma_segment_total_bound<S>(input: AudioData<S>)
    requires
        input.channels > 0,
        input.samples@.len() <= usize::MAX,
    ensures
        input.frames() <= u64::MAX,
{
    lemma_frames_fit(input.samples@.len(), input.channels, input.frames());
    assert(input.frames() <= input.frames() * (input.channels as nat)) by (nonlinear_arith)
        requires
            input.channels > 0,
    ;
}

/// `Count(n)` is refused exactly when `n < 2` or the audio has fewer than `n` frames.
pub proof fn law_count_refused_when_short(n: u32, rate: u32, total: nat)
    ensures
        spec_split_points(SplitMode::Count(n), rate, total) is None <==> (n < 2 || total < n),
{
    if n >= 2 {
        assert(total / (n as nat) == 0 <==> total < n) by (nonlinear_arith)
            requires
                n >= 2,
        ;
    }
}

/// A `Count(n)` split gives `n` parts; all but the last hold `total / n` frames and the
/// last holds the rest, `total - (n - 1) * (total / n)`.
pub proof fn law_count_split<S>(input: AudioData<S>, n: u32, segs: Seq<AudioData<S>>)
    requires
        input.channels > 0,
        input.samples@.len() <= usize::MAX,
        split_outcome(input, SplitMode::Count(n), segs),
    ensures
        segs.len() == n,
        forall|j: int| 0 <= j < n - 1 ==> (#[trigger] segs[j]).frames() == input.frames() / (n as nat),
        segs[n - 1].frames() == input.frames() - (n - 1) * (input.frames() / (n as nat)),
{
    let total = input.frames();
    let chunk = total / (n as nat);
    let pts = multiples(chunk, (n - 1) as nat);
    let b = bounds(pts, total);
    lemma_segment_total_bound(input);
    law_count_parts(n, input.sample_rate, total, pts);
    assert(chunk * ((n - 1) as nat) < total) by (nonlinear_arith)
        requires
            chunk == total / (n as nat),
            chunk > 0,
            n >= 2,
    ;
    lemma_multiples_increasing(chunk, (n - 1) as nat, total);
    lemma_parts_nonempty(input, pts, segs);
    assert forall|j: int| 0 <= j < n - 1 implies (#[trigger] segs[j]).frames() == chunk by {
        lemma_bounds(pts, total, j);
        lemma_bounds(pts, total, j + 1);
        assert(b[j + 1] - b[j] == chunk);
        if j >= 1 {
            assert(0 < pts[j - 1] < total);
        }
        assert(0 < pts[j] < total);
        lemma_segment_frames(input, pts, segs, j);
    }
    lemma_bounds(pts, total, n - 1);
    lemma_bounds(pts, total, n as int);
    lemma_multiple_value(chunk, (n - 1) as nat, n - 2);
    assert(b[n - 1] == chunk * (n - 1));
    assert(0 < pts[n - 2] < total);
    lemma_segment_frames(input, pts, segs, n - 1);
}

/// Two strictly increasing lists with the same elements are equal.
proof fn lemma_sorted_unique(a: Seq<u64>, b: Seq<u64>)
    requires
        strictly_increasing(a),
        strictly_increasing(b),
        forall|x: u64| a.contains(x) <==> b.contains(x),
    ensures
        a == b,
    decreases a.len(),
{
    if a.len() == 0 {
        if b.len() > 0 {
            assert(b.contains(b[0]));
        }
        assert(a =~= b);
    } else {
        assert(a.contains(a[0]));
        assert(b.len() > 0);
        assert(b.contains(b[0]));
        let i = choose|i: int| 0 <= i < b.len() && b[i] == a[0];
        let k = choose|k: int| 0 <= k < a.len() && a[k] == b[0];
        if i > 0 {
            assert(b[0] < b[i]);
        }
        if k > 0 {
            assert(a[0] < a[k]);
        }
        assert(a[0] == b[0]);
        let a1 = a.drop_first();
        let b1 = b.drop_first();
        assert forall|x: u64| a1.contains(x) <==> b1.contains(x) by {
            if a1.contains(x) {
                let p = choose|p: int| 0 <= p < a1.len() && a1[p] == x;
                assert(a[p + 1] == x && a[0] < a[p + 1]);
                assert(b.contains(x));
                let q = choose|q: int| 0 <= q < b.len() && b[q] == x;
                assert(q != 0);
                assert(b1[q - 1] == x);
            }
            if b1.contains(x) {
                let p = choose|p: int| 0 <= p < b1.len() && b1[p] == x;
                assert(b[p + 1] == x && b[0] < b[p + 1]);
                assert(a.contains(x));
                let q = choose|q: int| 0 <= q < a.len() && a[q] == x;
                assert(q != 0);
                assert(a1[q - 1] == x);
            }
        }
        lemma_sorted_unique(a1, b1);
        assert(a =~= seq![a[0]] + a1);
        assert(b =~= seq![b[0]] + b1);
    }
}

/// A split at given times depends only on which frames strictly inside the audio those
/// times fall on: neither their order nor repeats matter, and two lists of times that
/// name the same frames give the same parts.
pub proof fn law_at_split_depends_on_frames_only<S>(
    input: AudioData<S>,
    t1: Seq<TimeSpec>,
    t2: Seq<TimeSpec>,
    pts1: Seq<u64>,
    pts2: Seq<u64>,
    segs1: Seq<AudioData<S>>,
    segs2: Seq<AudioData<S>>,
)
    requires
        at_points(pts1, t1, input.sample_rate, input.frames()),
        at_points(pts2, t2, input.sample_rate, input.frames()),
        segments_match(input, pts1, segs1),
        segments_match(input, pts2, segs2),
        forall|x: u64|
            is_at_point(t1, input.sample_rate, input.frames(), x) <==> is_at_point(
                t2,
                input.sample_rate,
                input.frames(),
                x,
            ),
    ensures
        pts1 == pts2,
        segs1.len() == segs2.len(),
        forall|j: int|
            0 <= j < segs1.len() ==> (#[trigger] segs1[j]).samples@ == segs2[j].samples@ && segs1[j].sample_rate
                == segs2[j].sample_rate && segs1[j].channels == segs2[j].channels,
{
    lemma_sorted_unique(pts1, pts2);
}

} // verus!
