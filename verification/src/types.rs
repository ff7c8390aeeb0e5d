//! Audio data and the audio formats that the library knows.
use vstd::prelude::*;
use crate::schema::{push_string, string_views};
use crate::text::{char_eq_ignore_ascii_case, range_eq_ignore_ascii_case, seq_eq_ignore_ascii_case, str_chars};

verus! {

/// Interleaved audio data. The sample type is left open: the command line uses `f32`
/// samples, and every operation here that only moves samples works for any `Copy` type.
#[derive(Debug, Clone)]
pub struct AudioData<S> {
    /// Interleaved samples (channel-interleaved).
    pub samples: Vec<S>,
    /// Sample rate in Hz.
    pub sample_rate: u32,
    /// Number of channels.
    pub channels: u16,
}

/// Number of whole frames in `len` interleaved samples of `channels` channels.
pub open spec fn frames_in(len: nat, channels: u16) -> nat {
    if channels == 0 {
        0
    } else {
        len / (channels as nat)
    }
}

impl<S> AudioData<S> {
    /// Number of frames (one frame = one sample per channel); a trailing partial frame
    /// does not count.
    pub open spec fn frames(&self) -> nat {
        frames_in(self.samples@.len(), self.channels)
    }

    /// Number of frames (one frame = one sample per channel).
    pub fn num_frames(&self) -> (n: u64)
        ensures
            n == self.frames(),
    {
        if self.channels == 0 {
            return 0;
        }
        self.samples.len() as u64 / self.channels as u64
    }
}

pub proof fn lemma_frames_fit(len: nat, ch: u16, f: nat)
    requires
        ch > 0,
        f <= frames_in(len, ch),
    ensures
        f * ch <= len,
{
    assert(f * (ch as nat) <= (len / (ch as nat)) * (ch as nat)) by (nonlinear_arith)
        requires
            f <= len / (ch as nat),
            ch > 0,
    ;
    assert((len / (ch as nat)) * (ch as nat) <= len) by (nonlinear_arith)
        requires
            ch > 0,
    ;
}

pub proof fn lemma_frame_index(f: int, c: int, ch: int, frames: int)
    requires
        0 <= f < frames,
        0 <= c < ch,
    ensures
        f * ch + c < frames * ch,
        (f + 1) * ch <= frames * ch,
        f * ch + c >= 0,
{
    assert(f * ch + c < frames * ch) by (nonlinear_arith)
        requires
            0 <= f < frames,
            0 <= c < ch,
    ;
    assert((f + 1) * ch <= frames * ch) by (nonlinear_arith)
        requires
            0 <= f < frames,
            0 <= c < ch,
    ;
    assert(f * ch >= 0) by (nonlinear_arith)
        requires
            0 <= f,
            0 <= c < ch,
    ;
}

/// `a` clamped to at most `b`.
pub open spec fn min_u64(a: u64, b: u64) -> u64 {
    if a <= b {
        a
    } else {
        b
    }
}

/// The samples of channel `c` of the whole frames of `samples`, `ch` channels each.
pub open spec fn channel_samples<S>(samples: Seq<S>, ch: nat, c: int) -> Seq<S> {
    Seq::new(samples.len() / ch, |f: int| samples[f * ch + c])
}

/// The whole frames of `samples` split into one sequence per channel.
pub open spec fn spec_deinterleave<S>(samples: Seq<S>, ch: nat) -> Seq<Seq<S>> {
    Seq::new(ch, |c: int| channel_samples(samples, ch, c))
}

/// Per-channel sequences, all as long as the first, put together frame by frame.
pub open spec fn spec_interleave<S>(chans: Seq<Seq<S>>) -> Seq<S> {
    let n = chans.len();
    Seq::new(chans[0].len() * n, |i: int| chans[i % (n as int)][i / (n as int)])
}

/// The views of a vector of vectors.
pub open spec fn vec_views<S>(v: Seq<Vec<S>>) -> Seq<Seq<S>> {
    v.map_values(|x: Vec<S>| x@)
}

impl<S: Copy> AudioData<S> {
    /// The samples of frames `[min(start, total), min(end, total))`, in the same format.
    pub open spec fn spec_slice(&self, start_frame: u64, end_frame: u64) -> Seq<S> {
        let total = self.frames() as u64;
        let s = min_u64(start_frame, total) as int;
        let e = min_u64(end_frame, total) as int;
        let ch = self.channels as int;
        self.samples@.subrange(s * ch, e * ch)
    }

    /// Extract a slice of frames `[start_frame, end_frame)`, both clamped to the length.
    pub fn slice_frames(&self, start_frame: u64, end_frame: u64) -> (r: AudioData<S>)
        requires
            min_u64(start_frame, self.frames() as u64) <= min_u64(end_frame, self.frames() as u64),
        ensures
            r.samples@ == self.spec_slice(start_frame, end_frame),
            r.sample_rate == self.sample_rate,
            r.channels == self.channels,
    {
        let ch = self.channels as u64;
        let total = self.num_frames();
        let start = if start_frame < total {
            start_frame
        } else {
            total
        };
        let end = if end_frame < total {
            end_frame
        } else {
            total
        };
        let mut out: Vec<S> = Vec::new();
        if ch == 0 {
            proof {
                assert(self.spec_slice(start_frame, end_frame) =~= Seq::<S>::empty());
            }
            return AudioData { samples: out, sample_rate: self.sample_rate, channels: self.channels };
        }
        proof {
            lemma_frames_fit(self.samples@.len(), self.channels, end as nat);
            lemma_frames_fit(self.samples@.len(), self.channels, start as nat);
            assert(start * ch <= end * ch) by (nonlinear_arith)
                requires
                    start <= end,
            ;
        }
        assert(start * ch <= self.samples.len());
        assert(end * ch <= self.samples.len());
        let start_idx = (start * ch) as usize;
        let end_idx = (end * ch) as usize;
        let mut i = start_idx;
        while i < end_idx
            invariant
                start_idx <= i <= end_idx <= self.samples.len(),
                out@ == self.samples@.subrange(start_idx as int, i as int),
            decreases end_idx - i,
        {
            out.push(self.samples[i]);
            i += 1;
        }
        AudioData { samples: out, sample_rate: self.sample_rate, channels: self.channels }
    }

    /// De-interleave samples into per-channel vectors (whole frames only).
    pub fn deinterleave(&self) -> (r: Vec<Vec<S>>)
        ensures
            r@.len() == self.channels,
            forall|c: int|
                0 <= c < self.channels ==> (#[trigger] r@[c])@.len() == self.frames(),
            forall|c: int, f: int|
                #![trigger r@[c]@[f]]
                0 <= c < self.channels && 0 <= f < self.frames() ==> r@[c]@[f]
                    == self.samples@[f * self.channels + c],
            self.channels > 0 ==> vec_views(r@) == spec_deinterleave(self.samples@, self.channels as nat),
    {
        let ch = self.channels as usize;
        let total_len = self.samples.len();
        let nf = self.num_frames();
        proof {
            if ch > 0 {
                lemma_frames_fit(self.samples@.len(), self.channels, nf as nat);
                assert(nf * ch <= self.samples@.len());
                assert(nf <= nf * ch) by (nonlinear_arith)
                    requires
                        ch >= 1,
                ;
                assert(nf <= usize::MAX);
            }
        }
        let num_frames = nf as usize;
        let mut out: Vec<Vec<S>> = Vec::new();
        let mut c: usize = 0;
        while c < ch
            invariant
                ch == self.channels,
                num_frames == self.frames(),
                ch > 0 ==> num_frames * ch <= self.samples@.len(),
                total_len == self.samples@.len(),
                c <= ch,
                out@.len() == c,
                forall|c2: int| 0 <= c2 < c ==> (#[trigger] out@[c2])@.len() == num_frames,
                forall|c2: int, f: int|
                    #![trigger out@[c2]@[f]]
                    0 <= c2 < c && 0 <= f < num_frames ==> out@[c2]@[f]
                        == self.samples@[f * ch + c2],
            decreases ch - c,
        {
            proof {
                lemma_frames_fit(self.samples@.len(), self.channels, num_frames as nat);
            }
            let mut chan: Vec<S> = Vec::new();
            let mut f: usize = 0;
            while f < num_frames
                invariant
                    ch == self.channels,
                    num_frames == self.frames(),
                    num_frames * ch <= self.samples@.len(),
                    total_len == self.samples@.len(),
                    c < ch,
                    f <= num_frames,
                    chan@.len() == f,
                    forall|f2: int| 0 <= f2 < f ==> chan@[f2] == self.samples@[f2 * ch + c],
                decreases num_frames - f,
            {
                proof {
                    lemma_frame_index(f as int, c as int, ch as int, num_frames as int);
                }
                chan.push(self.samples[f * ch + c]);
                f += 1;
            }
            out.push(chan);
            c += 1;
        }
        proof {
            if ch > 0 {
                let d = spec_deinterleave(self.samples@, self.channels as nat);
                assert forall|c2: int| 0 <= c2 < ch implies #[trigger] vec_views(out@)[c2] == d[c2] by {
                    assert(vec_views(out@)[c2] =~= d[c2]);
                }
                assert(vec_views(out@) =~= d);
            }
        }
        out
    }
}

/// Interleave per-channel sample vectors (all as long as the first) into frames.
pub fn interleave<S: Copy>(channels: &Vec<Vec<S>>) -> (r: Vec<S>)
    requires
        channels@.len() > 0,
        forall|c: int|
            0 <= c < channels@.len() ==> (#[trigger] channels@[c])@.len() == channels@[0]@.len(),
        channels@.len() * channels@[0]@.len() <= usize::MAX,
    ensures
        r@.len() == channels@[0]@.len() * channels@.len(),
        forall|f: int, c: int|
            #![trigger channels@[c]@[f]]
            0 <= f < channels@[0]@.len() && 0 <= c < channels@.len() ==> r@[f * channels@.len() + c]
                == channels@[c]@[f],
        r@ == spec_interleave(vec_views(channels@)),
{
    let ch = channels.len();
    let frames = channels[0].len();
    let mut out: Vec<S> = Vec::new();
    let mut f: usize = 0;
    proof {
        assert(frames * ch == ch * frames) by (nonlinear_arith);
    }
    while f < frames
        invariant
            ch == channels@.len(),
            ch > 0,
            frames == channels@[0]@.len(),
            frames * ch <= usize::MAX,
            forall|c: int| 0 <= c < ch ==> (#[trigger] channels@[c])@.len() == frames,
            f <= frames,
            out@.len() == f * ch,
            forall|f2: int, c: int|
                #![trigger channels@[c]@[f2]]
                0 <= f2 < f && 0 <= c < ch ==> out@[f2 * ch + c] == channels@[c]@[f2],
        decreases frames - f,
    {
        let mut c: usize = 0;
        proof {
            lemma_frame_index(f as int, 0, ch as int, frames as int);
        }
        while c < ch
            invariant
                ch == channels@.len(),
                frames == channels@[0]@.len(),
                frames * ch <= usize::MAX,
                (f + 1) * ch <= frames * ch,
                forall|c3: int| 0 <= c3 < ch ==> (#[trigger] channels@[c3])@.len() == frames,
                f < frames,
                c <= ch,
                out@.len() == f * ch + c,
                forall|f2: int, c2: int|
                    #![trigger channels@[c2]@[f2]]
                    0 <= f2 < f && 0 <= c2 < ch ==> out@[f2 * ch + c2] == channels@[c2]@[f2],
                forall|c2: int| 0 <= c2 < c ==> out@[f * ch + c2] == #[trigger] channels@[c2]@[f as int],
            decreases ch - c,
        {
            proof {
                assert((f + 1) * ch == f * ch + ch) by (nonlinear_arith);
            }
            let ghost prev = out@;
            out.push(channels[c][f]);
            proof {
                assert forall|f2: int, c2: int|
                    #![trigger channels@[c2]@[f2]]
                    0 <= f2 < f && 0 <= c2 < ch implies out@[f2 * ch + c2] == channels@[c2]@[f2] by {
                    lemma_frame_index(f2, c2, ch as int, f as int);
                    assert(out@[f2 * ch + c2] == prev[f2 * ch + c2]);
                }
            }
            c += 1;
        }
        proof {
            assert((f + 1) * ch == f * ch + ch) by (nonlinear_arith);
            assert forall|f2: int, c2: int|
                #![trigger channels@[c2]@[f2]]
                0 <= f2 < f + 1 && 0 <= c2 < ch implies out@[f2 * ch + c2] == channels@[c2]@[f2] by {
                if f2 < f {
                } else {
                    assert(f2 == f);
                }
            }
        }
        f += 1;
    }
    proof {
        let v = vec_views(channels@);
        let n = ch as int;
        assert forall|i: int| 0 <= i < out@.len() implies out@[i] == #[trigger] spec_interleave(v)[i] by {
            let f2 = i / n;
            let c2 = i % n;
            vstd::arithmetic::div_mod::lemma_fundamental_div_mod(i, n);
            assert(0 <= c2 < n);
            assert(0 <= f2 < frames) by (nonlinear_arith)
                requires
                    i == n * f2 + c2,
                    0 <= c2 < n,
                    0 <= i < frames * n,
            ;
            assert(f2 * n + c2 == i) by (nonlinear_arith)
                requires
                    i == n * f2 + c2,
            ;
            assert(channels@[c2]@[f2] == out@[f2 * n + c2]);
        }
        assert(out@ =~= spec_interleave(v));
    }
    out
}

/// Splitting whole frames into channels and putting them together again gives back the
/// samples of those frames: everything but a trailing partial frame.
pub proof fn law_interleave_after_deinterleave<S>(samples: Seq<S>, ch: nat)
    requires
        ch > 0,
    ensures
        spec_interleave(spec_deinterleave(samples, ch)) == samples.take(((samples.len() / ch) * ch) as int),
{
    let d = spec_deinterleave(samples, ch);
    let frames = samples.len() / ch;
    let n = ch as int;
    assert(d[0].len() == frames);
    assert(frames * ch <= samples.len()) by (nonlinear_arith)
        requires
            frames == samples.len() / ch,
            ch > 0,
    ;
    let back = spec_interleave(d);
    let want = samples.take((frames * ch) as int);
    assert forall|i: int| 0 <= i < back.len() implies back[i] == want[i] by {
        let f = i / n;
        let c = i % n;
        vstd::arithmetic::div_mod::lemma_fundamental_div_mod(i, n);
        assert(0 <= f < frames) by (nonlinear_arith)
            requires
                i == n * f + c,
                0 <= c < n,
                0 <= i < frames * n,
        ;
        assert(f * n + c == i) by (nonlinear_arith)
            requires
                i == n * f + c,
        ;
    }
    assert(back =~= want);
}

/// Putting per-channel sequences of one length together and splitting them again gives
/// back the same channels.
pub proof fn law_deinterleave_after_interleave<S>(chans: Seq<Seq<S>>)
    requires
        chans.len() > 0,
        forall|c: int| 0 <= c < chans.len() ==> (#[trigger] chans[c]).len() == chans[0].len(),
    ensures
        spec_deinterleave(spec_interleave(chans), chans.len()) == chans,
{
    let n = chans.len() as int;
    let frames = chans[0].len() as int;
    let s = spec_interleave(chans);
    assert(s.len() == frames * n);
    assert(s.len() / (n as nat) == frames) by (nonlinear_arith)
        requires
            s.len() == frames * n,
            n > 0,
            frames >= 0,
    ;
    let d = spec_deinterleave(s, chans.len());
    assert forall|c: int| 0 <= c < n implies #[trigger] d[c] == chans[c] by {
        assert forall|f: int| 0 <= f < frames implies #[trigger] d[c][f] == chans[c][f] by {
            lemma_frame_index(f, c, n, frames);
            let i = f * n + c;
            assert(f * n == n * f) by (nonlinear_arith);
            vstd::arithmetic::div_mod::lemma_div_multiples_vanish_fancy(f, c, n);
            vstd::arithmetic::div_mod::lemma_mod_multiples_vanish(f, c, n);
            vstd::arithmetic::div_mod::lemma_small_mod(c as nat, n as nat);
        }
        assert(d[c] =~= chans[c]);
    }
    assert(d =~= chans);
}

/// Supported audio formats.
#[derive(Debug, Clone, Copy, PartialEq, Eq, Structural)]
pub enum AudioFormat {
    Wav,
    Flac,
    Mp3,
    Ogg,
    Aac,
}

/// The format an extension names: `wav`, `flac`, `mp3`, `ogg`/`oga`, `aac`/`m4a`, in any
/// letter case. (Lower-casing with `str::to_lowercase` turns no other text into one of
/// these words, so ASCII case folding decides the same.)
pub open spec fn spec_format_of_extension(ext: Seq<char>) -> Option<AudioFormat> {
    if seq_eq_ignore_ascii_case(ext, seq!['w', 'a', 'v']) {
        Some(AudioFormat::Wav)
    } else if seq_eq_ignore_ascii_case(ext, seq!['f', 'l', 'a', 'c']) {
        Some(AudioFormat::Flac)
    } else if seq_eq_ignore_ascii_case(ext, seq!['m', 'p', '3']) {
        Some(AudioFormat::Mp3)
    } else if seq_eq_ignore_ascii_case(ext, seq!['o', 'g', 'g']) || seq_eq_ignore_ascii_case(
        ext,
        seq!['o', 'g', 'a'],
    ) {
        Some(AudioFormat::Ogg)
    } else if seq_eq_ignore_ascii_case(ext, seq!['a', 'a', 'c']) || seq_eq_ignore_ascii_case(
        ext,
        seq!['m', '4', 'a'],
    ) {
        Some(AudioFormat::Aac)
    } else {
        None
    }
}

/// The extension of the file name in `path`, as `std::path::Path::extension` finds it
/// (the part of the last path component after its last `.`, when that component has a
/// `.` other than a leading one); `None` when there is none or it is not UTF-8.
pub uninterp spec fn path_extension(path: Seq<char>) -> Option<Seq<char>>;

/// Calls `std::path::Path::extension` on `path`, giving the extension as text. The
/// contract claims only that the result is the extension `path_extension` names.
#[verifier::external_body]
pub(crate) fn std_path_extension(path: &str) -> (r: Option<String>)
    ensures
        match r {
            Some(e) => path_extension(path@) == Some(e@),
            None => path_extension(path@) is None,
        },
{
    std::path::Path::new(path).extension().and_then(|e| e.to_str()).map(|e| e.to_string())
}

impl AudioFormat {
    pub open spec fn spec_extension(self) -> Seq<char> {
        match self {
            AudioFormat::Wav => seq!['w', 'a', 'v'],
            AudioFormat::Flac => seq!['f', 'l', 'a', 'c'],
            AudioFormat::Mp3 => seq!['m', 'p', '3'],
            AudioFormat::Ogg => seq!['o', 'g', 'g'],
            AudioFormat::Aac => seq!['a', 'a', 'c'],
        }
    }

    pub open spec fn spec_name(self) -> Seq<char> {
        match self {
            AudioFormat::Wav => seq!['W', 'A', 'V'],
            AudioFormat::Flac => seq!['F', 'L', 'A', 'C'],
            AudioFormat::Mp3 => seq!['M', 'P', '3'],
            AudioFormat::Ogg => seq!['O', 'G', 'G'],
            AudioFormat::Aac => seq!['A', 'A', 'C'],
        }
    }

    /// Encoders built into this library: WAV, FLAC and MP3 (OGG encoding is not built).
    pub open spec fn spec_can_encode(self) -> bool {
        match self {
            AudioFormat::Wav | AudioFormat::Flac | AudioFormat::Mp3 => true,
            _ => false,
        }
    }

    /// Detect format from file extension.
    pub fn from_extension(ext: &str) -> (r: Option<AudioFormat>)
        ensures
            r == spec_format_of_extension(ext@),
    {
        let c = str_chars(ext);
        let n = c.len();
        proof {
            reveal_strlit("wav");
            reveal_strlit("flac");
            reveal_strlit("mp3");
            reveal_strlit("ogg");
            reveal_strlit("oga");
            reveal_strlit("aac");
            reveal_strlit("m4a");
            assert(c@.subrange(0, n as int) =~= ext@);
        }
        if range_eq_ignore_ascii_case(&c, 0, n, "wav") {
            Some(AudioFormat::Wav)
        } else if range_eq_ignore_ascii_case(&c, 0, n, "flac") {
            Some(AudioFormat::Flac)
        } else if range_eq_ignore_ascii_case(&c, 0, n, "mp3") {
            Some(AudioFormat::Mp3)
        } else if range_eq_ignore_ascii_case(&c, 0, n, "ogg") || range_eq_ignore_ascii_case(
            &c,
            0,
            n,
            "oga",
        ) {
            Some(AudioFormat::Ogg)
        } else if range_eq_ignore_ascii_case(&c, 0, n, "aac") || range_eq_ignore_ascii_case(
            &c,
            0,
            n,
            "m4a",
        ) {
            Some(AudioFormat::Aac)
        } else {
            None
        }
    }

    /// Detect format from the extension of a file path.
    pub fn from_path(path: &str) -> (r: Option<AudioFormat>)
        ensures
            r == match path_extension(path@) {
                Some(e) => spec_format_of_extension(e),
                None => None,
            },
    {
        match std_path_extension(path) {
            Some(e) => AudioFormat::from_extension(e.as_str()),
            None => None,
        }
    }

    /// Whether this format can be encoded.
    pub fn can_encode(&self) -> (b: bool)
        ensures
            b == self.spec_can_encode(),
    {
        match self {
            AudioFormat::Wav | AudioFormat::Flac | AudioFormat::Mp3 => true,
            _ => false,
        }
    }

    /// Whether this format can be decoded.
    pub fn can_decode(&self) -> (b: bool)
        ensures
            b,
    {
        true
    }

    /// File extension string.
    pub fn extension(&self) -> (s: &'static str)
        ensures
            s@ == self.spec_extension(),
    {
        proof {
            reveal_strlit("wav");
            reveal_strlit("flac");
            reveal_strlit("mp3");
            reveal_strlit("ogg");
            reveal_strlit("aac");
        }
        match self {
            AudioFormat::Wav => "wav",
            AudioFormat::Flac => "flac",
            AudioFormat::Mp3 => "mp3",
            AudioFormat::Ogg => "ogg",
            AudioFormat::Aac => "aac",
        }
    }

    /// The display name: the extension in capitals.
    pub fn name(&self) -> (s: &'static str)
        ensures
            s@ == self.spec_name(),
    {
        proof {
            reveal_strlit("WAV");
            reveal_strlit("FLAC");
            reveal_strlit("MP3");
            reveal_strlit("OGG");
            reveal_strlit("AAC");
        }
        match self {
            AudioFormat::Wav => "WAV",
            AudioFormat::Flac => "FLAC",
            AudioFormat::Mp3 => "MP3",
            AudioFormat::Ogg => "OGG",
            AudioFormat::Aac => "AAC",
        }
    }

    /// All known formats.
    pub fn all() -> (v: Vec<AudioFormat>)
        ensures
            v@ == all_formats(),
    {
        let mut v: Vec<AudioFormat> = Vec::new();
        v.push(AudioFormat::Wav);
        v.push(AudioFormat::Flac);
        v.push(AudioFormat::Mp3);
        v.push(AudioFormat::Ogg);
        v.push(AudioFormat::Aac);
        v
    }
}

/// All known formats, in the order `all` lists them.
pub open spec fn all_formats() -> Seq<AudioFormat> {
    seq![AudioFormat::Wav, AudioFormat::Flac, AudioFormat::Mp3, AudioFormat::Ogg, AudioFormat::Aac]
}

/// The extensions (`ext`) or names (`!ext`) of the formats of `fs` that can be encoded,
/// in their order.
pub open spec fn encodable_texts(fs: Seq<AudioFormat>, ext: bool) -> Seq<Seq<char>>
    decreases fs.len(),
{
    if fs.len() == 0 {
        Seq::empty()
    } else {
        let rest = encodable_texts(fs.drop_last(), ext);
        let f = fs.last();
        if f.spec_can_encode() {
            rest.push(
                if ext {
                    f.spec_extension()
                } else {
                    f.spec_name()
                },
            )
        } else {
            rest
        }
    }
}

/// The extensions (`ext`) or names (`!ext`) of all formats that can be encoded.
pub fn encodable_texts_of_all(ext: bool) -> (v: Vec<String>)
    ensures
        string_views(v@) == encodable_texts(all_formats(), ext),
{
    let formats = AudioFormat::all();
    let mut out: Vec<String> = Vec::new();
    let mut i: usize = 0;
    while i < formats.len()
        invariant
            formats@ == all_formats(),
            i <= formats@.len(),
            string_views(out@) == encodable_texts(formats@.take(i as int), ext),
        decreases formats@.len() - i,
    {
        let f = formats[i];
        assert(formats@.take(i + 1).drop_last() =~= formats@.take(i as int));
        if f.can_encode() {
            let t = if ext {
                f.extension()
            } else {
                f.name()
            };
            push_string(&mut out, t);
        }
        i += 1;
    }
    assert(formats@.take(formats@.len() as int) =~= formats@);
    out
}

/// Reading back the extension of a format gives the format.
pub proof fn law_extension_round_trip(f: AudioFormat)
    ensures
        spec_format_of_extension(f.spec_extension()) == Some(f),
{
    let e = f.spec_extension();
    match f {
        AudioFormat::Wav => {},
        AudioFormat::Flac => {
            assert(!char_eq_ignore_ascii_case(e[0], 'w'));
        },
        AudioFormat::Mp3 => {
            assert(!char_eq_ignore_ascii_case(e[0], 'w'));
        },
        AudioFormat::Ogg => {
            assert(!char_eq_ignore_ascii_case(e[0], 'w'));
            assert(!char_eq_ignore_ascii_case(e[0], 'm'));
        },
        AudioFormat::Aac => {
            assert(!char_eq_ignore_ascii_case(e[0], 'w'));
            assert(!char_eq_ignore_ascii_case(e[0], 'm'));
            assert(!char_eq_ignore_ascii_case(e[0], 'o'));
        },
    }
}

/// `s` with its ASCII lower-case letters made upper-case.
pub open spec fn ascii_upper(s: Seq<char>) -> Seq<char> {
    s.map_values(|c: char| if 'a' <= c && c <= 'z' { ((c as int) - 32) as char } else { c })
}

proof fn lemma_case_match_flip(a: Seq<char>, b: Seq<char>, p: Seq<char>)
    requires
        seq_eq_ignore_ascii_case(a, b),
    ensures
        seq_eq_ignore_ascii_case(a, p) <==> seq_eq_ignore_ascii_case(b, p),
{
    if seq_eq_ignore_ascii_case(a, p) {
        assert forall|i: int| 0 <= i < b.len() implies char_eq_ignore_ascii_case(#[trigger] b[i], p[i]) by {
            assert(char_eq_ignore_ascii_case(a[i], b[i]));
            assert(char_eq_ignore_ascii_case(a[i], p[i]));
        }
    }
    if seq_eq_ignore_ascii_case(b, p) {
        assert forall|i: int| 0 <= i < a.len() implies char_eq_ignore_ascii_case(#[trigger] a[i], p[i]) by {
            assert(char_eq_ignore_ascii_case(a[i], b[i]));
            assert(char_eq_ignore_ascii_case(b[i], p[i]));
        }
    }
}

/// The extension lookup ignores ASCII case: two extensions that differ only in the
/// case of their letters name the same format, or none.
pub proof fn law_extension_ignores_case(a: Seq<char>, b: Seq<char>)
    requires
        seq_eq_ignore_ascii_case(a, b),
    ensures
        spec_format_of_extension(a) == spec_format_of_extension(b),
{
    lemma_case_match_flip(a, b, seq!['w', 'a', 'v']);
    lemma_case_match_flip(a, b, seq!['f', 'l', 'a', 'c']);
    lemma_case_match_flip(a, b, seq!['m', 'p', '3']);
    lemma_case_match_flip(a, b, seq!['o', 'g', 'g']);
    lemma_case_match_flip(a, b, seq!['o', 'g', 'a']);
    lemma_case_match_flip(a, b, seq!['a', 'a', 'c']);
    lemma_case_match_flip(a, b, seq!['m', '4', 'a']);
}

/// Every format is read back from its extension in upper case too, and the aliases
/// `oga` and `m4a` name OGG and AAC.
pub proof fn law_upper_extension_round_trip(f: AudioFormat)
    ensures
        spec_format_of_extension(ascii_upper(f.spec_extension())) == Some(f),
        spec_format_of_extension(seq!['o', 'g', 'a']) == Some(AudioFormat::Ogg),
        spec_format_of_extension(seq!['m', '4', 'a']) == Some(AudioFormat::Aac),
{
    let e = f.spec_extension();
    let u = ascii_upper(e);
    assert forall|i: int| 0 <= i < u.len() implies char_eq_ignore_ascii_case(#[trigger] u[i], e[i]) by {}
    law_extension_ignores_case(u, e);
    law_extension_round_trip(f);
    let oga = seq!['o', 'g', 'a'];
    let m4a = seq!['m', '4', 'a'];
    assert(!char_eq_ignore_ascii_case(oga[0], 'w'));
    assert(!char_eq_ignore_ascii_case(oga[0], 'f'));
    assert(!char_eq_ignore_ascii_case(oga[0], 'm'));
    assert(!char_eq_ignore_ascii_case(oga[2], 'g'));
    assert(!char_eq_ignore_ascii_case(m4a[0], 'w'));
    assert(!char_eq_ignore_ascii_case(m4a[0], 'f'));
    assert(!char_eq_ignore_ascii_case(m4a[1], 'p'));
    assert(!char_eq_ignore_ascii_case(m4a[0], 'o'));
    assert(!char_eq_ignore_ascii_case(m4a[0], 'a'));
}

} // verus!
