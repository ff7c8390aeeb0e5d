//! Text shown for audio file properties.
use vstd::prelude::*;
use crate::schema::string_views;
use crate::text::{dec_seq, fixed2_seq, join_texts, push_decimal, push_fixed2, push_fixed2_wide, round_half_even};
use crate::error::{PanaudError, Result};
use crate::types::{path_extension, spec_format_of_extension, std_path_extension, AudioFormat};

verus! {

pub open spec fn pow2n(n: nat) -> nat
    decreases n,
{
    if n == 0 {
        1
    } else {
        2 * pow2n((n - 1) as nat)
    }
}

/// How many low bits of `n` do not fit in a 53-bit significand.
pub open spec fn excess_bits(n: nat) -> nat
    decreases n,
{
    if n < 0x20_0000_0000_0000 {
        0
    } else {
        1 + excess_bits(n / 2)
    }
}

/// The integer value of `n as f64`: `n` rounded to 53 significant bits, ties to even.
pub open spec fn f64_of_int(n: nat) -> nat {
    let p = pow2n(excess_bits(n));
    round_half_even(n, p) * p
}

proof fn lemma_pow2n_positive(n: nat)
    ensures
        pow2n(n) >= 1,
    decreases n,
{
    if n > 0 {
        lemma_pow2n_positive((n - 1) as nat);
    }
}

/// The integer value of `n as f64`.
pub fn f64_value_of_u64(n: u64) -> (r: u128)
    ensures
        r == f64_of_int(n as nat),
        r <= 0x1_0000_0000_0000_1000,
{
    let mut m: u64 = n;
    let mut e: u64 = 0;
    let mut p: u128 = 1;
    while m >= 0x20_0000_0000_0000
        invariant
            excess_bits(n as nat) == e + excess_bits(m as nat),
            p == pow2n(e as nat),
            p >= 1,
            m == (n as nat) / pow2n(e as nat),
            e < p,
            p <= 0x1000,
            p * (m as nat) <= n,
        decreases m,
    {
        proof {
            vstd::arithmetic::div_mod::lemma_div_denominator(n as int, pow2n(e as nat) as int, 2);
            assert(pow2n((e + 1) as nat) == 2 * pow2n(e as nat));
            assert(p * 2 * ((m / 2) as nat) <= p * (m as nat)) by (nonlinear_arith)
                requires
                    p >= 1,
            ;
            assert(p < 0x800) by (nonlinear_arith)
                requires
                    p * (m as nat) <= n,
                    m >= 0x20_0000_0000_0000,
                    n <= u64::MAX,
                    p >= 1,
            ;
        }
        m = m / 2;
        e = e + 1;
        p = p * 2;
    }
    let x = n as u128;
    let q = x / p;
    let rem = x % p;
    let h: u128 = if 2 * rem > p {
        q + 1
    } else if 2 * rem == p && q % 2 == 1 {
        q + 1
    } else {
        q
    };
    proof {
        assert(q == m);
        assert(q * p <= x) by (nonlinear_arith)
            requires
                q == x / p,
                p >= 1,
                x >= 0,
        ;
        assert(h * p <= 0x1_0000_0000_0000_1000) by (nonlinear_arith)
            requires
                q * p <= x,
                p <= 0x1000,
                h <= q + 1,
                x <= u64::MAX,
        ;
    }
    h * p
}

/// `num / den` scaled by `2^e` and divided by `2^13` lies in `[2^52, 2^53)`: `2^e`
/// brings the quotient to a 53-bit significand (with 13 bits to spare, so that `e` is
/// never negative for the quotients used here).
pub open spec fn quotient_scale_ok(num: nat, den: nat, e: nat) -> bool {
    den * 0x2_0000_0000_0000_0000 <= num * pow2n(e) < den * 0x4_0000_0000_0000_0000
}

/// The scale of `num / den` (see `quotient_scale_ok`); there is exactly one.
pub open spec fn quotient_scale(num: nat, den: nat) -> nat {
    choose|e: nat| quotient_scale_ok(num, den, e)
}

/// `num as f64 / den as f64` printed as `{:.2}` prints it, for a `num` that is already
/// a double's integer value: the quotient rounded to 53 significant bits, ties to even
/// (the significand `m`, the double `m * 2^(13 - e)`), then written with two decimals.
pub open spec fn f64_quotient_text(num: nat, den: nat) -> Seq<char> {
    if num == 0 {
        "0.00"@
    } else {
        let e = quotient_scale(num, den);
        let m = round_half_even(num * pow2n(e), den * 8192);
        fixed2_seq(m * 8192, pow2n(e))
    }
}

proof fn lemma_pow2n_grow(a: nat, b: nat)
    requires
        a < b,
    ensures
        pow2n(b) >= 2 * pow2n(a),
    decreases b,
{
    if b > a + 1 {
        lemma_pow2n_grow(a, (b - 1) as nat);
    }
}

proof fn lemma_quotient_scale_unique(num: nat, den: nat, e1: nat, e2: nat)
    requires
        quotient_scale_ok(num, den, e1),
        quotient_scale_ok(num, den, e2),
    ensures
        e1 == e2,
{
    if e1 < e2 {
        lemma_pow2n_grow(e1, e2);
        assert(num * pow2n(e2) >= 2 * (num * pow2n(e1))) by (nonlinear_arith)
            requires
                pow2n(e2) >= 2 * pow2n(e1),
        ;
    } else if e2 < e1 {
        lemma_pow2n_grow(e2, e1);
        assert(num * pow2n(e1) >= 2 * (num * pow2n(e2))) by (nonlinear_arith)
            requires
                pow2n(e1) >= 2 * pow2n(e2),
        ;
    }
}

/// Appends `num as f64 / den as f64` with two decimals (see `f64_quotient_text`).
pub fn push_f64_quotient(out: &mut String, num: u128, den: u64)
    requires
        1 <= den <= 0x1_0000_0000,
        num <= 0x2_0000_0000_0000_0000,
    ensures
        final(out)@ == old(out)@ + f64_quotient_text(num as nat, den as nat),
{
    if num == 0 {
        proof {
            reveal_strlit("0.00");
        }
        out.append("0.00");
        return;
    }
    let d = den as u128;
    let lo = d * 0x2_0000_0000_0000_0000;
    let mut p: u128 = 1;
    let ghost mut e: nat = 0;
    while num * p < lo
        invariant
            1 <= num <= 0x2_0000_0000_0000_0000,
            1 <= d <= 0x1_0000_0000,
            lo == d * 0x2_0000_0000_0000_0000,
            p == pow2n(e),
            1 <= p < 0x4_0000_0000_0000_0000_0000_0000,
            num * p < d * 0x4_0000_0000_0000_0000,
        decreases 0x4_0000_0000_0000_0000_0000_0000 - p,
    {
        assert(p < 0x2_0000_0000_0000_0000_0000_0000) by (nonlinear_arith)
            requires
                num * p < lo,
                lo == d * 0x2_0000_0000_0000_0000,
                d <= 0x1_0000_0000,
                num >= 1,
        ;
        let ghost old_p = p;
        p = p * 2;
        assert(num * p == 2 * (num * old_p)) by (nonlinear_arith)
            requires
                p == old_p * 2,
        ;
        proof {
            e = e + 1;
        }
    }
    proof {
        let want = quotient_scale(num as nat, den as nat);
        assert(quotient_scale_ok(num as nat, den as nat, e));
        lemma_quotient_scale_unique(num as nat, den as nat, e, want);
    }
    let x = num * p;
    let dd = d * 8192;
    let q = x / dd;
    let r = x % dd;
    let m: u128 = if 2 * r > dd {
        q + 1
    } else if 2 * r == dd && q % 2 == 1 {
        q + 1
    } else {
        q
    };
    assert(q < 0x20_0000_0000_0000) by (nonlinear_arith)
        requires
            q == x / dd,
            x < d * 0x4_0000_0000_0000_0000,
            dd == d * 8192,
            d >= 1,
    ;
    assert(m == round_half_even(x as nat, dd as nat));
    push_fixed2_wide(out, m * 8192, p);
}

/// The size text: bytes below 1 KiB as `N B`; larger sizes in KB, MB or GB (powers of
/// 1024) with two decimals, computed as `bytes as f64 / unit as f64` and printed as
/// `{:.2}` prints it.
pub open spec fn spec_file_size_text(bytes: u64) -> Seq<char> {
    let kb: nat = 1024;
    let mb: nat = 1024 * 1024;
    let gb: nat = 1024 * 1024 * 1024;
    if bytes >= gb {
        fixed2_seq(f64_of_int(bytes as nat), gb) + " GB"@
    } else if bytes >= mb {
        fixed2_seq(f64_of_int(bytes as nat), mb) + " MB"@
    } else if bytes >= kb {
        fixed2_seq(f64_of_int(bytes as nat), kb) + " KB"@
    } else {
        dec_seq(bytes as nat) + " B"@
    }
}

/// Formats a byte count for people: `500 B`, `2.00 KB`, `1.43 MB`, ...
pub fn format_file_size(bytes: u64) -> (s: String)
    ensures
        s@ == spec_file_size_text(bytes),
{
    let kb: u64 = 1024;
    let mb: u64 = 1024 * kb;
    let gb: u64 = 1024 * mb;
    let mut s = String::new();
    if bytes >= gb {
        push_fixed2(&mut s, f64_value_of_u64(bytes), gb as u128);
        s.append(" GB");
    } else if bytes >= mb {
        push_fixed2(&mut s, f64_value_of_u64(bytes), mb as u128);
        s.append(" MB");
    } else if bytes >= kb {
        push_fixed2(&mut s, f64_value_of_u64(bytes), kb as u128);
        s.append(" KB");
    } else {
        push_decimal(&mut s, bytes);
        s.append(" B");
    }
    proof {
        assert(s@ =~= spec_file_size_text(bytes));
    }
    s
}


/// Metadata of an audio file. Its duration, `num_frames / sample_rate` seconds, is a
/// floating-point value that the caller computes and formats.
#[derive(Debug, Clone)]
pub struct AudioInfo {
    pub path: String,
    pub format: AudioFormat,
    pub sample_rate: u32,
    pub channels: u16,
    pub num_frames: u64,
    pub codec: String,
    pub file_size: u64,
}

/// What symphonia's probe finds of a file's default (first) track: its sample rate,
/// channel count and frame count where the container gives them, and its codec's id as
/// text.
pub struct ProbedTrack {
    pub sample_rate: Option<u32>,
    pub channels: Option<u16>,
    pub n_frames: Option<u64>,
    pub codec: String,
}

/// The plain values of a probe's result: the error's text, no track, or the track's
/// sample rate, channel count, frame count and codec text.
pub type ProbeView = core::result::Result<Option<(Option<u32>, Option<u16>, Option<u64>, Seq<char>)>, Seq<char>>;

/// A name for what symphonia's probe, with the default format and metadata options,
/// finds in the bytes `bytes` of a file given the extension hint `ext`.
pub uninterp spec fn probed_track(bytes: Seq<u8>, ext: Option<Seq<char>>) -> ProbeView;

pub open spec fn probe_view(r: core::result::Result<Option<ProbedTrack>, String>) -> ProbeView {
    match r {
        Err(t) => Err(t@),
        Ok(None) => Ok(None),
        Ok(Some(t)) => Ok(Some((t.sample_rate, t.channels, t.n_frames, t.codec@))),
    }
}

pub open spec fn opt_text_view(t: Option<String>) -> Option<Seq<char>> {
    match t {
        Some(s) => Some(s@),
        None => None,
    }
}

/// `symphonia::default::get_probe().format` on the bytes of a file, read through a
/// `MediaSourceStream` over a `Cursor`, with the extension hint `ext`, the default format
/// and metadata options: the error's text, or what it finds of the default track
/// (`FormatReader::default_track`, the first track). Claimed: the result is what
/// `probed_track` names for these bytes and this hint.
#[verifier::external_body]
fn symphonia_probe(bytes: &[u8], ext: Option<String>) -> (r: core::result::Result<Option<ProbedTrack>, String>)
    ensures
        probe_view(r) == probed_track(bytes@, opt_text_view(ext)),
{
    let source = std::io::Cursor::new(bytes.to_vec());
    let mss = symphonia::core::io::MediaSourceStream::new(Box::new(source), Default::default());
    let mut hint = symphonia::core::probe::Hint::new();
    if let Some(e) = &ext {
        hint.with_extension(e);
    }
    let probed = symphonia::default::get_probe()
        .format(&hint, mss, &Default::default(), &Default::default())
        .map_err(|e| e.to_string())?;
    Ok(probed.format.default_track().map(|t| ProbedTrack {
        sample_rate: t.codec_params.sample_rate,
        channels: t.codec_params.channels.map(|c| c.count() as u16),
        n_frames: t.codec_params.n_frames,
        codec: t.codec_params.codec.to_string(),
    }))
}

/// The suggestion given with a file whose extension names no known format.
pub open spec fn unknown_format_advice() -> Seq<char> {
    "use a recognized audio extension: wav, mp3, flac, ogg, aac"@
}

/// The format of the file at `path`, by its extension; a path whose extension names
/// no known format is refused.
pub fn info_format(path: &str) -> (r: Result<AudioFormat>)
    ensures
        match match path_extension(path@) {
            Some(e) => spec_format_of_extension(e),
            None => None,
        } {
            Some(f) => r == Ok::<AudioFormat, PanaudError>(f),
            None => r matches Err(PanaudError::UnknownFormat { path: p, suggestion: s }) && p@ == path@ && s@
                == unknown_format_advice(),
        },
{
    match AudioFormat::from_path(path) {
        Some(f) => Ok(f),
        None => Err(
            PanaudError::UnknownFormat {
                path: path.to_owned(),
                suggestion: "use a recognized audio extension: wav, mp3, flac, ogg, aac".to_owned(),
            },
        ),
    }
}

/// `r` is what `info` reports for the file at `path` of `file_size` bytes, where the
/// probe found `probed`: the unknown-format error for an extension that names no known
/// format; the probe's error as a decode error; a decode error when there is no track;
/// else the track's properties, 0 standing for a rate, channel count or frame count the
/// container does not give.
pub open spec fn is_info_of(r: Result<AudioInfo>, path: Seq<char>, file_size: u64, probed: ProbeView) -> bool {
    let format = match path_extension(path) {
        Some(e) => spec_format_of_extension(e),
        None => None,
    };
    match format {
        None => r matches Err(PanaudError::UnknownFormat { path: p, suggestion: s }) && p@ == path && s@
            == unknown_format_advice(),
        Some(f) => match probed {
            Err(t) => r matches Err(PanaudError::DecodeError { message: m, path: Some(p), suggestion: s }) && m@
                == t && p@ == path && s@ == "the file may be corrupted or in an unsupported format"@,
            Ok(None) => r matches Err(PanaudError::DecodeError { message: m, path: Some(p), suggestion: s }) && m@
                == "no audio track found"@ && p@ == path && s@ == "the file does not contain an audio track"@,
            Ok(Some((rate, channels, frames, codec))) => r matches Ok(i) && i.path@ == path && i.format == f
                && i.sample_rate == (match rate {
                Some(v) => v,
                None => 0u32,
            }) && i.channels == (match channels {
                Some(v) => v,
                None => 0u16,
            }) && i.num_frames == (match frames {
                Some(v) => v,
                None => 0u64,
            }) && i.codec@ == codec && i.file_size == file_size,
        },
    }
}

/// The properties of the file at `path` of `file_size` bytes, from what the probe found.
pub fn audio_info_from_probe(
    path: &str,
    file_size: u64,
    probed: core::result::Result<Option<ProbedTrack>, String>,
) -> (r: Result<AudioInfo>)
    ensures
        is_info_of(r, path@, file_size, probe_view(probed)),
{
    let format = info_format(path)?;
    match probed {
        Err(message) => Err(
            PanaudError::DecodeError {
                message,
                path: Some(path.to_owned()),
                suggestion: "the file may be corrupted or in an unsupported format".to_owned(),
            },
        ),
        Ok(None) => Err(
            PanaudError::DecodeError {
                message: "no audio track found".to_owned(),
                path: Some(path.to_owned()),
                suggestion: "the file does not contain an audio track".to_owned(),
            },
        ),
        Ok(Some(t)) => Ok(
            AudioInfo {
                path: path.to_owned(),
                format,
                sample_rate: match t.sample_rate {
                    Some(v) => v,
                    None => 0,
                },
                channels: match t.channels {
                    Some(v) => v,
                    None => 0,
                },
                num_frames: match t.n_frames {
                    Some(v) => v,
                    None => 0,
                },
                codec: t.codec,
                file_size,
            },
        ),
    }
}

/// The properties of the file at `path`, of `file_size` bytes, whose contents are
/// `bytes`: symphonia probes the bytes, with the path's extension as a hint.
pub fn audio_info_from_bytes(path: &str, file_size: u64, bytes: &[u8]) -> (r: Result<AudioInfo>)
    ensures
        is_info_of(r, path@, file_size, probed_track(bytes@, path_extension(path@))),
{
    let ext = std_path_extension(path);
    let probed = symphonia_probe(bytes, ext);
    audio_info_from_probe(path, file_size, probed)
}

/// Every line `to_human_string` can show, each with the field name that selects it,
/// given the duration as text.
pub open spec fn info_lines(info: AudioInfo, duration: Seq<char>) -> Seq<(Seq<char>, Seq<char>)> {
    seq![
        ("path"@, "File:        "@ + info.path@),
        ("format"@, "Format:      "@ + info.format.spec_name()),
        ("codec"@, "Codec:       "@ + info.codec@),
        ("sample_rate"@, "Sample Rate: "@ + dec_seq(info.sample_rate as nat) + " Hz"@),
        ("channels"@, "Channels:    "@ + dec_seq(info.channels as nat)),
        ("duration_secs"@, "Duration:    "@ + duration),
        ("num_frames"@, "Frames:      "@ + dec_seq(info.num_frames as nat)),
        ("file_size"@, "File Size:   "@ + spec_file_size_text(info.file_size)),
    ]
}

/// The texts of the lines whose field is among `fields`, or all of them when `fields`
/// is empty, in their order.
pub open spec fn selected_lines(lines: Seq<(Seq<char>, Seq<char>)>, fields: Seq<Seq<char>>) -> Seq<Seq<char>>
    decreases lines.len(),
{
    if lines.len() == 0 {
        Seq::empty()
    } else {
        let rest = selected_lines(lines.drop_last(), fields);
        if fields.len() == 0 || fields.contains(lines.last().0) {
            rest.push(lines.last().1)
        } else {
            rest
        }
    }
}

fn contains_text(fields: &Vec<String>, key: &str) -> (b: bool)
    ensures
        b == string_views(fields@).contains(key@),
{
    let k = key.to_owned();
    let mut i: usize = 0;
    while i < fields.len()
        invariant
            k@ == key@,
            i <= fields@.len(),
            forall|j: int| 0 <= j < i ==> fields@[j]@ != key@,
        decreases fields@.len() - i,
    {
        if fields[i] == k {
            assert(string_views(fields@)[i as int] == key@);
            return true;
        }
        i += 1;
    }
    proof {
        if string_views(fields@).contains(key@) {
            let j = choose|j: int| 0 <= j < string_views(fields@).len() && string_views(fields@)[j] == key@;
            assert(fields@[j]@ == key@);
        }
    }
    false
}

/// Whether the field `key` is kept when the fields `fields` are asked for: every field
/// is kept when none is named, otherwise those named.
pub fn field_selected(fields: &Vec<String>, key: &str) -> (b: bool)
    ensures
        b == (fields@.len() == 0 || string_views(fields@).contains(key@)),
{
    fields.len() == 0 || contains_text(fields, key)
}

impl AudioInfo {
    /// Formats as human-readable text, one line per field, keeping only the lines of the
    /// fields named in `fields` (all of them when it is empty); `duration` is the text of
    /// the duration.
    pub fn to_human_string(&self, duration: &str, fields: &Vec<String>) -> (s: String)
        ensures
            s@ == join_texts(selected_lines(info_lines(*self, duration@), string_views(fields@)), "\n"@),
    {
        let ghost all = info_lines(*self, duration@);
        let ghost keys = string_views(fields@);
        let mut lines: Vec<String> = Vec::new();
        let keep_all = fields.len() == 0;
        assert(string_views(lines@) =~= selected_lines(all.take(0), keys));
        let mut line = "File:        ".to_owned();
        line.append(self.path.as_str());
        if keep_all || contains_text(fields, "path") {
            lines.push(line);
        }
        proof {
            assert(all.take(1).drop_last() =~= all.take(0));
            assert(string_views(lines@) =~= selected_lines(all.take(1), keys));
        }
        let mut line = "Format:      ".to_owned();
        line.append(self.format.name());
        if keep_all || contains_text(fields, "format") {
            lines.push(line);
        }
        proof {
            assert(all.take(2).drop_last() =~= all.take(1));
            assert(string_views(lines@) =~= selected_lines(all.take(2), keys));
        }
        let mut line = "Codec:       ".to_owned();
        line.append(self.codec.as_str());
        if keep_all || contains_text(fields, "codec") {
            lines.push(line);
        }
        proof {
            assert(all.take(3).drop_last() =~= all.take(2));
            assert(string_views(lines@) =~= selected_lines(all.take(3), keys));
        }
        let mut line = "Sample Rate: ".to_owned();
        push_decimal(&mut line, self.sample_rate as u64);
        line.append(" Hz");
        if keep_all || contains_text(fields, "sample_rate") {
            lines.push(line);
        }
        proof {
            assert(all.take(4).drop_last() =~= all.take(3));
            assert(string_views(lines@) =~= selected_lines(all.take(4), keys));
        }
        let mut line = "Channels:    ".to_owned();
        push_decimal(&mut line, self.channels as u64);
        if keep_all || contains_text(fields, "channels") {
            lines.push(line);
        }
        proof {
            assert(all.take(5).drop_last() =~= all.take(4));
            assert(string_views(lines@) =~= selected_lines(all.take(5), keys));
        }
        let mut line = "Duration:    ".to_owned();
        line.append(duration);
        if keep_all || contains_text(fields, "duration_secs") {
            lines.push(line);
        }
        proof {
            assert(all.take(6).drop_last() =~= all.take(5));
            assert(string_views(lines@) =~= selected_lines(all.take(6), keys));
        }
        let mut line = "Frames:      ".to_owned();
        push_decimal(&mut line, self.num_frames);
        if keep_all || contains_text(fields, "num_frames") {
            lines.push(line);
        }
        proof {
            assert(all.take(7).drop_last() =~= all.take(6));
            assert(string_views(lines@) =~= selected_lines(all.take(7), keys));
        }
        let mut line = "File Size:   ".to_owned();
        let size = format_file_size(self.file_size);
        line.append(size.as_str());
        if keep_all || contains_text(fields, "file_size") {
            lines.push(line);
        }
        proof {
            assert(all.take(8).drop_last() =~= all.take(7));
            assert(all.take(8) =~= all);
            assert(string_views(lines@) =~= selected_lines(all, keys));
        }
        crate::text::join_strings(&lines, "\n")
    }
}

proof fn lemma_select_none(lines: Seq<(Seq<char>, Seq<char>)>, key: Seq<char>)
    requires
        forall|j: int| 0 <= j < lines.len() ==> (#[trigger] lines[j]).0 != key,
    ensures
        selected_lines(lines, seq![key]) == Seq::<Seq<char>>::empty(),
    decreases lines.len(),
{
    if lines.len() > 0 {
        assert(lines.last() == lines[lines.len() - 1]);
        assert(!seq![key].contains(lines.last().0)) by {
            if seq![key].contains(lines.last().0) {
                let k = choose|k: int| 0 <= k < 1 && seq![key][k] == lines.last().0;
                assert(seq![key][k] == key);
            }
        }
        assert forall|j: int| 0 <= j < lines.drop_last().len() implies (#[trigger] lines.drop_last()[j]).0 != key by {
            assert(lines.drop_last()[j] == lines[j]);
        }
        lemma_select_none(lines.drop_last(), key);
    }
}

proof fn lemma_select_one(lines: Seq<(Seq<char>, Seq<char>)>, key: Seq<char>, k: int)
    requires
        0 <= k < lines.len(),
        lines[k].0 == key,
        forall|j: int| 0 <= j < lines.len() && j != k ==> (#[trigger] lines[j]).0 != key,
    ensures
        selected_lines(lines, seq![key]) == seq![lines[k].1],
    decreases lines.len(),
{
    let last = lines.len() - 1;
    assert(lines.last() == lines[last]);
    assert forall|j: int| 0 <= j < lines.drop_last().len() && j != k implies (#[trigger] lines.drop_last()[j]).0
        != key by {
        assert(lines.drop_last()[j] == lines[j]);
    }
    if k == last {
        assert(seq![key].contains(key)) by {
            assert(seq![key][0] == key);
        }
        assert forall|j: int| 0 <= j < lines.drop_last().len() implies (#[trigger] lines.drop_last()[j]).0 != key by {
            assert(lines.drop_last()[j] == lines[j]);
        }
        lemma_select_none(lines.drop_last(), key);
        assert(Seq::<Seq<char>>::empty().push(lines[k].1) =~= seq![lines[k].1]);
    } else {
        assert(!seq![key].contains(lines.last().0)) by {
            if seq![key].contains(lines.last().0) {
                let m = choose|m: int| 0 <= m < 1 && seq![key][m] == lines.last().0;
                assert(seq![key][m] == key);
            }
        }
        assert(lines.drop_last()[k] == lines[k]);
        lemma_select_one(lines.drop_last(), key, k);
    }
}

/// Asking for one field shows exactly its line: the file's path, its format's name, the
/// track's codec, the sample rate in Hz, the channel count, the duration text, the frame
/// count and the file size, each after its label.
pub proof fn law_single_field_line(info: AudioInfo, duration: Seq<char>)
    ensures
        join_texts(selected_lines(info_lines(info, duration), seq!["path"@]), "\n"@) == "File:        "@ + info.path@,
        join_texts(selected_lines(info_lines(info, duration), seq!["format"@]), "\n"@) == "Format:      "@ + info.format.spec_name(),
        join_texts(selected_lines(info_lines(info, duration), seq!["codec"@]), "\n"@) == "Codec:       "@ + info.codec@,
        join_texts(selected_lines(info_lines(info, duration), seq!["sample_rate"@]), "\n"@) == "Sample Rate: "@ + dec_seq(info.sample_rate as nat) + " Hz"@,
        join_texts(selected_lines(info_lines(info, duration), seq!["channels"@]), "\n"@) == "Channels:    "@ + dec_seq(info.channels as nat),
        join_texts(selected_lines(info_lines(info, duration), seq!["duration_secs"@]), "\n"@) == "Duration:    "@ + duration,
        join_texts(selected_lines(info_lines(info, duration), seq!["num_frames"@]), "\n"@) == "Frames:      "@ + dec_seq(info.num_frames as nat),
        join_texts(selected_lines(info_lines(info, duration), seq!["file_size"@]), "\n"@) == "File Size:   "@ + spec_file_size_text(info.file_size),
{
    reveal_strlit("path");
    reveal_strlit("format");
    reveal_strlit("codec");
    reveal_strlit("sample_rate");
    reveal_strlit("channels");
    reveal_strlit("duration_secs");
    reveal_strlit("num_frames");
    reveal_strlit("file_size");
    let all = info_lines(info, duration);
    assert forall|j: int, k: int| 0 <= j < 8 && 0 <= k < 8 && j != k implies (#[trigger] all[j]).0 != (
    #[trigger] all[k]).0 by {
        assert(all[j].0.len() != all[k].0.len());
    }
    lemma_select_one(all, all[0].0, 0);
    lemma_select_one(all, all[1].0, 1);
    lemma_select_one(all, all[2].0, 2);
    lemma_select_one(all, all[3].0, 3);
    lemma_select_one(all, all[4].0, 4);
    lemma_select_one(all, all[5].0, 5);
    lemma_select_one(all, all[6].0, 6);
    lemma_select_one(all, all[7].0, 7);
    assert forall|t: Seq<char>| join_texts(seq![t], "\n"@) == t by {
        assert(seq![t].len() == 1);
    }
}

} // verus!
