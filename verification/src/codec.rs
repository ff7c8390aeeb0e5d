//! Encoding audio into the bytes of a file. WAV files are written sample by sample by the
//! caller; FLAC and MP3 streams are produced here, in memory, by `flacenc` and by LAME
//! (through `mp3lame-encoder`), from integer samples.
use vstd::prelude::*;
use flacenc::component::BitRepr;
use flacenc::error::Verify;
use crate::error::{PanaudError, Result};
use crate::text::{join_strings, join_texts};
use crate::types::{
    all_formats, encodable_texts, encodable_texts_of_all, law_extension_round_trip, spec_format_of_extension,
    AudioFormat,
};

verus! {

#[verifier::external_type_specification]
#[verifier::external_body]
pub struct ExFlacEncoderConfig(flacenc::config::Encoder);

#[verifier::external_type_specification]
#[verifier::external_body]
#[verifier::reject_recursive_types(T)]
pub struct ExFlacVerified<T>(flacenc::error::Verified<T>);

#[verifier::external_type_specification]
#[verifier::external_body]
pub struct ExFlacStream(flacenc::component::Stream);

#[verifier::external_type_specification]
#[verifier::external_body]
pub struct ExLameBuilder(mp3lame_encoder::Builder);

#[verifier::external_type_specification]
#[verifier::external_body]
pub struct ExLameEncoder(mp3lame_encoder::Encoder);

/// `flacenc::config::Encoder::default()`: the default FLAC encoder settings.
#[verifier::external_body]
fn flac_default_config() -> flacenc::config::Encoder {
    flacenc::config::Encoder::default()
}

/// `Verify::into_verified` on FLAC encoder settings: the settings checked, or the
/// `Debug` text of what is wrong with them.
#[verifier::external_body]
fn flac_verify_config(config: flacenc::config::Encoder) -> core::result::Result<
    flacenc::error::Verified<flacenc::config::Encoder>,
    String,
> {
    config.into_verified().map_err(|(_, e)| format!("{e:?}"))
}

/// The block size of checked FLAC encoder settings (the `block_size` field). Settings
/// pass the check only with a block size from `MIN_BLOCK_SIZE` (32) to `MAX_BLOCK_SIZE`
/// (32767).
#[verifier::external_body]
fn flac_block_size(config: &flacenc::error::Verified<flacenc::config::Encoder>) -> (r: usize)
    ensures
        32 <= r <= 32767,
{
    config.block_size
}

/// The first 26 bytes of a FLAC stream as `flacenc` writes it, up to its total sample
/// count: the `fLaC` marker; the header of the STREAMINFO block (the last metadata
/// block, of type 0, 34 bytes long); the block and frame sizes (not stated here); then,
/// big-endian, the 20-bit sample rate, the channel count less one in 3 bits, the bits
/// per sample less one in 5 bits and the low 36 bits of the number of samples per
/// channel. The 16-byte MD5 digest of the samples follows, so the stream holds at least
/// 42 bytes.
pub open spec fn flac_stream_info_bytes(b: Seq<u8>, channels: int, rate: int, bits: int, total: int) -> bool {
    &&& b.len() >= 42
    &&& b[0] == 0x66 && b[1] == 0x4c && b[2] == 0x61 && b[3] == 0x43
    &&& b[4] == 0x80 && b[5] == 0 && b[6] == 0 && b[7] == 34
    &&& b[18] == rate / 4096
    &&& b[19] == (rate / 16) % 256
    &&& b[20] == (rate % 16) * 16 + (channels - 1) * 2 + (bits - 1) / 16
    &&& b[21] == ((bits - 1) % 16) * 16 + (total / 0x1_0000_0000) % 16
    &&& b[22] == (total / 0x100_0000) % 256
    &&& b[23] == (total / 0x1_0000) % 256
    &&& b[24] == (total / 0x100) % 256
    &&& b[25] == total % 256
}

/// The bytes that FLAC's MD5 signature covers for 16-bit samples: each sample's two
/// low-order bytes, little-endian, in the order of the interleaved samples.
pub open spec fn flac_md5_input(samples: Seq<i32>) -> Seq<u8> {
    Seq::new(
        (2 * samples.len()) as nat,
        |i: int|
            (if i % 2 == 0 {
                ((samples[i / 2] as int) % 65536) % 256
            } else {
                ((samples[i / 2] as int) % 65536) / 256
            }) as u8,
    )
}

/// A name for the 16-byte digest that the `md5` crate's `Md5` gives of `data`, which
/// `flacenc` stores in a stream's STREAMINFO block.
pub uninterp spec fn md5_digest(data: Seq<u8>) -> Seq<u8>;

/// `flacenc::encode_with_fixed_block_size` on a `MemSource` made by
/// `MemSource::from_samples` of the interleaved `samples` (16 bits per sample), its
/// `Stream` turned into bytes by `BitRepr::write` into a fresh `ByteSink`.
/// `Err(Some(text))` carries the `Debug` text of the encoder's error, `Err(None)` says
/// that writing the stream failed.
/// Claimed, as the source shows: a channel count outside 1..=8 or a sample rate above
/// 96000 is refused (by `StreamInfo`'s check in `Stream::new`, or, for a count whose low
/// byte passes that check, by `FrameBuf::with_size`); otherwise the bytes begin with the
/// stream marker and the STREAMINFO block holding the sample rate, the channel count, the
/// bits per sample and `samples.len() / channels` samples per channel, and, when every
/// frame is whole, the MD5 digest of the samples' 16-bit little-endian bytes (both the
/// single-threaded and the parallel encoder feed the digest every sample in order).
/// Not stated: other refusals (the parallel encoder reads the machine's parallelism and
/// the `FLACENC_WORKERS` variable, and never returns when that variable is `0`), the
/// block and frame sizes, and the frames' bytes, whose linear prediction uses `f32`
/// functions of the platform's math library.
#[verifier::external_body]
fn flac_encode(
    config: &flacenc::error::Verified<flacenc::config::Encoder>,
    samples: &Vec<i32>,
    channels: usize,
    bits_per_sample: usize,
    sample_rate: u32,
    block_size: usize,
) -> (r: core::result::Result<Vec<u8>, Option<String>>)
    requires
        bits_per_sample == 16,
        32 <= block_size <= 32767,
        forall|i: int| 0 <= i < samples@.len() ==> -32768 <= #[trigger] samples@[i] <= 32767,
    ensures
        !(1 <= channels <= 8 && sample_rate <= 96000) ==> r matches Err(Some(_)),
        r matches Ok(b) ==> flac_stream_info_bytes(
            b@,
            channels as int,
            sample_rate as int,
            bits_per_sample as int,
            (samples@.len() as int) / (channels as int),
        ),
        r matches Ok(b) ==> ((samples@.len() as int) % (channels as int) == 0 ==> b@.subrange(26, 42)
            == md5_digest(flac_md5_input(samples@))),
{
    let source = flacenc::source::MemSource::from_samples(samples.as_slice(), channels, bits_per_sample, sample_rate as usize);
    let stream = flacenc::encode_with_fixed_block_size(config, source, block_size)
        .map_err(|e| Some(format!("{e:?}")))?;
    let mut sink = flacenc::bitsink::ByteSink::new();
    stream.write(&mut sink).map_err(|_| None)?;
    Ok(sink.as_slice().to_vec())
}

/// What a LAME encoder has been set up with: the channel count and the input sample
/// rate it was given (`None`: LAME's default was left), and whether it was set to its
/// best quality.
#[derive(Debug, Clone, Copy, PartialEq, Eq, Structural)]
pub struct LameSettings {
    pub channels: Option<u8>,
    pub sample_rate: Option<u32>,
    pub best_quality: bool,
}

/// A LAME encoder builder, with a record of the settings it has been given.
pub struct LameBuilder {
    inner: mp3lame_encoder::Builder,
    pub settings: Ghost<LameSettings>,
}

/// A LAME encoder, with a record of the settings it was built with, the samples it has
/// been fed, the bytes it has handed out and whether it has been flushed.
pub struct LameEncoder {
    inner: mp3lame_encoder::Encoder,
    pub settings: Ghost<LameSettings>,
    pub fed: Ghost<Seq<i16>>,
    pub emitted: Ghost<Seq<u8>>,
    pub flushed: Ghost<bool>,
}

/// `mp3lame_encoder::Builder::new()`: a fresh LAME encoder builder, none of whose
/// settings has been given yet, or `None` when LAME could not make one.
#[verifier::external_body]
fn lame_builder() -> (r: Option<LameBuilder>)
    ensures
        r matches Some(b) ==> b.settings@ == (LameSettings { channels: None, sample_rate: None, best_quality: false }),
{
    match mp3lame_encoder::Builder::new() {
        Some(inner) => Some(LameBuilder {
            inner,
            settings: Ghost(LameSettings { channels: None, sample_rate: None, best_quality: false }),
        }),
        None => None,
    }
}

/// `Builder::set_num_channels`: `Err` with the error's text when LAME refuses the count.
/// Claimed, as `lame_set_num_channels` in LAME's source shows for the settings a builder
/// holds: the count is refused, with code -1 (shown as `error`), exactly when it is not
/// 1 or 2; an accepted count is what the encoder will read.
#[verifier::external_body]
fn lame_set_num_channels(builder: &mut LameBuilder, channels: u8) -> (r: core::result::Result<(), String>)
    ensures
        r is Ok <==> 1 <= channels <= 2,
        r matches Err(t) ==> t@ == "error"@,
        r is Ok ==> final(builder).settings@ == (LameSettings { channels: Some(channels), ..old(builder).settings@ }),
        r is Err ==> final(builder).settings@ == old(builder).settings@,
{
    builder.inner.set_num_channels(channels).map_err(|e| e.to_string())
}

/// The input rate LAME is given for `rate`: `Builder::set_sample_rate` converts it to a C
/// `int`, and a rate above `i32::MAX` reaches LAME as `i32::MAX`.
pub open spec fn lame_rate(rate: u32) -> u32 {
    if rate > 0x7fff_ffff {
        0x7fff_ffff
    } else {
        rate
    }
}

/// `Builder::set_sample_rate`: `Err` with the error's text when LAME refuses the rate.
/// Claimed, as `lame_set_in_samplerate` in LAME's source shows for the settings a builder
/// holds: the rate is refused, with code -1 (shown as `error`), exactly when it is 0; an
/// accepted rate, as `lame_rate` converts it, is the input rate the encoder will assume.
#[verifier::external_body]
fn lame_set_sample_rate(builder: &mut LameBuilder, rate: u32) -> (r: core::result::Result<(), String>)
    ensures
        r is Ok <==> rate >= 1,
        r matches Err(t) ==> t@ == "error"@,
        r is Ok ==> final(builder).settings@ == (LameSettings { sample_rate: Some(lame_rate(rate)), ..old(builder).settings@ }),
        r is Err ==> final(builder).settings@ == old(builder).settings@,
{
    builder.inner.set_sample_rate(rate).map_err(|e| e.to_string())
}

/// `Builder::set_quality(Quality::Best)`. Claimed, as `lame_set_quality` in LAME's source
/// shows for the settings a builder holds: it always succeeds, and the builder is set to
/// the best quality.
#[verifier::external_body]
fn lame_set_best_quality(builder: &mut LameBuilder) -> (r: core::result::Result<(), String>)
    ensures
        r is Ok,
        final(builder).settings@ == (LameSettings { best_quality: true, ..old(builder).settings@ }),
{
    builder.inner.set_quality(mp3lame_encoder::Quality::Best).map_err(|e| e.to_string())
}

/// `Builder::build`: the encoder, with the builder's settings and nothing fed, emitted or
/// flushed yet, or the error's text. Claimed, as `lame_init_params` in LAME's source
/// shows: it refuses only an invalid or already initialized handle, an input rate below
/// 1, a channel count other than 1 or 2, or an unknown output rate; a builder made by
/// `lame_builder` and given settings only through the setters above is none of these,
/// so the build succeeds.
#[verifier::external_body]
fn lame_build(builder: LameBuilder) -> (r: core::result::Result<LameEncoder, String>)
    ensures
        r is Ok,
        r matches Ok(e) ==> e.settings@ == builder.settings@ && e.fed@ == Seq::<i16>::empty()
            && e.emitted@ == Seq::<u8>::empty() && !e.flushed@,
{
    match builder.inner.build() {
        Ok(inner) => Ok(LameEncoder {
            inner,
            settings: Ghost(builder.settings@),
            fed: Ghost(Seq::empty()),
            emitted: Ghost(Seq::empty()),
            flushed: Ghost(false),
        }),
        Err(e) => Err(e.to_string()),
    }
}

/// `Encoder::encode_to_vec` of interleaved 16-bit samples (two per frame, as
/// `InterleavedPcm` reads them): on success the encoder has been fed `pcm`, the bytes
/// LAME wrote are appended to `out` (and to the record of what it emitted) and their
/// number returned; on failure `out` keeps its length and contents. The bytes themselves
/// are not stated: LAME computes them in floating point along paths that depend on the
/// processor.
#[verifier::external_body]
fn lame_encode(
    encoder: &mut LameEncoder,
    pcm: &Vec<i16>,
    out: &mut Vec<u8>,
) -> (r: core::result::Result<usize, String>)
    requires
        pcm@.len() % 2 == 0,
    ensures
        final(encoder).settings@ == old(encoder).settings@,
        final(encoder).flushed@ == old(encoder).flushed@,
        match r {
            Ok(n) => final(out)@.len() == old(out)@.len() + n && final(out)@.take(old(out)@.len() as int)
                == old(out)@ && final(encoder).fed@ == old(encoder).fed@ + pcm@ && final(encoder).emitted@
                == old(encoder).emitted@ + final(out)@.skip(old(out)@.len() as int),
            Err(_) => final(out)@ == old(out)@,
        },
{
    encoder.inner.encode_to_vec(mp3lame_encoder::InterleavedPcm(pcm.as_slice()), out).map_err(|e| e.to_string())
}

/// `Encoder::flush_to_vec::<FlushNoGap>`: on success the encoder is flushed, the final
/// bytes are appended to `out` (and to the record of what it emitted) and their number
/// returned; on failure `out` keeps its length and contents.
#[verifier::external_body]
fn lame_flush(encoder: &mut LameEncoder, out: &mut Vec<u8>) -> (r: core::result::Result<usize, String>)
    ensures
        final(encoder).settings@ == old(encoder).settings@,
        final(encoder).fed@ == old(encoder).fed@,
        match r {
            Ok(n) => final(out)@.len() == old(out)@.len() + n && final(out)@.take(old(out)@.len() as int)
                == old(out)@ && final(encoder).flushed@ && final(encoder).emitted@ == old(encoder).emitted@
                + final(out)@.skip(old(out)@.len() as int),
            Err(_) => final(out)@ == old(out)@,
        },
{
    encoder.inner.flush_to_vec::<mp3lame_encoder::FlushNoGap>(out).map_err(|e| e.to_string())
}

/// An MP3 stream, with the record of the LAME run that made it: the settings, the
/// samples fed, the bytes LAME emitted and whether the encoder was flushed.
pub struct Mp3Stream {
    pub bytes: Vec<u8>,
    pub settings: Ghost<LameSettings>,
    pub fed: Ghost<Seq<i16>>,
    pub emitted: Ghost<Seq<u8>>,
    pub flushed: Ghost<bool>,
}

/// Central codec registry for encoding audio.
pub struct CodecRegistry;

/// How a format is written.
#[derive(Debug, Clone, Copy, PartialEq, Eq, Structural)]
pub enum EncodeRoute {
    /// 32-bit float WAV, written sample by sample.
    Wav,
    /// FLAC from 16-bit integer samples.
    Flac,
    /// MP3 from 16-bit integer samples.
    Mp3,
}

/// How a format is written, when it can be.
pub open spec fn spec_route(format: AudioFormat) -> Option<EncodeRoute> {
    match format {
        AudioFormat::Wav => Some(EncodeRoute::Wav),
        AudioFormat::Flac => Some(EncodeRoute::Flac),
        AudioFormat::Mp3 => Some(EncodeRoute::Mp3),
        _ => None,
    }
}

/// The suggestion given when a format cannot be written.
pub open spec fn unsupported_output_suggestion() -> Seq<char> {
    "supported output formats: "@ + join_texts(encodable_texts(all_formats(), false), ", "@)
        + "; enable features for more"@
}

/// The MP3 output buffer size for `n` samples: a quarter more than the samples, plus
/// one frame's worth of 7200 bytes.
pub open spec fn mp3_buffer_size(n: nat) -> nat {
    n + n / 4 + 7200
}

/// What `encode_mp3` gives for `pcm`, `channels`, `rate` and `path`:
/// - every error is an encode error naming `path`;
/// - a channel byte (`channels % 256`) other than 1 or 2 is refused with
///   `set channels: error`, and a rate of 0 with `set sample rate: error` (both with
///   the advice to check the audio parameters), unless LAME could not make a builder;
/// - with settings LAME takes, the only failures are LAME not making a builder, or
///   LAME refusing to encode or to flush;
/// - a stream is exactly what LAME emitted, by encoding and then flushing, after it was
///   set to those channels, that rate (as `lame_rate` gives it) and its best quality,
///   and fed `pcm`.
pub open spec fn mp3_outcome(r: Result<Mp3Stream>, pcm: Seq<i16>, channels: u16, rate: u32, path: Seq<char>) -> bool {
    let ch = channels % 256;
    let params = "check audio parameters (sample rate, channels)"@;
    let no_builder = "failed to create LAME encoder"@;
    &&& r matches Err(e) ==> (e matches PanaudError::EncodeError { path: Some(p), .. } && p@ == path)
    &&& !(1 <= ch <= 2) ==> (r matches Err(PanaudError::EncodeError { message: m, suggestion: s, .. }) && (m@
        == no_builder || (m@ == "set channels: error"@ && s@ == params)))
    &&& 1 <= ch <= 2 && rate == 0 ==> (r matches Err(PanaudError::EncodeError { message: m, suggestion: s, .. })
        && (m@ == no_builder || (m@ == "set sample rate: error"@ && s@ == params)))
    &&& 1 <= ch <= 2 && rate >= 1 ==> (r matches Err(e) ==> (e matches PanaudError::EncodeError { message: m, .. }
        && (m@ == no_builder || m@.take(21) == "MP3 encoding failed: "@ || m@.take(18)
        == "MP3 flush failed: "@)))
    &&& r matches Ok(m) ==> 1 <= ch <= 2 && rate >= 1 && m.settings@ == (LameSettings {
        channels: Some(ch as u8),
        sample_rate: Some(lame_rate(rate)),
        best_quality: true,
    }) && m.fed@ == pcm && m.flushed@ && m.bytes@ == m.emitted@
}

impl CodecRegistry {
    /// How `format` is written: WAV, FLAC and MP3 can be; any other format is refused
    /// with the list of the formats that can.
    pub fn route(format: AudioFormat) -> (r: Result<EncodeRoute>)
        ensures
            r is Ok <==> spec_route(format) is Some,
            r is Ok ==> r->Ok_0 == spec_route(format)->0,
            format == AudioFormat::Wav ==> r == Ok::<EncodeRoute, PanaudError>(EncodeRoute::Wav),
            format == AudioFormat::Flac ==> r == Ok::<EncodeRoute, PanaudError>(EncodeRoute::Flac),
            format == AudioFormat::Mp3 ==> r == Ok::<EncodeRoute, PanaudError>(EncodeRoute::Mp3),
            format == AudioFormat::Ogg || format == AudioFormat::Aac ==> (r matches Err(
                PanaudError::UnsupportedFormat { format: f, suggestion: s },
            ) && f@ == format.spec_name() && s@ == unsupported_output_suggestion()),
    {
        match format {
            AudioFormat::Wav => Ok(EncodeRoute::Wav),
            AudioFormat::Flac => Ok(EncodeRoute::Flac),
            AudioFormat::Mp3 => Ok(EncodeRoute::Mp3),
            _ => {
                let names = encodable_texts_of_all(false);
                let mut suggestion = "supported output formats: ".to_owned();
                let joined = join_strings(&names, ", ");
                suggestion.append(joined.as_str());
                suggestion.append("; enable features for more");
                Err(PanaudError::UnsupportedFormat { format: format.name().to_owned(), suggestion })
            },
        }
    }

    /// Encodes interleaved 16-bit samples as a FLAC stream, for the file at `path`.
    /// A channel count outside 1..=8 or a sample rate above 96000 is refused; the bytes
    /// of a stream begin with its marker and STREAMINFO block, which records the sample
    /// rate, the channel count, 16 bits per sample, `samples.len() / channels` samples
    /// per channel and, when every frame is whole, the MD5 digest of the samples. Every
    /// refusal of the encoder is an encode error naming `path`.
    pub fn encode_flac(samples: &Vec<i32>, channels: u16, sample_rate: u32, path: &str) -> (r: Result<Vec<u8>>)
        requires
            forall|i: int| 0 <= i < samples@.len() ==> -32768 <= #[trigger] samples@[i] <= 32767,
        ensures
            r matches Err(e) ==> (e matches PanaudError::EncodeError { path: Some(p), .. } && p@
                == path@),
            !(1 <= channels <= 8 && sample_rate <= 96000) ==> (r matches Err(
                PanaudError::EncodeError { message: m, .. },
            ) && (m@.take(27) == "FLAC encoder config error: "@ || m@.take(22)
                == "FLAC encoding failed: "@)),
            r matches Ok(b) ==> 1 <= channels <= 8 && sample_rate <= 96000 && flac_stream_info_bytes(
                b@,
                channels as int,
                sample_rate as int,
                16,
                (samples@.len() as int) / (channels as int),
            ),
            r matches Ok(b) ==> ((samples@.len() as int) % (channels as int) == 0 ==> b@.subrange(26, 42)
                == md5_digest(flac_md5_input(samples@))),
    {
        let bits_per_sample: usize = 16;
        let config = match flac_verify_config(flac_default_config()) {
            Ok(c) => c,
            Err(text) => {
                let mut message = "FLAC encoder config error: ".to_owned();
                message.append(text.as_str());
                proof {
                    reveal_strlit("FLAC encoder config error: ");
                    assert(message@.take(27) =~= "FLAC encoder config error: "@);
                }
                return Err(
                    PanaudError::encode(path, message, "internal error; please report this bug".to_owned()),
                );
            },
        };
        let block_size = flac_block_size(&config);
        match flac_encode(
            &config,
            samples,
            channels as usize,
            bits_per_sample,
            sample_rate,
            block_size,
        ) {
            Ok(bytes) => Ok(bytes),
            Err(Some(text)) => {
                let mut message = "FLAC encoding failed: ".to_owned();
                message.append(text.as_str());
                proof {
                    reveal_strlit("FLAC encoding failed: ");
                    assert(message@.take(22) =~= "FLAC encoding failed: "@);
                }
                Err(PanaudError::encode(path, message, "check that the audio data is valid".to_owned()))
            },
            Err(None) => Err(
                PanaudError::encode(
                    path,
                    "failed to serialize FLAC stream".to_owned(),
                    "internal error; please report this bug".to_owned(),
                ),
            ),
        }
    }

    /// Encodes interleaved 16-bit samples, read two to a frame, as an MP3 stream at the
    /// best quality, for the file at `path`. The output buffer holds
    /// `mp3_buffer_size(pcm.len())` bytes. Every refusal of the encoder is an encode error
    /// naming `path`. LAME is given the channel count as a byte (`channels % 256`) and
    /// takes only 1 or 2 channels and a sample rate of at least 1: other settings are
    /// refused with the message `set channels: error` or `set sample rate: error`, unless
    /// LAME could not even make the encoder. The stream returned is exactly what LAME
    /// emitted, by encoding and then flushing, after it was set to `channels % 256`
    /// channels, the rate `sample_rate` and its best quality, and fed `pcm`.
    pub fn encode_mp3(pcm: &Vec<i16>, channels: u16, sample_rate: u32, path: &str) -> (r: Result<Mp3Stream>)
        requires
            pcm@.len() % 2 == 0,
            mp3_buffer_size(pcm@.len()) <= usize::MAX,
        ensures
            mp3_outcome(r, pcm@, channels, sample_rate, path@),
    {
        let params = "check audio parameters (sample rate, channels)";
        let mut builder = match lame_builder() {
            Some(b) => b,
            None => {
                return Err(
                    PanaudError::encode(
                        path,
                        "failed to create LAME encoder".to_owned(),
                        "internal error; please report this bug".to_owned(),
                    ),
                );
            },
        };
        let channel_byte = #[verifier::truncate] (channels as u8);
        assert(channel_byte == channels % 256) by (bit_vector)
            requires
                channel_byte == #[verifier::truncate] (channels as u8),
        ;
        proof {
            reveal_strlit("check audio parameters (sample rate, channels)");
            reveal_strlit("error");
        }
        if let Err(text) = lame_set_num_channels(&mut builder, channel_byte) {
            let mut message = "set channels: ".to_owned();
            message.append(text.as_str());
            proof {
                reveal_strlit("set channels: ");
                reveal_strlit("set channels: error");
                assert(message@ =~= "set channels: error"@);
            }
            return Err(PanaudError::encode(path, message, params.to_owned()));
        }
        if let Err(text) = lame_set_sample_rate(&mut builder, sample_rate) {
            let mut message = "set sample rate: ".to_owned();
            message.append(text.as_str());
            proof {
                reveal_strlit("set sample rate: ");
                reveal_strlit("set sample rate: error");
                assert(message@ =~= "set sample rate: error"@);
            }
            return Err(PanaudError::encode(path, message, params.to_owned()));
        }
        if let Err(text) = lame_set_best_quality(&mut builder) {
            let mut message = "set quality: ".to_owned();
            message.append(text.as_str());
            return Err(PanaudError::encode(path, message, params.to_owned()));
        }
        let mut encoder = match lame_build(builder) {
            Ok(e) => e,
            Err(text) => {
                let mut message = "build encoder: ".to_owned();
                message.append(text.as_str());
                return Err(PanaudError::encode(path, message, params.to_owned()));
            },
        };
        let n = pcm.len();
        let mut out: Vec<u8> = Vec::with_capacity(n + n / 4 + 7200);
        if let Err(text) = lame_encode(&mut encoder, pcm, &mut out) {
            let mut message = "MP3 encoding failed: ".to_owned();
            message.append(text.as_str());
            proof {
                reveal_strlit("MP3 encoding failed: ");
                assert(message@.take(21) =~= "MP3 encoding failed: "@);
            }
            return Err(PanaudError::encode(path, message, "check that the audio data is valid".to_owned()));
        }
        assert(encoder.emitted@ =~= out@);
        if let Err(text) = lame_flush(&mut encoder, &mut out) {
            let mut message = "MP3 flush failed: ".to_owned();
            message.append(text.as_str());
            proof {
                reveal_strlit("MP3 flush failed: ");
                assert(message@.take(18) =~= "MP3 flush failed: "@);
            }
            return Err(PanaudError::encode(path, message, "check that the audio data is valid".to_owned()));
        }
        assert(encoder.emitted@ =~= out@);
        assert(encoder.fed@ =~= pcm@);
        Ok(
            Mp3Stream {
                bytes: out,
                settings: Ghost(encoder.settings@),
                fed: Ghost(encoder.fed@),
                emitted: Ghost(encoder.emitted@),
                flushed: Ghost(encoder.flushed@),
            },
        )
    }

    /// Encodes interleaved 16-bit samples as MP3, as `encode_mp3` does, after leaving out
    /// an odd last sample (the encoder reads two samples to a frame). Samples too many
    /// for the output buffer to be sized are refused.
    pub fn encode_mp3_samples(pcm: Vec<i16>, channels: u16, sample_rate: u32, path: &str) -> (r: Result<
        Mp3Stream,
    >)
        ensures
            ({
                let even = pcm@.take(pcm@.len() - pcm@.len() % 2);
                if mp3_buffer_size(even.len()) > usize::MAX {
                    r matches Err(PanaudError::EncodeError { path: Some(p), message: m, suggestion: s })
                        && p@ == path@ && m@ == "MP3 encoding failed: too many samples"@ && s@
                        == "check that the audio data is valid"@
                } else {
                    mp3_outcome(r, even, channels, sample_rate, path@)
                }
            }),
    {
        let mut pcm = pcm;
        let ghost whole = pcm@;
        if pcm.len() % 2 == 1 {
            pcm.pop();
        }
        proof {
            assert(pcm@ =~= whole.take(whole.len() - whole.len() % 2));
        }
        let n = pcm.len();
        if n > usize::MAX - 7200 || n / 4 > usize::MAX - 7200 - n {
            return Err(
                PanaudError::encode(
                    path,
                    "MP3 encoding failed: too many samples".to_owned(),
                    "check that the audio data is valid".to_owned(),
                ),
            );
        }
        CodecRegistry::encode_mp3(&pcm, channels, sample_rate, path)
    }
}


/// The formats the library reports as encodable are exactly those the codec writes,
/// and every extension that `convert --to` offers names such a format.
pub proof fn law_encodable_formats_are_written()
    ensures
        forall|f: AudioFormat| f.spec_can_encode() <==> #[trigger] spec_route(f) is Some,
        forall|i: int|
            0 <= i < encodable_texts(all_formats(), true).len() ==> match spec_format_of_extension(
                #[trigger] encodable_texts(all_formats(), true)[i],
            ) {
                Some(f) => spec_route(f) is Some,
                None => false,
            },
{
    reveal_with_fuel(encodable_texts, 6);
    let fs = all_formats();
    assert(fs.drop_last() =~= seq![AudioFormat::Wav, AudioFormat::Flac, AudioFormat::Mp3, AudioFormat::Ogg]);
    assert(fs.drop_last().drop_last() =~= seq![AudioFormat::Wav, AudioFormat::Flac, AudioFormat::Mp3]);
    assert(fs.drop_last().drop_last().drop_last() =~= seq![AudioFormat::Wav, AudioFormat::Flac]);
    assert(fs.drop_last().drop_last().drop_last().drop_last() =~= seq![AudioFormat::Wav]);
    assert(seq![AudioFormat::Wav].drop_last() =~= Seq::<AudioFormat>::empty());
    let texts = encodable_texts(fs, true);
    assert(texts =~= seq![
        AudioFormat::Wav.spec_extension(),
        AudioFormat::Flac.spec_extension(),
        AudioFormat::Mp3.spec_extension(),
    ]);
    law_extension_round_trip(AudioFormat::Wav);
    law_extension_round_trip(AudioFormat::Flac);
    law_extension_round_trip(AudioFormat::Mp3);
}

} // verus!
