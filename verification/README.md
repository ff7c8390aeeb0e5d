# panaud

An audio processing library and command line: trimming, fading, channel layout
changes, splitting, joining, format conversion, volume, normalization and resampling,
with structured errors, dry runs, parameter schemas and a capability report.

## Layout

- `src/` — the verified library (Verus). Time parsing, frame arithmetic, the channel,
  fade, trim, split and join operations on interleaved samples, format detection,
  parameter schemas, the decisions the commands make about paths and formats, their
  reports, and FLAC and MP3 encoding of integer samples (through `flacenc` and LAME).
  Every public function states its result in `requires`/`ensures`; the `law_*` proof
  functions state what holds across functions.
- `app/` — the `panaud` program: argument parsing (clap), decoding (symphonia), WAV
  writing (hound), resampling (rubato), the operations on floating-point samples
  (volume, normalization, gains, mixing), file I/O and output.
- `tests/` — tests of the library.
