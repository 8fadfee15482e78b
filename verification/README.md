# vti

A verified library for Vortex Tracker II: the data model of AY-3-8910 /
YM2149F tracker modules, the readers of the tracker file formats, the PT3
and VTM writers, the ZX Spectrum export containers, the playback engine and
the AY chip emulator, written in Verus with contracts that state what each
function computes.

## Layout

- `src/types.rs` — modules, patterns, samples, ornaments, positions.
- `src/chip.rs` — the AY/YM chip: registers, tone, noise and envelope
  generators, one clock step, the mixer.
- `src/playback.rs` — the tracker engine: pattern lines, samples, ornaments
  and effects turned into chip registers.
- `src/formats/` — readers for PT3, PT2, PT1, STC, STP, SQT, ASC, GTR, FLS,
  ZXAY and VTM; the PT3 and VTM writers; the ZX export (Hobeta, SCL, TAP,
  AY files).
- `src/editor.rs`, `src/util.rs`, `src/note_tables.rs` — editing helpers,
  text fields and note tables.
- `src/player.rs`, `src/synth.rs`, `src/render.rs` — the sample ring
  buffer, the output samples and interpolation, and the renderer: the chips
  clocked and mixed, the FIR low-pass filter and the decimation to the audio
  rate.
- `app/` — audio output, the floating-point level tables, filter
  coefficients and timing of the configuration, serde
  copies of the data types, and the ZX export with the player binary read
  from disk.
- `tests/` — tests run against the compiled library.
