# forma

The music logic of the Forma synthesizer as a Verus-verified Rust library,
with a small command-line host.

- `src/sequencer.rs` — scales, diatonic chords, chord types, voicings and
  voice leading, the note and chord sequencer patterns, the chord keyboard,
  clock divisions and Euclidean rhythms.
- `src/seq_clock.rs` — what the sequencer thread does at each tick: step
  timing with humanisation, playhead advance, probability rolls, gate length.
- `src/history.rs` — the two-layer patch history (rolling auto snapshots and
  named pins).
- `src/pattern_library.rs` — the bundled chord progressions and melodies.
- `src/transport.rs` — sync and restart decisions, MIDI routing across the
  live rig's tracks, mute/solo and drum step masks.
- `src/keys.rs` — the piano's control keys: octave and velocity steps,
  pitch-bend and mod-wheel keys, arrow-key voicings, the note a key plays
  and the sustain pedal.
- `src/live_input.rs` — what the computer keyboard plays each frame: which
  piano notes start and stop, the Space freeze and its frozen notes, the
  chord pads with their momentary voicings, and the chord sequencer's live
  transposition.
- `src/drum_lanes.rs` — drum pattern edits: reverse, randomise, copy, paste
  and clear.
- `src/ui.rs`, `src/panels.rs`, `src/scene.rs`, `src/eq.rs`, `src/text.rs` —
  note names, piano keys, dock tabs, panel visibility, scene defaults and
  where a saved scene goes, EQ band layout, decimal text.

`app/` holds what is not verified: disk persistence (JSON via serde), the
sequencer thread with its sleeps and locks, the drum machine's float
parameters, the EQ's biquad filters, and the frame loop that reads the
computer keyboard and sends the library's note events to the engine.
