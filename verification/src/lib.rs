//! Music-theory and pattern logic of the Forma synthesizer, with its
//! contracts proved by Verus.

pub mod sequencer;
pub mod seq_clock;
pub mod text;
pub mod history;
pub mod ui;
pub mod panels;
pub mod scene;
pub mod pattern_library;
pub mod transport;
pub mod keys;
pub mod live_input;
pub mod drum_lanes;
pub mod eq;
pub mod midi_presets;
