//! Computer-keyboard and MIDI controls of the on-screen piano: octave and
//! velocity keys, pitch-bend and mod-wheel keys, momentary chord voicings,
//! the note a key plays, and the sustain pedal.

use vstd::prelude::*;
use crate::sequencer::VoicingType;

verus! {

/// Octave after a frame's Z (down) and X (up) presses: Z lowers while above
/// 1, then X raises while below 7.
pub open spec fn octave_after_spec(octave: i32, down: bool, up: bool) -> i32 {
    let o1 = if down && octave > 1 {
        octave - 1
    } else {
        octave as int
    };
    (if up && o1 < 7 {
        o1 + 1
    } else {
        o1
    }) as i32
}

pub fn octave_after(octave: i32, down: bool, up: bool) -> (r: i32)
    ensures
        r == octave_after_spec(octave, down, up),
{
    let mut o = octave;
    if down && o > 1 {
        o -= 1;
    }
    if up && o < 7 {
        o += 1;
    }
    o
}

/// Velocity after a frame's C (softer) and V (louder) presses: C takes 10
/// off but never below 10, V adds 10 but never above 127.
pub open spec fn velocity_after_spec(velocity: u8, softer: bool, louder: bool) -> u8 {
    let v1: int = if softer {
        let s: int = if velocity >= 10 {
            velocity - 10
        } else {
            0
        };
        if s < 10 {
            10
        } else {
            s
        }
    } else {
        velocity as int
    };
    (if louder {
        let a: int = if v1 + 10 <= 255 {
            v1 + 10
        } else {
            255
        };
        if a > 127 {
            127
        } else {
            a
        }
    } else {
        v1
    }) as u8
}

pub fn velocity_after(velocity: u8, softer: bool, louder: bool) -> (r: u8)
    ensures
        r == velocity_after_spec(velocity, softer, louder),
{
    let mut v = velocity;
    if softer {
        let s = v.saturating_sub(10);
        v = if s < 10 {
            10
        } else {
            s
        };
    }
    if louder {
        let a = v.saturating_add(10);
        v = if a > 127 {
            127
        } else {
            a
        };
    }
    v
}

/// Pitch bend held with keys 1 (down) and 2 (up): ±2 semitones, 0 when
/// both or neither are held.
pub fn pitch_bend_keys(bend_down: bool, bend_up: bool) -> (r: i8)
    ensures
        r == if bend_down && !bend_up {
            -2
        } else if bend_up && !bend_down {
            2
        } else {
            0
        },
{
    if bend_down && !bend_up {
        -2
    } else if bend_up && !bend_down {
        2
    } else {
        0
    }
}

/// The mod-wheel level after keys 3–8 (levels 0–5): the highest pressed key
/// wins; with none pressed the level stays.
pub open spec fn mod_level_after_spec(level: u8, pressed: Seq<bool>) -> u8
    decreases pressed.len(),
{
    if pressed.len() == 0 {
        level
    } else if pressed.last() {
        (pressed.len() - 1) as u8
    } else {
        mod_level_after_spec(level, pressed.drop_last())
    }
}

pub fn mod_level_after(level: u8, pressed: &[bool; 6]) -> (r: u8)
    ensures
        r == mod_level_after_spec(level, pressed@),
{
    let mut l = level;
    let mut k: usize = 0;
    while k < 6
        invariant
            k <= 6,
            l == mod_level_after_spec(level, pressed@.take(k as int)),
        decreases 6 - k,
    {
        assert(pressed@.take(k + 1).drop_last() =~= pressed@.take(k as int));
        if pressed[k] {
            l = k as u8;
        }
        k += 1;
    }
    assert(pressed@.take(6) =~= pressed@);
    l
}

/// Momentary voicing of the chord keyboard from the held arrow keys: up =
/// first inversion, down = second, right = open, left = full, none = root
/// (checked in that order).
pub fn arrow_voicing(up: bool, down: bool, right: bool, left: bool) -> (r: VoicingType)
    ensures
        r == if up {
            VoicingType::First
        } else if down {
            VoicingType::Second
        } else if right {
            VoicingType::Open
        } else if left {
            VoicingType::Full
        } else {
            VoicingType::Root
        },
{
    if up {
        VoicingType::First
    } else if down {
        VoicingType::Second
    } else if right {
        VoicingType::Open
    } else if left {
        VoicingType::Full
    } else {
        VoicingType::Root
    }
}

/// The MIDI note of a piano key: `semitone` above C of `octave`, truncated
/// to a byte as the app stores it.
pub fn key_note(octave: i32, semitone: i32) -> (r: u8)
    requires
        i32::MIN <= octave * 12 <= i32::MAX,
        i32::MIN <= octave * 12 + semitone <= i32::MAX,
    ensures
        r == (octave * 12 + semitone) as u8,
{
    (octave * 12 + semitone) as u8
}

/// What a sustain-pedal controller value (CC 64) does to the freeze state:
/// the new freeze flag, and whether the frozen notes are released now.
pub fn sustain_pedal(freeze: bool, value: u8) -> (r: (bool, bool))
    ensures
        r == if value >= 64 {
            (true, false)
        } else if freeze {
            (false, true)
        } else {
            (false, false)
        },
{
    let pedal_down = value >= 64;
    if pedal_down && !freeze {
        (true, false)
    } else if !pedal_down && freeze {
        (false, true)
    } else {
        (freeze, false)
    }
}

/// The octave and velocity keys keep the piano within octaves 1–7 and
/// velocities 10–127.
pub proof fn lemma_piano_controls_in_range(
    octave: i32,
    velocity: u8,
    down: bool,
    up: bool,
    softer: bool,
    louder: bool,
)
    requires
        1 <= octave <= 7,
        10 <= velocity <= 127,
    ensures
        1 <= octave_after_spec(octave, down, up) <= 7,
        10 <= velocity_after_spec(velocity, softer, louder) <= 127,
{
}

} // verus!
