//! Static preset libraries for the note and chord sequencers.
//!
//! All presets are key-agnostic:
//!   HarmonyPreset — degrees 0–6 (loaded into ChordSeqState; root/scale set by user)
//!   MelodyPreset  — semitone offsets from C4; transposed by user's current octave on load

use vstd::prelude::*;
use crate::sequencer::{ChordSeqState, ChordType, NoteSeqState};
use crate::text::str_equal;

verus! {

// ---------------------------------------------------------------------------
// Harmony (chord) presets
// ---------------------------------------------------------------------------

pub struct HarmonyPreset {
    pub name: &'static str,
    pub category: &'static str,
    pub length: usize,
    /// Scale degrees, 0–6 (I–VII).  Must have exactly `length` entries.
    pub degrees: &'static [usize],
}

/// The harmony library: (name, category, degrees) of each preset, in
/// menu order.
pub open spec fn harmony_table() -> Seq<(Seq<char>, Seq<char>, Seq<usize>)> {
    seq![
        ("I – V – vi – IV"@, "Pop"@, seq![0usize, 4, 5, 3]),
        ("I – vi – IV – V"@, "Pop"@, seq![0usize, 5, 3, 4]),
        ("I – IV – V – I"@, "Pop"@, seq![0usize, 3, 4, 0]),
        ("I–V–vi–IV (8)"@, "Pop"@, seq![0usize, 0, 4, 4, 5, 5, 3, 3]),
        ("IV – I – V – vi"@, "Pop"@, seq![3usize, 0, 4, 5]),
        ("ii – V – I"@, "Jazz"@, seq![1usize, 1, 4, 0]),
        ("I – VI – ii – V"@, "Jazz"@, seq![0usize, 5, 1, 4]),
        ("iii – VI – ii – V"@, "Jazz"@, seq![2usize, 5, 1, 4]),
        ("I – IV – iii – VI"@, "Jazz"@, seq![0usize, 3, 2, 5]),
        ("ii–V–I–VI (8)"@, "Jazz"@, seq![1usize, 1, 4, 4, 0, 0, 5, 5]),
        ("12-bar Blues"@, "Blues"@, seq![0usize, 0, 0, 0, 3, 3, 0, 0, 4, 3, 0, 4]),
        ("8-bar Blues"@, "Blues"@, seq![0usize, 0, 3, 0, 4, 3, 0, 4]),
        ("Blues Turnaround"@, "Blues"@, seq![0usize, 3, 4, 3]),
        ("i – VII – VI – VII"@, "Modal"@, seq![0usize, 6, 5, 6]),
        ("i – VI – III – VII"@, "Modal"@, seq![0usize, 5, 2, 6]),
        ("I – II – IV – I"@, "Modal"@, seq![0usize, 1, 3, 0]),
        ("Andalusian Cadence"@, "Modal"@, seq![5usize, 4, 3, 4]),
        ("i – iv – i – V"@, "Modal"@, seq![0usize, 3, 0, 4]),
        ("I – V – I – IV"@, "Ambient"@, seq![0usize, 4, 0, 3]),
        ("IV – V – iii – vi"@, "Ambient"@, seq![3usize, 4, 2, 5]),
        ("I (pedal, 8)"@, "Ambient"@, seq![0usize, 0, 0, 0, 0, 0, 0, 0]),
        ("I – IV (drone)"@, "Ambient"@, seq![0usize, 0, 3, 3]),
    ]
}

/// The bundled chord progressions.
pub fn harmony_presets() -> (r: Vec<HarmonyPreset>)
    ensures
        r@.len() == harmony_table().len(),
        forall|i: int|
            0 <= i < r@.len() ==> {
                &&& (#[trigger] r@[i]).name@ == harmony_table()[i].0
                &&& r@[i].category@ == harmony_table()[i].1
                &&& r@[i].degrees@ == harmony_table()[i].2
                &&& r@[i].length == harmony_table()[i].2.len()
            },
{
    let r = vec![
        HarmonyPreset { name: "I – V – vi – IV", category: "Pop", length: 4, degrees: &[0, 4, 5, 3] },
        HarmonyPreset { name: "I – vi – IV – V", category: "Pop", length: 4, degrees: &[0, 5, 3, 4] },
        HarmonyPreset { name: "I – IV – V – I", category: "Pop", length: 4, degrees: &[0, 3, 4, 0] },
        HarmonyPreset { name: "I–V–vi–IV (8)", category: "Pop", length: 8, degrees: &[0, 0, 4, 4, 5, 5, 3, 3] },
        HarmonyPreset { name: "IV – I – V – vi", category: "Pop", length: 4, degrees: &[3, 0, 4, 5] },
        HarmonyPreset { name: "ii – V – I", category: "Jazz", length: 4, degrees: &[1, 1, 4, 0] },
        HarmonyPreset { name: "I – VI – ii – V", category: "Jazz", length: 4, degrees: &[0, 5, 1, 4] },
        HarmonyPreset { name: "iii – VI – ii – V", category: "Jazz", length: 4, degrees: &[2, 5, 1, 4] },
        HarmonyPreset { name: "I – IV – iii – VI", category: "Jazz", length: 4, degrees: &[0, 3, 2, 5] },
        HarmonyPreset { name: "ii–V–I–VI (8)", category: "Jazz", length: 8, degrees: &[1, 1, 4, 4, 0, 0, 5, 5] },
        HarmonyPreset { name: "12-bar Blues", category: "Blues", length: 12, degrees: &[0, 0, 0, 0, 3, 3, 0, 0, 4, 3, 0, 4] },
        HarmonyPreset { name: "8-bar Blues", category: "Blues", length: 8, degrees: &[0, 0, 3, 0, 4, 3, 0, 4] },
        HarmonyPreset { name: "Blues Turnaround", category: "Blues", length: 4, degrees: &[0, 3, 4, 3] },
        HarmonyPreset { name: "i – VII – VI – VII", category: "Modal", length: 4, degrees: &[0, 6, 5, 6] },
        HarmonyPreset { name: "i – VI – III – VII", category: "Modal", length: 4, degrees: &[0, 5, 2, 6] },
        HarmonyPreset { name: "I – II – IV – I", category: "Modal", length: 4, degrees: &[0, 1, 3, 0] },
        HarmonyPreset { name: "Andalusian Cadence", category: "Modal", length: 4, degrees: &[5, 4, 3, 4] },
        HarmonyPreset { name: "i – iv – i – V", category: "Modal", length: 4, degrees: &[0, 3, 0, 4] },
        HarmonyPreset { name: "I – V – I – IV", category: "Ambient", length: 4, degrees: &[0, 4, 0, 3] },
        HarmonyPreset { name: "IV – V – iii – vi", category: "Ambient", length: 4, degrees: &[3, 4, 2, 5] },
        HarmonyPreset { name: "I (pedal, 8)", category: "Ambient", length: 8, degrees: &[0, 0, 0, 0, 0, 0, 0, 0] },
        HarmonyPreset { name: "I – IV (drone)", category: "Ambient", length: 4, degrees: &[0, 0, 3, 3] },
    ];
    assert(r@.len() == harmony_table().len());
    r
}

/// Load a harmony preset into `state`.  Degrees wrap to 0–6; chord types reset to Triad.
pub fn apply_harmony(state: &mut ChordSeqState, preset: &HarmonyPreset)
    requires
        preset.length <= 24,
        preset.length <= preset.degrees@.len(),
    ensures
        final(state).length == preset.length,
        forall|i: int| 0 <= i < 24 ==> #[trigger] final(state).steps@[i] == (i < preset.length),
        forall|i: int|
            0 <= i < 24 ==> #[trigger] final(state).degrees@[i] == if i < preset.length {
                preset.degrees@[i] % 7
            } else {
                old(state).degrees@[i]
            },
        forall|i: int|
            0 <= i < 24 ==> #[trigger] final(state).chord_types@[i] == if i < preset.length {
                ChordType::Triad
            } else {
                old(state).chord_types@[i]
            },
        forall|i: int|
            0 <= i < 24 ==> #[trigger] final(state).octave_offsets@[i] == if i < preset.length {
                0
            } else {
                old(state).octave_offsets@[i]
            },
        forall|i: int|
            0 <= i < 24 ==> #[trigger] final(state).velocities@[i] == if i < preset.length {
                100
            } else {
                old(state).velocities@[i]
            },
        forall|i: int|
            0 <= i < 24 ==> #[trigger] final(state).probabilities@[i] == if i < preset.length {
                100
            } else {
                old(state).probabilities@[i]
            },
        final(state).voicings == old(state).voicings,
        final(state).root == old(state).root,
        final(state).scale == old(state).scale,
        final(state).octave == old(state).octave,
        final(state).voice_lead == old(state).voice_lead,
{
    state.length = preset.length;
    let mut i: usize = 0;
    while i < 24
        invariant
            preset.length <= 24,
            preset.length <= preset.degrees@.len(),
            i <= 24,
            state.length == preset.length,
            forall|j: int|
                0 <= j < 24 ==> #[trigger] state.steps@[j] == if j < i {
                    j < preset.length
                } else {
                    old(state).steps@[j]
                },
            forall|j: int|
                0 <= j < 24 ==> #[trigger] state.degrees@[j] == if j < i && j < preset.length {
                    preset.degrees@[j] % 7
                } else {
                    old(state).degrees@[j]
                },
            forall|j: int|
                0 <= j < 24 ==> #[trigger] state.chord_types@[j] == if j < i && j < preset.length {
                    ChordType::Triad
                } else {
                    old(state).chord_types@[j]
                },
            forall|j: int|
                0 <= j < 24 ==> #[trigger] state.octave_offsets@[j] == if j < i && j < preset.length {
                    0
                } else {
                    old(state).octave_offsets@[j]
                },
            forall|j: int|
                0 <= j < 24 ==> #[trigger] state.velocities@[j] == if j < i && j < preset.length {
                    100
                } else {
                    old(state).velocities@[j]
                },
            forall|j: int|
                0 <= j < 24 ==> #[trigger] state.probabilities@[j] == if j < i && j < preset.length {
                    100
                } else {
                    old(state).probabilities@[j]
                },
            state.voicings == old(state).voicings,
            state.root == old(state).root,
            state.scale == old(state).scale,
            state.octave == old(state).octave,
            state.voice_lead == old(state).voice_lead,
        decreases 24 - i,
    {
        if i < preset.length {
            state.steps[i] = true;
            state.degrees[i] = preset.degrees[i] % 7;
            state.chord_types[i] = ChordType::Triad;
            state.octave_offsets[i] = 0;
            state.velocities[i] = 100;
            state.probabilities[i] = 100;
        } else {
            state.steps[i] = false;
        }
        i += 1;
    }
}

// ---------------------------------------------------------------------------
// Melody (note) presets
// ---------------------------------------------------------------------------

pub struct MelodyPreset {
    pub name: &'static str,
    pub category: &'static str,
    pub length: usize,
    /// Semitone offsets from C4 (MIDI 60).  Must have exactly `length` entries.
    pub notes: &'static [i8],
    /// Which steps are active.  Must have exactly `length` entries.
    pub active: &'static [bool],
}

/// The melody library: (name, category, notes, active steps) of each
/// preset, in menu order.
pub open spec fn melody_table() -> Seq<(Seq<char>, Seq<char>, Seq<i8>, Seq<bool>)> {
    seq![
        ("Major Triad Up/Down"@, "Arpeggio"@, seq![0i8, 4, 7, 12, 7, 4, 0, -12i8], seq![true, true, true, true, true, true, true, true]),
        ("Minor Triad Roll"@, "Arpeggio"@, seq![0i8, 3, 7, 12, 7, 3, 0, -12i8], seq![true, true, true, true, true, true, true, true]),
        ("Dom7 Arpeggio"@, "Arpeggio"@, seq![0i8, 4, 7, 10, 12, 10, 7, 4], seq![true, true, true, true, true, true, true, true]),
        ("Broken Triad"@, "Arpeggio"@, seq![0i8, 7, 4, 12, 0, 7, 4, 12], seq![true, true, true, true, true, true, true, true]),
        ("Maj7 Cascade"@, "Arpeggio"@, seq![0i8, 4, 7, 11, 12, 11, 7, 4], seq![true, true, true, true, true, true, true, true]),
        ("Major Scale Up"@, "Scale Run"@, seq![0i8, 2, 4, 5, 7, 9, 11, 12], seq![true, true, true, true, true, true, true, true]),
        ("Major Scale Down"@, "Scale Run"@, seq![12i8, 11, 9, 7, 5, 4, 2, 0], seq![true, true, true, true, true, true, true, true]),
        ("Pentatonic Up"@, "Scale Run"@, seq![0i8, 2, 4, 7, 9, 12, 9, 7], seq![true, true, true, true, true, true, true, true]),
        ("Minor Pentatonic Riff"@, "Scale Run"@, seq![0i8, 3, 5, 7, 10, 7, 5, 3], seq![true, true, true, true, true, true, true, true]),
        ("Ascending Thirds"@, "Scale Run"@, seq![0i8, 4, 2, 5, 4, 7, 5, 9], seq![true, true, true, true, true, true, true, true]),
        ("Walking Bass"@, "Bass"@, seq![-12i8, -10i8, -8i8, -7i8, -5i8, -7i8, -8i8, -10i8], seq![true, true, true, true, true, true, true, true]),
        ("Octave Pump"@, "Bass"@, seq![-12i8, -12i8, 0, -12i8, -12i8, 0, -12i8, 0], seq![true, true, false, true, true, false, true, false]),
        ("Alberti Bass"@, "Bass"@, seq![-12i8, -5i8, -8i8, -5i8, -12i8, -5i8, -8i8, -5i8], seq![true, true, true, true, true, true, true, true]),
        ("Blues Bass Riff"@, "Bass"@, seq![-12i8, -12i8, -9i8, -12i8, -7i8, -6i8, -5i8, -7i8], seq![true, true, true, true, true, true, true, true]),
        ("Call & Response"@, "Motif"@, seq![0i8, 4, 7, 12, 0, 7, 5, 4], seq![true, true, true, true, false, true, true, true]),
        ("Descending Hook"@, "Motif"@, seq![12i8, 9, 7, 5, 4, 2, 0, -3i8], seq![true, true, true, true, true, true, true, true]),
        ("Blues Lick"@, "Motif"@, seq![0i8, 3, 5, 6, 7, 5, 3, 0], seq![true, true, true, true, true, true, true, true]),
        ("Ostinato"@, "Motif"@, seq![0i8, 0, 7, 0, 0, 7, 5, 7], seq![true, true, true, true, true, true, true, true]),
        ("Syncopated Riff"@, "Motif"@, seq![0i8, 5, 7, 5, 3, 5, 7, 12], seq![true, false, true, true, false, true, true, true]),
        ("Triad Bounce"@, "Motif"@, seq![0i8, 4, 7, 4, 0, 4, 7, 4], seq![true, true, true, true, true, true, true, true]),
    ]
}

/// The bundled melodies.
pub fn melody_presets() -> (r: Vec<MelodyPreset>)
    ensures
        r@.len() == melody_table().len(),
        forall|i: int|
            0 <= i < r@.len() ==> {
                &&& (#[trigger] r@[i]).name@ == melody_table()[i].0
                &&& r@[i].category@ == melody_table()[i].1
                &&& r@[i].notes@ == melody_table()[i].2
                &&& r@[i].active@ == melody_table()[i].3
                &&& r@[i].length == melody_table()[i].2.len()
            },
{
    let r = vec![
        MelodyPreset { name: "Major Triad Up/Down", category: "Arpeggio", length: 8, notes: &[0, 4, 7, 12, 7, 4, 0, -12], active: &[true, true, true, true, true, true, true, true] },
        MelodyPreset { name: "Minor Triad Roll", category: "Arpeggio", length: 8, notes: &[0, 3, 7, 12, 7, 3, 0, -12], active: &[true, true, true, true, true, true, true, true] },
        MelodyPreset { name: "Dom7 Arpeggio", category: "Arpeggio", length: 8, notes: &[0, 4, 7, 10, 12, 10, 7, 4], active: &[true, true, true, true, true, true, true, true] },
        MelodyPreset { name: "Broken Triad", category: "Arpeggio", length: 8, notes: &[0, 7, 4, 12, 0, 7, 4, 12], active: &[true, true, true, true, true, true, true, true] },
        MelodyPreset { name: "Maj7 Cascade", category: "Arpeggio", length: 8, notes: &[0, 4, 7, 11, 12, 11, 7, 4], active: &[true, true, true, true, true, true, true, true] },
        MelodyPreset { name: "Major Scale Up", category: "Scale Run", length: 8, notes: &[0, 2, 4, 5, 7, 9, 11, 12], active: &[true, true, true, true, true, true, true, true] },
        MelodyPreset { name: "Major Scale Down", category: "Scale Run", length: 8, notes: &[12, 11, 9, 7, 5, 4, 2, 0], active: &[true, true, true, true, true, true, true, true] },
        MelodyPreset { name: "Pentatonic Up", category: "Scale Run", length: 8, notes: &[0, 2, 4, 7, 9, 12, 9, 7], active: &[true, true, true, true, true, true, true, true] },
        MelodyPreset { name: "Minor Pentatonic Riff", category: "Scale Run", length: 8, notes: &[0, 3, 5, 7, 10, 7, 5, 3], active: &[true, true, true, true, true, true, true, true] },
        MelodyPreset { name: "Ascending Thirds", category: "Scale Run", length: 8, notes: &[0, 4, 2, 5, 4, 7, 5, 9], active: &[true, true, true, true, true, true, true, true] },
        MelodyPreset { name: "Walking Bass", category: "Bass", length: 8, notes: &[-12, -10, -8, -7, -5, -7, -8, -10], active: &[true, true, true, true, true, true, true, true] },
        MelodyPreset { name: "Octave Pump", category: "Bass", length: 8, notes: &[-12, -12, 0, -12, -12, 0, -12, 0], active: &[true, true, false, true, true, false, true, false] },
        MelodyPreset { name: "Alberti Bass", category: "Bass", length: 8, notes: &[-12, -5, -8, -5, -12, -5, -8, -5], active: &[true, true, true, true, true, true, true, true] },
        MelodyPreset { name: "Blues Bass Riff", category: "Bass", length: 8, notes: &[-12, -12, -9, -12, -7, -6, -5, -7], active: &[true, true, true, true, true, true, true, true] },
        MelodyPreset { name: "Call & Response", category: "Motif", length: 8, notes: &[0, 4, 7, 12, 0, 7, 5, 4], active: &[true, true, true, true, false, true, true, true] },
        MelodyPreset { name: "Descending Hook", category: "Motif", length: 8, notes: &[12, 9, 7, 5, 4, 2, 0, -3], active: &[true, true, true, true, true, true, true, true] },
        MelodyPreset { name: "Blues Lick", category: "Motif", length: 8, notes: &[0, 3, 5, 6, 7, 5, 3, 0], active: &[true, true, true, true, true, true, true, true] },
        MelodyPreset { name: "Ostinato", category: "Motif", length: 8, notes: &[0, 0, 7, 0, 0, 7, 5, 7], active: &[true, true, true, true, true, true, true, true] },
        MelodyPreset { name: "Syncopated Riff", category: "Motif", length: 8, notes: &[0, 5, 7, 5, 3, 5, 7, 12], active: &[true, false, true, true, false, true, true, true] },
        MelodyPreset { name: "Triad Bounce", category: "Motif", length: 8, notes: &[0, 4, 7, 4, 0, 4, 7, 4], active: &[true, true, true, true, true, true, true, true] },
    ];
    assert(r@.len() == melody_table().len());
    r
}

/// A note of a melody preset moved to `base_midi`, kept within the 88-key
/// range 21–108.
pub open spec fn melody_note(base_midi: u8, offset: i8) -> u8 {
    let m = base_midi + offset;
    if m < 21 {
        21
    } else if m > 108 {
        108
    } else {
        m as u8
    }
}

/// Load a melody preset into `state`, transposed so C4 maps to `base_midi`.
pub fn apply_melody(state: &mut NoteSeqState, preset: &MelodyPreset, base_midi: u8)
    requires
        preset.length <= 24,
        preset.length <= preset.notes@.len(),
        preset.length <= preset.active@.len(),
    ensures
        final(state).length == preset.length,
        forall|i: int|
            0 <= i < 24 ==> #[trigger] final(state).steps@[i] == if i < preset.length {
                preset.active@[i]
            } else {
                false
            },
        forall|i: int|
            0 <= i < 24 ==> #[trigger] final(state).notes@[i] == if i < preset.length {
                melody_note(base_midi, preset.notes@[i])
            } else {
                old(state).notes@[i]
            },
        forall|i: int|
            0 <= i < 24 ==> #[trigger] final(state).velocities@[i] == if i < preset.length {
                100
            } else {
                old(state).velocities@[i]
            },
        forall|i: int|
            0 <= i < 24 ==> #[trigger] final(state).probabilities@[i] == if i < preset.length {
                100
            } else {
                old(state).probabilities@[i]
            },
{
    let base = base_midi as i32;
    state.length = preset.length;
    let mut i: usize = 0;
    while i < 24
        invariant
            preset.length <= 24,
            preset.length <= preset.notes@.len(),
            preset.length <= preset.active@.len(),
            base == base_midi,
            i <= 24,
            state.length == preset.length,
            forall|j: int|
                0 <= j < 24 ==> #[trigger] state.steps@[j] == if j < i {
                    if j < preset.length {
                        preset.active@[j]
                    } else {
                        false
                    }
                } else {
                    old(state).steps@[j]
                },
            forall|j: int|
                0 <= j < 24 ==> #[trigger] state.notes@[j] == if j < i && j < preset.length {
                    melody_note(base_midi, preset.notes@[j])
                } else {
                    old(state).notes@[j]
                },
            forall|j: int|
                0 <= j < 24 ==> #[trigger] state.velocities@[j] == if j < i && j < preset.length {
                    100
                } else {
                    old(state).velocities@[j]
                },
            forall|j: int|
                0 <= j < 24 ==> #[trigger] state.probabilities@[j] == if j < i && j < preset.length {
                    100
                } else {
                    old(state).probabilities@[j]
                },
        decreases 24 - i,
    {
        if i < preset.length {
            state.steps[i] = preset.active[i];
            let m = base + preset.notes[i] as i32;
            let midi: u8 = if m < 21 {
                21
            } else if m > 108 {
                108
            } else {
                m as u8
            };
            state.notes[i] = midi;
            state.velocities[i] = 100;
            state.probabilities[i] = 100;
        } else {
            state.steps[i] = false;
        }
        i += 1;
    }
}

/// `s` without repeats: each value at its first occurrence, in order.
pub open spec fn first_occurrences(s: Seq<Seq<char>>) -> Seq<Seq<char>>
    decreases s.len(),
{
    if s.len() == 0 {
        s
    } else {
        let d = first_occurrences(s.drop_last());
        if d.contains(s.last()) {
            d
        } else {
            d.push(s.last())
        }
    }
}

/// Whether `v` holds a string equal to `x`.
fn contains_str(v: &Vec<&'static str>, x: &str) -> (r: bool)
    ensures
        r == v@.map_values(|c: &'static str| c@).contains(x@),
{
    let mut i: usize = 0;
    while i < v.len()
        invariant
            i <= v@.len(),
            forall|j: int| 0 <= j < i ==> v@[j]@ != x@,
        decreases v@.len() - i,
    {
        if str_equal(v[i], x) {
            assert(v@.map_values(|c: &'static str| c@)[i as int] == x@);
            return true;
        }
        i += 1;
    }
    proof {
        if v@.map_values(|c: &'static str| c@).contains(x@) {
            let m = v@.map_values(|c: &'static str| c@);
            let j = choose|j: int| 0 <= j < m.len() && #[trigger] m[j] == x@;
            assert(v@[j]@ == x@);
        }
    }
    false
}

/// The distinct categories among `cats`, in order of first appearance.
fn distinct_categories(cats: Vec<&'static str>) -> (r: Vec<&'static str>)
    ensures
        r@.map_values(|c: &'static str| c@) == first_occurrences(
            cats@.map_values(|c: &'static str| c@),
        ),
{
    let ghost all = cats@.map_values(|c: &'static str| c@);
    let mut out: Vec<&'static str> = Vec::new();
    let mut i: usize = 0;
    assert(all.take(0) =~= Seq::<Seq<char>>::empty());
    while i < cats.len()
        invariant
            i <= cats@.len(),
            all == cats@.map_values(|c: &'static str| c@),
            out@.map_values(|c: &'static str| c@) == first_occurrences(all.take(i as int)),
        decreases cats@.len() - i,
    {
        let c = cats[i];
        let seen = contains_str(&out, c);
        if !seen {
            out.push(c);
        }
        assert(all.take(i + 1).drop_last() =~= all.take(i as int));
        assert(all.take(i + 1).last() == c@);
        assert(out@.map_values(|c: &'static str| c@) =~= first_occurrences(all.take(i + 1)));
        i += 1;
    }
    assert(all.take(cats@.len() as int) =~= all);
    out
}

/// Unique category names for harmony presets (in declaration order, deduplicated).
pub fn harmony_categories() -> (r: Vec<&'static str>)
    ensures
        r@.map_values(|c: &'static str| c@) == first_occurrences(
            harmony_table().map_values(|e: (Seq<char>, Seq<char>, Seq<usize>)| e.1),
        ),
{
    let presets = harmony_presets();
    let ghost t = harmony_table();
    let mut cats: Vec<&'static str> = Vec::new();
    let mut i: usize = 0;
    while i < presets.len()
        invariant
            i <= presets@.len(),
            t == harmony_table(),
            presets@.len() == t.len(),
            forall|j: int| 0 <= j < presets@.len() ==> (#[trigger] presets@[j]).category@ == t[j].1,
            cats@.len() == i,
            forall|j: int| 0 <= j < i ==> (#[trigger] cats@[j])@ == t[j].1,
        decreases presets@.len() - i,
    {
        cats.push(presets[i].category);
        i += 1;
    }
    assert(cats@.map_values(|c: &'static str| c@) =~= t.map_values(|e: (Seq<char>, Seq<char>, Seq<usize>)| e.1));
    distinct_categories(cats)
}

/// Unique category names for melody presets.
pub fn melody_categories() -> (r: Vec<&'static str>)
    ensures
        r@.map_values(|c: &'static str| c@) == first_occurrences(
            melody_table().map_values(|e: (Seq<char>, Seq<char>, Seq<i8>, Seq<bool>)| e.1),
        ),
{
    let presets = melody_presets();
    let ghost t = melody_table();
    let mut cats: Vec<&'static str> = Vec::new();
    let mut i: usize = 0;
    while i < presets.len()
        invariant
            i <= presets@.len(),
            t == melody_table(),
            presets@.len() == t.len(),
            forall|j: int| 0 <= j < presets@.len() ==> (#[trigger] presets@[j]).category@ == t[j].1,
            cats@.len() == i,
            forall|j: int| 0 <= j < i ==> (#[trigger] cats@[j])@ == t[j].1,
        decreases presets@.len() - i,
    {
        cats.push(presets[i].category);
        i += 1;
    }
    assert(cats@.map_values(|c: &'static str| c@) =~= t.map_values(|e: (Seq<char>, Seq<char>, Seq<i8>, Seq<bool>)| e.1));
    distinct_categories(cats)
}

/// The category list holds no name twice, and every category of the
/// library appears in it.
pub proof fn lemma_first_occurrences_distinct(s: Seq<Seq<char>>)
    ensures
        forall|i: int, j: int|
            0 <= i < j < first_occurrences(s).len() ==> first_occurrences(s)[i] != first_occurrences(s)[j],
        forall|k: int| 0 <= k < s.len() ==> first_occurrences(s).contains(#[trigger] s[k]),
        forall|k: int| 0 <= k < first_occurrences(s).len() ==> s.contains(#[trigger] first_occurrences(s)[k]),
    decreases s.len(),
{
    if s.len() > 0 {
        let p = s.drop_last();
        lemma_first_occurrences_distinct(p);
        let d = first_occurrences(p);
        assert forall|k: int| 0 <= k < s.len() implies first_occurrences(s).contains(#[trigger] s[k]) by {
            if k < s.len() - 1 {
                assert(p[k] == s[k]);
                assert(d.contains(p[k]));
                if !d.contains(s.last()) {
                    let w = choose|w: int| 0 <= w < d.len() && d[w] == p[k];
                    assert(first_occurrences(s)[w] == s[k]);
                }
            } else {
                if !d.contains(s.last()) {
                    assert(first_occurrences(s)[d.len() as int] == s[k]);
                }
            }
        }
        assert forall|k: int| 0 <= k < first_occurrences(s).len() implies s.contains(
            #[trigger] first_occurrences(s)[k],
        ) by {
            if k < d.len() {
                assert(p.contains(d[k]));
                let w = choose|w: int| 0 <= w < p.len() && p[w] == d[k];
                assert(s[w] == d[k]);
            } else {
                assert(s[s.len() - 1] == first_occurrences(s)[k]);
            }
        }
    }
}

} // verus!
