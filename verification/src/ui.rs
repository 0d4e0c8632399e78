//! Small helpers of the user interface: note names, piano keys and the
//! dockable panels.

use vstd::prelude::*;
use crate::sequencer::{note_name, note_name_spec};
use crate::text::{decimal, decimal_spec};

verus! {

/// `x` written in decimal, with a leading '-' when negative.
pub open spec fn signed_text(x: int) -> Seq<char> {
    if x < 0 {
        "-"@ + decimal_spec((-x) as nat)
    } else {
        decimal_spec(x as nat)
    }
}

/// Octave number of a MIDI note (C4 = 60, so note 0 is in octave -1).
pub open spec fn midi_octave(midi: u8) -> int {
    midi / 12 - 1
}

/// MIDI note number → full name with octave, e.g. 60 → "C4".
pub fn midi_note_full(midi: u8) -> (r: String)
    ensures
        r@ == note_name_spec((midi % 12) as int) + signed_text(midi_octave(midi)),
{
    let name = String::from_str(note_name((midi % 12) as usize));
    if midi < 12 {
        let r = name.concat("-1");
        proof {
            reveal_strlit("-1");
            reveal_strlit("-");
            assert("-1"@ =~= signed_text(-1));
        }
        r
    } else {
        let octave = (midi / 12 - 1) as u64;
        let digits = decimal(octave);
        let r = name.concat(digits.as_str());
        r
    }
}

/// Note name (without octave) of a MIDI note.
pub fn midi_note_name(midi: u8) -> (r: &'static str)
    ensures
        r@ == note_name_spec((midi % 12) as int),
{
    note_name((midi % 12) as usize)
}

/// Whether pitch class `pc` is a white key of the piano.
pub open spec fn white_pitch_class(pc: int) -> bool {
    pc == 0 || pc == 2 || pc == 4 || pc == 5 || pc == 7 || pc == 9 || pc == 11
}

/// Returns true if a MIDI note is a white key.
pub fn is_white_key(midi: u8) -> (r: bool)
    ensures
        r == white_pitch_class((midi % 12) as int),
{
    let pc = midi % 12;
    pc == 0 || pc == 2 || pc == 4 || pc == 5 || pc == 7 || pc == 9 || pc == 11
}

/// First and last notes of the 88-key piano: A0 and C8.
pub const PIANO_FIRST_MIDI: u8 = 21;

pub const PIANO_LAST_MIDI: u8 = 108;

/// Number of white keys among MIDI notes `lo` up to (not including) `hi`.
pub open spec fn white_keys_between(lo: int, hi: int) -> nat
    decreases hi - lo,
{
    if hi <= lo {
        0
    } else if white_pitch_class((hi - 1) % 12) {
        white_keys_between(lo, hi - 1) + 1
    } else {
        white_keys_between(lo, hi - 1)
    }
}

/// Count white keys in the 88-key range.
pub fn count_white_keys() -> (r: usize)
    ensures
        r == white_keys_between(PIANO_FIRST_MIDI as int, PIANO_LAST_MIDI + 1),
{
    let mut count: usize = 0;
    let mut m: u8 = PIANO_FIRST_MIDI;
    while m <= PIANO_LAST_MIDI
        invariant
            PIANO_FIRST_MIDI <= m <= PIANO_LAST_MIDI + 1,
            count == white_keys_between(PIANO_FIRST_MIDI as int, m as int),
            count <= m,
        decreases PIANO_LAST_MIDI + 1 - m,
    {
        if is_white_key(m) {
            count += 1;
        }
        m += 1;
    }
    count
}

/// Each dockable panel.
#[derive(Debug, Clone, Copy, PartialEq, Eq, Structural, Hash)]
pub enum Tab {
    Oscillators,
    Modulation,
    Filter,
    Sequencer,
    ArpWalker,
    FxChain,
    Scope,
    Midi,
}

impl Tab {
    pub open spec fn title_spec(self) -> Seq<char> {
        match self {
            Tab::Oscillators => "Oscillators"@,
            Tab::Modulation => "Modulation"@,
            Tab::Filter => "Filter & Envelopes"@,
            Tab::Sequencer => "Sequencer"@,
            Tab::ArpWalker => "Arp & Walker"@,
            Tab::FxChain => "FX Chain"@,
            Tab::Scope => "Oscilloscope"@,
            Tab::Midi => "MIDI & Latency"@,
        }
    }

    /// Title shown on the panel's tab.
    pub fn title(self) -> (r: &'static str)
        ensures
            r@ == self.title_spec(),
    {
        match self {
            Tab::Oscillators => "Oscillators",
            Tab::Modulation => "Modulation",
            Tab::Filter => "Filter & Envelopes",
            Tab::Sequencer => "Sequencer",
            Tab::ArpWalker => "Arp & Walker",
            Tab::FxChain => "FX Chain",
            Tab::Scope => "Oscilloscope",
            Tab::Midi => "MIDI & Latency",
        }
    }

    /// Every panel, in menu order.
    pub fn all() -> (r: &'static [Tab])
        ensures
            r@ == seq![
                Tab::Oscillators,
                Tab::Modulation,
                Tab::Filter,
                Tab::Sequencer,
                Tab::ArpWalker,
                Tab::FxChain,
                Tab::Scope,
                Tab::Midi,
            ],
    {
        &[
            Tab::Oscillators,
            Tab::Modulation,
            Tab::Filter,
            Tab::Sequencer,
            Tab::ArpWalker,
            Tab::FxChain,
            Tab::Scope,
            Tab::Midi,
        ]
    }
}

} // verus!
