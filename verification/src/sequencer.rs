//! Scales, chords, voicings and the step-sequencer state.

use vstd::prelude::*;

verus! {

/// The scales offered by the chord keyboard and the sequencers.
#[derive(Clone, Copy, PartialEq, Eq, Structural, Debug)]
pub enum ScaleType {
    Major,
    Minor,
    Dorian,
    Pentatonic,
    PentatonicMinor,
}

impl ScaleType {
    pub open spec fn label_spec(self) -> Seq<char> {
        match self {
            ScaleType::Major => "Major"@,
            ScaleType::Minor => "Minor"@,
            ScaleType::Dorian => "Dorian"@,
            ScaleType::Pentatonic => "Pent"@,
            ScaleType::PentatonicMinor => "Pent m"@,
        }
    }

    /// Short display name of the scale.
    pub fn label(self) -> (r: &'static str)
        ensures
            r@ == self.label_spec(),
    {
        match self {
            Self::Major => "Major",
            Self::Minor => "Minor",
            Self::Dorian => "Dorian",
            Self::Pentatonic => "Pent",
            Self::PentatonicMinor => "Pent m",
        }
    }

    /// All variants, in order for UI rendering.
    pub fn all_highlight() -> (r: &'static [ScaleType])
        ensures
            r@ == seq![
                ScaleType::Major,
                ScaleType::Minor,
                ScaleType::Dorian,
                ScaleType::Pentatonic,
                ScaleType::PentatonicMinor,
            ],
    {
        &[
            ScaleType::Major,
            ScaleType::Minor,
            ScaleType::Dorian,
            ScaleType::Pentatonic,
            ScaleType::PentatonicMinor,
        ]
    }
}

/// Semitone offsets (relative to the root) of every tone in the scale.
pub open spec fn scale_tones_spec(scale: ScaleType) -> Seq<u8> {
    match scale {
        ScaleType::Major => seq![0u8, 2, 4, 5, 7, 9, 11],
        ScaleType::Minor => seq![0u8, 2, 3, 5, 7, 8, 10],
        ScaleType::Dorian => seq![0u8, 2, 3, 5, 7, 9, 10],
        ScaleType::Pentatonic => seq![0u8, 2, 4, 7, 9],
        ScaleType::PentatonicMinor => seq![0u8, 3, 5, 7, 10],
    }
}

/// Semitone offsets (relative to root) for every tone in the scale.
pub fn scale_tones(scale: ScaleType) -> (r: &'static [u8])
    ensures
        r@ == scale_tones_spec(scale),
{
    match scale {
        ScaleType::Major => &[0, 2, 4, 5, 7, 9, 11],
        ScaleType::Minor => &[0, 2, 3, 5, 7, 8, 10],
        ScaleType::Dorian => &[0, 2, 3, 5, 7, 9, 10],
        ScaleType::Pentatonic => &[0, 2, 4, 7, 9],
        ScaleType::PentatonicMinor => &[0, 3, 5, 7, 10],
    }
}


/// Semitone intervals for each scale degree (0–6) relative to the root, as
/// used by the chord keyboard. The five-tone scales are padded to seven
/// entries.
pub open spec fn scale_intervals_spec(scale: ScaleType) -> Seq<u8> {
    match scale {
        ScaleType::Major => seq![0u8, 2, 4, 5, 7, 9, 11],
        ScaleType::Minor => seq![0u8, 2, 3, 5, 7, 8, 10],
        ScaleType::Dorian => seq![0u8, 2, 3, 5, 7, 9, 10],
        ScaleType::Pentatonic => seq![0u8, 2, 4, 7, 9, 11, 0],
        ScaleType::PentatonicMinor => seq![0u8, 3, 5, 7, 10, 12, 0],
    }
}

/// Semitone intervals for each scale degree (0–6) relative to root.
/// Only valid for diatonic (7-note) scales used by the chord keyboard.
pub fn scale_intervals(scale: ScaleType) -> (r: [u8; 7])
    ensures
        r@ == scale_intervals_spec(scale),
{
    match scale {
        ScaleType::Major => [0, 2, 4, 5, 7, 9, 11],
        ScaleType::Minor => [0, 2, 3, 5, 7, 8, 10],
        ScaleType::Dorian => [0, 2, 3, 5, 7, 9, 10],
        ScaleType::Pentatonic => [0, 2, 4, 7, 9, 11, 0],
        ScaleType::PentatonicMinor => [0, 3, 5, 7, 10, 12, 0],
    }
}

/// Whether pitch class `pc` belongs to `scale` transposed to `root`.
pub open spec fn in_scale(scale: ScaleType, root: u8, pc: int) -> bool {
    exists|i: int|
        0 <= i < scale_tones_spec(scale).len() && (root + #[trigger] scale_tones_spec(scale)[i])
            % 12 == pc
}

/// Returns a 12-element bool array: `arr[pitch_class]` is true if that pitch class is in the scale.
pub fn scale_pitch_classes(scale: ScaleType, root: u8) -> (arr: [bool; 12])
    ensures
        forall|pc: int| 0 <= pc < 12 ==> arr@[pc] == in_scale(scale, root, pc),
{
    let mut arr = [false; 12];
    let tones = scale_tones(scale);
    let mut k: usize = 0;
    while k < tones.len()
        invariant
            tones@ == scale_tones_spec(scale),
            k <= tones@.len(),
            arr@.len() == 12,
            forall|pc: int|
                0 <= pc < 12 ==> (arr@[pc] <==> exists|i: int|
                    0 <= i < k && (root + #[trigger] scale_tones_spec(scale)[i]) % 12 == pc),
        decreases tones@.len() - k,
    {
        let t = tones[k];
        let pc = ((root as u16 + t as u16) % 12) as usize;
        arr[pc] = true;
        proof {
            assert forall|q: int| 0 <= q < 12 implies (arr@[q] <==> exists|i: int|
                0 <= i < k + 1 && (root + #[trigger] scale_tones_spec(scale)[i]) % 12 == q) by {
                if q == pc {
                    assert(scale_tones_spec(scale)[k as int] == t);
                } else if arr@[q] {
                } else {
                    if exists|i: int|
                        0 <= i < k + 1 && (root + #[trigger] scale_tones_spec(scale)[i]) % 12 == q {
                        let i = choose|i: int|
                            0 <= i < k + 1 && (root + #[trigger] scale_tones_spec(scale)[i]) % 12
                                == q;
                        assert(i != k);
                    }
                }
            }
        }
        k += 1;
    }
    arr
}

/// Roman numeral label for a scale degree (0-indexed).
pub const DEGREE_LABELS: [&'static str; 7] = ["I", "II", "III", "IV", "V", "VI", "VII"];

/// Sharp-spelled pitch-class names, C first.
pub const NOTE_NAMES: [&'static str; 12] = ["C", "C#", "D", "D#", "E", "F", "F#", "G", "G#", "A", "A#", "B"];

/// The three modes of the sequencer panel.
#[derive(Clone, Copy, PartialEq, Eq, Structural, Debug)]
pub enum SeqMode {
    NoteSeq,
    ChordSeq,
    ChordKb,
}

impl SeqMode {
    pub open spec fn code(self) -> u8 {
        match self {
            SeqMode::NoteSeq => 0,
            SeqMode::ChordSeq => 1,
            SeqMode::ChordKb => 2,
        }
    }

    pub open spec fn decode(v: u8) -> SeqMode {
        if v == 1 {
            SeqMode::ChordSeq
        } else if v == 2 {
            SeqMode::ChordKb
        } else {
            SeqMode::NoteSeq
        }
    }

    /// Encodes the mode as a byte, for the sequencer thread's atomic.
    pub fn to_u8(self) -> (r: u8)
        ensures
            r == self.code(),
    {
        match self {
            Self::NoteSeq => 0,
            Self::ChordSeq => 1,
            Self::ChordKb => 2,
        }
    }

    /// Decodes a byte written by `to_u8`; unknown values mean `NoteSeq`.
    pub fn from_u8(v: u8) -> (r: Self)
        ensures
            r == Self::decode(v),
    {
        match v {
            1 => Self::ChordSeq,
            2 => Self::ChordKb,
            _ => Self::NoteSeq,
        }
    }

    pub open spec fn label_spec(self) -> Seq<char> {
        match self {
            SeqMode::NoteSeq => "Note Seq"@,
            SeqMode::ChordSeq => "Chord Seq"@,
            SeqMode::ChordKb => "Chord KB"@,
        }
    }

    pub fn label(self) -> (r: &'static str)
        ensures
            r@ == self.label_spec(),
    {
        match self {
            Self::NoteSeq => "Note Seq",
            Self::ChordSeq => "Chord Seq",
            Self::ChordKb => "Chord KB",
        }
    }
}

/// Every mode survives a round trip through its byte encoding.
pub proof fn lemma_seq_mode_round_trip(m: SeqMode)
    ensures
        SeqMode::decode(m.code()) == m,
{
}

/// Chord quality suffix for each degree: "" major, "m" minor, "°" diminished.
pub open spec fn chord_quality_spec(scale: ScaleType, degree: int) -> Seq<char> {
    let d = degree % 7;
    match scale {
        ScaleType::Major => if d == 1 || d == 2 || d == 5 {
            "m"@
        } else if d == 6 {
            "°"@
        } else {
            ""@
        },
        _ => if d == 0 || d == 3 || d == 4 {
            "m"@
        } else if d == 1 {
            "°"@
        } else {
            ""@
        },
    }
}

/// Number of `true` entries among the first `n` of `s`.
pub open spec fn count_true(s: Seq<bool>, n: int) -> nat
    decreases n,
{
    if n <= 0 {
        0
    } else {
        count_true(s, n - 1) + if s[n - 1] {
            1nat
        } else {
            0nat
        }
    }
}

proof fn lemma_count_true_set(s: Seq<bool>, n: int)
    requires
        0 <= n <= s.len(),
    ensures
        Set::new(|pc: int| 0 <= pc < n && s[pc]).finite(),
        Set::new(|pc: int| 0 <= pc < n && s[pc]).len() == count_true(s, n),
    decreases n,
{
    let cur = Set::new(|pc: int| 0 <= pc < n && s[pc]);
    if n == 0 {
        assert(cur =~= Set::<int>::empty());
    } else {
        let prev = Set::new(|pc: int| 0 <= pc < n - 1 && s[pc]);
        lemma_count_true_set(s, n - 1);
        if s[n - 1] {
            assert(cur =~= prev.insert(n - 1));
            assert(!prev.contains(n - 1));
        } else {
            assert(cur =~= prev);
        }
    }
}

proof fn lemma_scale_tones_increasing(scale: ScaleType)
    ensures
        forall|i: int, j: int|
            0 <= i < j < scale_tones_spec(scale).len() ==> #[trigger] scale_tones_spec(scale)[i]
                < #[trigger] scale_tones_spec(scale)[j] < 12,
{
    let t = scale_tones_spec(scale);
    assert forall|i: int, j: int| 0 <= i < j < t.len() implies #[trigger] t[i] < #[trigger] t[j] < 12 by {
        assert(i == 0 || i == 1 || i == 2 || i == 3 || i == 4 || i == 5);
        assert(j == 1 || j == 2 || j == 3 || j == 4 || j == 5 || j == 6);
    }
}

/// A scale transposed to any root has as many pitch classes as tones: the
/// array of `scale_pitch_classes` has exactly `scale_tones(scale).len()`
/// entries set, because distinct tones land on distinct pitch classes.
pub proof fn lemma_scale_pitch_class_count(scale: ScaleType, root: u8, arr: Seq<bool>)
    requires
        arr.len() == 12,
        forall|pc: int| 0 <= pc < 12 ==> arr[pc] == in_scale(scale, root, pc),
    ensures
        count_true(arr, 12) == scale_tones_spec(scale).len(),
{
    let t = scale_tones_spec(scale);
    let len = t.len() as int;
    let f = |i: int| (root + t[i]) % 12;
    let x = vstd::set_lib::set_int_range(0, len);
    vstd::set_lib::lemma_int_range(0, len);
    lemma_scale_tones_increasing(scale);
    assert forall|i: int, j: int| x.contains(i) && x.contains(j) && #[trigger] f(i) == #[trigger] f(j) implies i == j by {
        if i != j {
            lemma_shifted_mod(t[i] as int, root as int, 12, t[j] as int);
            vstd::arithmetic::div_mod::lemma_fundamental_div_mod_converse_mod(t[i] as int, 12, 0, t[i] as int);
            if i < j {
                assert(t[i] < t[j]);
            } else {
                assert(t[j] < t[i]);
            }
            assert(t[j] + root == root + t[j]);
            assert(t[i] + root == root + t[i]);
        }
    }
    assert(vstd::relations::injective_on(f, x));
    let y = Set::new(|pc: int| 0 <= pc < 12 && arr[pc]);
    assert forall|pc: int| #[trigger] x.map(f).contains(pc) == y.contains(pc) by {
        if x.map(f).contains(pc) {
            let i = choose|i: int| x.contains(i) && f(i) == pc;
            vstd::arithmetic::div_mod::lemma_mod_bound(root + t[i], 12);
            assert(0 <= pc < 12);
            assert(in_scale(scale, root, pc));
        }
        if y.contains(pc) {
            assert(in_scale(scale, root, pc));
            let i = choose|i: int| 0 <= i < t.len() && (root + #[trigger] t[i]) % 12 == pc;
            assert(x.contains(i) && f(i) == pc);
        }
    }
    assert(x.map(f) =~= y);
    vstd::set_lib::lemma_map_size(x, y, f);
    lemma_count_true_set(arr, 12);
}

/// Chord quality suffix for each degree in Major/Minor.
pub fn chord_quality(scale: ScaleType, degree: usize) -> (r: &'static str)
    ensures
        r@ == chord_quality_spec(scale, degree as int),
{
    match scale {
        ScaleType::Major => match degree % 7 {
            0 => "",
            1 => "m",
            2 => "m",
            3 => "",
            4 => "",
            5 => "m",
            6 => "°",
            _ => "",
        },
        ScaleType::Minor | ScaleType::Dorian | ScaleType::Pentatonic | ScaleType::PentatonicMinor =>
            match degree % 7 {
            0 => "m",
            1 => "°",
            2 => "",
            3 => "m",
            4 => "m",
            5 => "",
            6 => "",
            _ => "",
        },
    }
}

/// Sharp-spelled name of pitch class `pc` (0 = C).
pub open spec fn note_name_spec(pc: int) -> Seq<char> {
    if pc == 0 {
        "C"@
    } else if pc == 1 {
        "C#"@
    } else if pc == 2 {
        "D"@
    } else if pc == 3 {
        "D#"@
    } else if pc == 4 {
        "E"@
    } else if pc == 5 {
        "F"@
    } else if pc == 6 {
        "F#"@
    } else if pc == 7 {
        "G"@
    } else if pc == 8 {
        "G#"@
    } else if pc == 9 {
        "A"@
    } else if pc == 10 {
        "A#"@
    } else {
        "B"@
    }
}

/// Sharp-spelled name of a pitch class.
pub fn note_name(pc: usize) -> (r: &'static str)
    requires
        pc < 12,
    ensures
        r@ == note_name_spec(pc as int),
{
    match pc {
        0 => "C",
        1 => "C#",
        2 => "D",
        3 => "D#",
        4 => "E",
        5 => "F",
        6 => "F#",
        7 => "G",
        8 => "G#",
        9 => "A",
        10 => "A#",
        _ => "B",
    }
}

/// Pitch class of the root of the chord on `degree`.
pub open spec fn degree_pitch_class(root: u8, scale: ScaleType, degree: int) -> int {
    (root + scale_intervals_spec(scale)[degree % 7]) % 12
}

/// Display name for a chord: root note + quality (e.g. "Cm", "F", "B°").
pub fn chord_name(root: u8, scale: ScaleType, degree: usize) -> (r: String)
    ensures
        r@ == note_name_spec(degree_pitch_class(root, scale, degree as int)) + chord_quality_spec(
            scale,
            degree as int,
        ),
{
    let intervals = scale_intervals(scale);
    let note_idx = (root as usize + intervals[degree % 7] as usize) % 12;
    let name = String::from_str(note_name(note_idx));
    name.concat(chord_quality(scale, degree))
}


/// A pitch clamped into the MIDI range 0–127.
pub open spec fn clamp_midi(x: int) -> u8 {
    if x < 0 {
        0
    } else if x > 127 {
        127
    } else {
        x as u8
    }
}

/// The arguments for which chord arithmetic around the base pitch
/// `root + 12 × base_oct` (done in `i32`, with the degree in `usize`) cannot
/// overflow.
pub open spec fn base_args_ok(root: u8, degree: usize, base_oct: int) -> bool {
    &&& degree + 4 <= usize::MAX
    &&& i32::MIN <= 12 * base_oct <= i32::MAX
    &&& 12 * ((degree + 4) / 7) <= i32::MAX
    &&& root + 12 * base_oct + 26 + 12 * ((degree + 4) / 7) <= i32::MAX
}

/// Overflow-free arguments for the chord-pad notes, whose base is
/// `root + 12 × octave`.
pub open spec fn pitch_args_ok(root: u8, degree: usize, octave: i32) -> bool {
    base_args_ok(root, degree, octave as int)
}

/// Overflow-free arguments for `chord_notes`, whose base is
/// `root + 12 × (octave + 1)` (C4 = MIDI 60).
pub open spec fn triad_args_ok(root: u8, degree: usize, octave: i32) -> bool {
    base_args_ok(root, degree, octave + 1)
}

/// MIDI pitch (unclamped) of scale degree `d` counted up from the base pitch
/// `root + 12 × base_oct`; degrees of 7 and above wrap into the next octaves.
pub open spec fn scale_pitch(root: u8, scale: ScaleType, d: int, base_oct: int) -> int {
    root + 12 * base_oct + scale_intervals_spec(scale)[d % 7] + 12 * (d / 7)
}

/// The clamped MIDI note of scale degree `d` above `root + 12 × base_oct`.
pub open spec fn scale_note(root: u8, scale: ScaleType, d: int, base_oct: int) -> u8 {
    clamp_midi(scale_pitch(root, scale, d, base_oct))
}

/// MIDI pitch (unclamped) of scale degree `d` of a chord pad in `octave`:
/// the degree's interval above `root + 12 × octave`.
pub open spec fn degree_pitch(root: u8, scale: ScaleType, d: int, octave: i32) -> int {
    scale_pitch(root, scale, d, octave as int)
}

/// The diatonic triad on `degree` above `root + 12 × base_oct`: degrees d,
/// d+2, d+4.
pub open spec fn triad_at(root: u8, scale: ScaleType, degree: int, base_oct: int) -> Seq<u8> {
    seq![
        scale_note(root, scale, degree, base_oct),
        scale_note(root, scale, degree + 2, base_oct),
        scale_note(root, scale, degree + 4, base_oct),
    ]
}

/// The triad of a chord pad in `octave` (base `root + 12 × octave`).
pub open spec fn triad_spec(root: u8, scale: ScaleType, degree: int, octave: i32) -> Seq<u8> {
    triad_at(root, scale, degree, octave as int)
}

fn clamp_to_midi(x: i32) -> (r: u8)
    ensures
        r == clamp_midi(x as int),
{
    if x < 0 {
        0
    } else if x > 127 {
        127
    } else {
        x as u8
    }
}

proof fn lemma_degree_bounds(degree: usize, d: int)
    requires
        degree <= d <= degree + 4,
    ensures
        0 <= d / 7 <= (degree + 4) / 7,
        12 * (d / 7) <= 12 * ((degree + 4) / 7),
{
    assert(0 <= d / 7 <= (degree + 4) / 7) by (nonlinear_arith)
        requires
            0 <= degree <= d <= degree + 4,
    ;
}

/// The note of scale degree `d` above `base` (= root + 12 × base_oct).
fn scale_degree_note(
    base: i32,
    intervals: [u8; 7],
    d: usize,
    Ghost(root): Ghost<u8>,
    Ghost(scale): Ghost<ScaleType>,
    Ghost(degree): Ghost<usize>,
    Ghost(base_oct): Ghost<int>,
) -> (r: u8)
    requires
        base_args_ok(root, degree, base_oct),
        base == root + 12 * base_oct,
        intervals@ == scale_intervals_spec(scale),
        degree <= d <= degree + 4,
    ensures
        r == scale_note(root, scale, d as int, base_oct),
{
    proof {
        lemma_degree_bounds(degree, d as int);
    }
    let oct_bump = (d / 7) as i32;
    let semitone = base + intervals[d % 7] as i32 + oct_bump * 12;
    clamp_to_midi(semitone)
}

/// Compute the 3 MIDI notes for a triad.
/// `root`: MIDI semitone of root (0=C, 1=C#, …).
/// `degree`: 0–6 scale degree.
/// `octave`: base octave (4 = middle octave, so C4 = MIDI 60 when root=0).
pub fn chord_notes(root: u8, scale: ScaleType, degree: usize, octave: i32) -> (r: [u8; 3])
    requires
        triad_args_ok(root, degree, octave),
    ensures
        r@ == triad_at(root, scale, degree as int, octave + 1),
{
    let intervals = scale_intervals(scale);
    let base = root as i32 + (octave + 1) * 12;
    let ghost bo: int = octave + 1;
    let a = scale_degree_note(base, intervals, degree, Ghost(root), Ghost(scale), Ghost(degree), Ghost(bo));
    let b = scale_degree_note(base, intervals, degree + 2, Ghost(root), Ghost(scale), Ghost(degree), Ghost(bo));
    let c = scale_degree_note(base, intervals, degree + 4, Ghost(root), Ghost(scale), Ghost(degree), Ghost(bo));
    let r = [a, b, c];
    assert(r@ =~= triad_at(root, scale, degree as int, octave + 1));
    r
}


/// The semitones from the root to the third and to the fifth of a triad
/// whose quality label is `quality` ("m", "°" or major).
pub open spec fn quality_intervals(quality: Seq<char>) -> (int, int) {
    if quality == "m"@ {
        (3, 7)
    } else if quality == "°"@ {
        (3, 6)
    } else {
        (4, 7)
    }
}

/// In a major or minor key, the triad `chord_notes` builds on a degree
/// rises from root to third to fifth, and its intervals are those its
/// quality label names (m = minor, ° = diminished, none = major), as long
/// as no note is clamped to the MIDI range.
pub proof fn lemma_triad_matches_quality(root: u8, scale: ScaleType, degree: int, octave: i32)
    requires
        scale == ScaleType::Major || scale == ScaleType::Minor,
        0 <= degree < 7,
        0 <= scale_pitch(root, scale, degree, octave + 1),
        scale_pitch(root, scale, degree + 4, octave + 1) <= 127,
    ensures
        ({
            let t = triad_at(root, scale, degree, octave + 1);
            let q = quality_intervals(chord_quality_spec(scale, degree));
            &&& t[0] < t[1] < t[2]
            &&& t[1] - t[0] == q.0
            &&& t[2] - t[0] == q.1
        }),
{
    lemma_triad_intervals(root, scale, degree, octave + 1);
}

/// The triad above any base pitch has the intervals its quality label
/// names, as long as no note is clamped.
pub proof fn lemma_triad_intervals(root: u8, scale: ScaleType, degree: int, base_oct: int)
    requires
        scale == ScaleType::Major || scale == ScaleType::Minor,
        0 <= degree < 7,
        0 <= scale_pitch(root, scale, degree, base_oct),
        scale_pitch(root, scale, degree + 4, base_oct) <= 127,
    ensures
        ({
            let t = triad_at(root, scale, degree, base_oct);
            let q = quality_intervals(chord_quality_spec(scale, degree));
            &&& t[0] < t[1] < t[2]
            &&& t[1] - t[0] == q.0
            &&& t[2] - t[0] == q.1
        }),
{
    reveal_strlit("m");
    reveal_strlit("°");
    reveal_strlit("");
    assert("m"@.len() == 1 && "°"@.len() == 1 && ""@.len() == 0);
    assert("m"@[0] == 'm' && "°"@[0] == '°');
    assert("m"@ != "°"@);
    assert("m"@ != ""@);
    assert("°"@ != ""@);
    let b = root + 12 * base_oct;
    let iv = scale_intervals_spec(scale);
    assert(scale_pitch(root, scale, degree, base_oct) == b + iv[degree % 7] + 12 * (degree / 7));
    if degree == 0 {
        assert(degree % 7 == 0 && (degree + 2) % 7 == 2 && (degree + 4) % 7 == 4);
        assert(degree / 7 == 0 && (degree + 2) / 7 == 0 && (degree + 4) / 7 == 0);
    } else if degree == 1 {
        assert(degree % 7 == 1 && (degree + 2) % 7 == 3 && (degree + 4) % 7 == 5);
        assert(degree / 7 == 0 && (degree + 2) / 7 == 0 && (degree + 4) / 7 == 0);
    } else if degree == 2 {
        assert(degree % 7 == 2 && (degree + 2) % 7 == 4 && (degree + 4) % 7 == 6);
        assert(degree / 7 == 0 && (degree + 2) / 7 == 0 && (degree + 4) / 7 == 0);
    } else if degree == 3 {
        assert(degree % 7 == 3 && (degree + 2) % 7 == 5 && (degree + 4) % 7 == 0);
        assert(degree / 7 == 0 && (degree + 2) / 7 == 0 && (degree + 4) / 7 == 1);
    } else if degree == 4 {
        assert(degree % 7 == 4 && (degree + 2) % 7 == 6 && (degree + 4) % 7 == 1);
        assert(degree / 7 == 0 && (degree + 2) / 7 == 0 && (degree + 4) / 7 == 1);
    } else if degree == 5 {
        assert(degree % 7 == 5 && (degree + 2) % 7 == 0 && (degree + 4) % 7 == 2);
        assert(degree / 7 == 0 && (degree + 2) / 7 == 1 && (degree + 4) / 7 == 1);
    } else {
        assert(degree % 7 == 6 && (degree + 2) % 7 == 1 && (degree + 4) % 7 == 3);
        assert(degree / 7 == 0 && (degree + 2) / 7 == 1 && (degree + 4) / 7 == 1);
    }
}

/// How the notes of a chord are arranged.
#[derive(Clone, Copy, PartialEq, Eq, Structural, Debug)]
pub enum VoicingType {
    /// Close position, root in bass.
    Root,
    /// First inversion: 3rd in bass.
    First,
    /// Second inversion: 5th in bass.
    Second,
    /// Spread: root + 5th + 3rd an octave up.
    Open,
    /// Root position with the root doubled an octave above.
    Full,
}

impl Default for VoicingType {
    fn default() -> (r: Self)
        ensures
            r == VoicingType::Root,
    {
        VoicingType::Root
    }
}

impl VoicingType {
    pub open spec fn label_spec(self) -> Seq<char> {
        match self {
            VoicingType::Root => "Root"@,
            VoicingType::First => "1st"@,
            VoicingType::Second => "2nd"@,
            VoicingType::Open => "Open"@,
            VoicingType::Full => "Full"@,
        }
    }

    pub fn label(self) -> (r: &'static str)
        ensures
            r@ == self.label_spec(),
    {
        match self {
            Self::Root => "Root",
            Self::First => "1st",
            Self::Second => "2nd",
            Self::Open => "Open",
            Self::Full => "Full",
        }
    }

    pub open spec fn short_spec(self) -> Seq<char> {
        match self {
            VoicingType::Root => "R"@,
            VoicingType::First => "1"@,
            VoicingType::Second => "2"@,
            VoicingType::Open => "O"@,
            VoicingType::Full => "F"@,
        }
    }

    pub fn short(self) -> (r: &'static str)
        ensures
            r@ == self.short_spec(),
    {
        match self {
            Self::Root => "R",
            Self::First => "1",
            Self::Second => "2",
            Self::Open => "O",
            Self::Full => "F",
        }
    }

    /// Position of the voicing in the cycle Root → First → Second → Open → Full.
    pub open spec fn index(self) -> int {
        match self {
            VoicingType::Root => 0,
            VoicingType::First => 1,
            VoicingType::Second => 2,
            VoicingType::Open => 3,
            VoicingType::Full => 4,
        }
    }

    pub open spec fn from_index(i: int) -> VoicingType {
        if i == 0 {
            VoicingType::Root
        } else if i == 1 {
            VoicingType::First
        } else if i == 2 {
            VoicingType::Second
        } else if i == 3 {
            VoicingType::Open
        } else {
            VoicingType::Full
        }
    }

    /// The following voicing in the cycle, wrapping from Full to Root.
    pub fn next(self) -> (r: Self)
        ensures
            r == Self::from_index((self.index() + 1) % 5),
    {
        match self {
            Self::Root => Self::First,
            Self::First => Self::Second,
            Self::Second => Self::Open,
            Self::Open => Self::Full,
            Self::Full => Self::Root,
        }
    }

    /// The preceding voicing in the cycle, wrapping from Root to Full.
    pub fn prev(self) -> (r: Self)
        ensures
            r == Self::from_index((self.index() + 4) % 5),
    {
        match self {
            Self::Root => Self::Full,
            Self::First => Self::Root,
            Self::Second => Self::First,
            Self::Open => Self::Second,
            Self::Full => Self::Open,
        }
    }

    /// All voicings, in cycle order.
    pub fn all() -> (r: &'static [VoicingType])
        ensures
            r@ == seq![
                VoicingType::Root,
                VoicingType::First,
                VoicingType::Second,
                VoicingType::Open,
                VoicingType::Full,
            ],
    {
        &[Self::Root, Self::First, Self::Second, Self::Open, Self::Full]
    }
}

/// `next` and `prev` undo each other, and five steps of `next` come back to
/// the start.
pub proof fn lemma_voicing_cycle(v: VoicingType)
    ensures
        VoicingType::from_index((VoicingType::from_index((v.index() + 1) % 5).index() + 4) % 5)
            == v,
        VoicingType::from_index((VoicingType::from_index((v.index() + 4) % 5).index() + 1) % 5)
            == v,
        VoicingType::from_index(v.index()) == v,
        0 <= v.index() < 5,
{
}

/// A note raised by an octave, clamped to the MIDI range.
pub open spec fn raise_octave(x: u8) -> u8 {
    clamp_midi(x + 12)
}

/// The notes of a root-position chord re-arranged by `voicing`.
pub open spec fn apply_voicing_spec(notes: Seq<u8>, voicing: VoicingType) -> Seq<u8> {
    if notes.len() < 2 {
        notes
    } else {
        match voicing {
            VoicingType::Root => notes,
            VoicingType::First => notes.drop_first().push(raise_octave(notes[0])),
            VoicingType::Second => if notes.len() < 3 {
                notes
            } else {
                notes.skip(2).push(raise_octave(notes[0])).push(raise_octave(notes[1]))
            },
            VoicingType::Open => notes.remove(1).push(raise_octave(notes[1])),
            VoicingType::Full => notes.push(raise_octave(notes[0])),
        }
    }
}

fn raise(x: u8) -> (r: u8)
    ensures
        r == raise_octave(x),
{
    clamp_to_midi(x as i32 + 12)
}

/// Apply a voicing to a set of root-position notes (ascending pitch order).
/// Returns the re-voiced notes in the same count.
pub fn apply_voicing(notes: Vec<u8>, voicing: VoicingType) -> (r: Vec<u8>)
    ensures
        r@ == apply_voicing_spec(notes@, voicing),
{
    let mut notes = notes;
    let n = notes.len();
    if n < 2 {
        return notes;
    }
    match voicing {
        VoicingType::Root => notes,
        VoicingType::First => {
            let ghost s = notes@;
            let first = notes.remove(0);
            notes.push(raise(first));
            assert(notes@ =~= apply_voicing_spec(s, voicing));
            notes
        },
        VoicingType::Second => {
            if n < 3 {
                return notes;
            }
            let ghost s = notes@;
            let first = notes.remove(0);
            notes.push(raise(first));
            let second = notes.remove(0);
            notes.push(raise(second));
            assert(notes@ =~= apply_voicing_spec(s, voicing));
            notes
        },
        VoicingType::Open => {
            let ghost s = notes@;
            let third = notes.remove(1);
            notes.push(raise(third));
            assert(notes@ =~= apply_voicing_spec(s, voicing));
            notes
        },
        VoicingType::Full => {
            let ghost s = notes@;
            let root_up = raise(notes[0]);
            notes.push(root_up);
            assert(notes@ =~= apply_voicing_spec(s, voicing));
            notes
        },
    }
}

/// A voicing never drops notes: it keeps the count, or adds one (`Full`).
pub proof fn lemma_voicing_len(notes: Seq<u8>, voicing: VoicingType)
    ensures
        apply_voicing_spec(notes, voicing).len() == if notes.len() >= 2 && voicing
            == VoicingType::Full {
            notes.len() + 1
        } else {
            notes.len()
        },
{
}


// ---------------------------------------------------------------------------
// Voice leading
// ---------------------------------------------------------------------------

/// `s` with `x` inserted before its first element not below `x`.
pub open spec fn insert_sorted(s: Seq<u8>, x: u8) -> Seq<u8>
    decreases s.len(),
{
    if s.len() == 0 {
        seq![x]
    } else if x <= s[0] {
        seq![x] + s
    } else {
        seq![s[0]] + insert_sorted(s.drop_first(), x)
    }
}

/// `s` sorted in ascending order.
pub open spec fn sorted_notes(s: Seq<u8>) -> Seq<u8>
    decreases s.len(),
{
    if s.len() == 0 {
        s
    } else {
        insert_sorted(sorted_notes(s.drop_last()), s.last())
    }
}

/// Sum of |a[i] - b[i]| over the first `k` positions.
pub open spec fn abs_diff_sum(a: Seq<u8>, b: Seq<u8>, k: int) -> nat
    decreases k,
{
    if k <= 0 {
        0
    } else {
        let d = if a[k - 1] >= b[k - 1] {
            (a[k - 1] - b[k - 1]) as nat
        } else {
            (b[k - 1] - a[k - 1]) as nat
        };
        abs_diff_sum(a, b, k - 1) + d
    }
}

pub open spec fn min_len(a: nat, b: nat) -> nat {
    if a <= b {
        a
    } else {
        b
    }
}

/// Total semitone movement from `prev` to `candidate`: both are cut to
/// their common length, sorted, and compared position by position.
pub open spec fn voicing_score(candidate: Seq<u8>, prev: Seq<u8>) -> nat {
    let len = min_len(candidate.len(), prev.len());
    abs_diff_sum(sorted_notes(candidate.take(len as int)), sorted_notes(prev.take(len as int)), len as int)
}

/// The `k`-th inversion of a root-position chord (the first-inversion
/// voicing applied `k` times).
pub open spec fn inversion(notes: Seq<u8>, k: nat) -> Seq<u8>
    decreases k,
{
    if k == 0 {
        notes
    } else {
        apply_voicing_spec(inversion(notes, (k - 1) as nat), VoicingType::First)
    }
}

/// Index of the earliest inversion among 0..=k with the smallest score.
pub open spec fn best_inversion_index(notes: Seq<u8>, prev: Seq<u8>, k: nat) -> nat
    decreases k,
{
    if k == 0 {
        0
    } else {
        let b = best_inversion_index(notes, prev, (k - 1) as nat);
        if voicing_score(inversion(notes, k), prev) < voicing_score(inversion(notes, b), prev) {
            k
        } else {
            b
        }
    }
}

/// The inversion of `notes` chosen to follow `prev`.
pub open spec fn best_voiced_spec(notes: Seq<u8>, prev: Seq<u8>) -> Seq<u8> {
    if prev.len() == 0 || notes.len() == 0 {
        notes
    } else {
        inversion(notes, best_inversion_index(notes, prev, (notes.len() - 1) as nat))
    }
}

proof fn lemma_insert_sorted_len(s: Seq<u8>, x: u8)
    ensures
        insert_sorted(s, x).len() == s.len() + 1,
    decreases s.len(),
{
    if s.len() > 0 && x > s[0] {
        lemma_insert_sorted_len(s.drop_first(), x);
    }
}

proof fn lemma_sorted_notes_len(s: Seq<u8>)
    ensures
        sorted_notes(s).len() == s.len(),
    decreases s.len(),
{
    if s.len() > 0 {
        lemma_sorted_notes_len(s.drop_last());
        lemma_insert_sorted_len(sorted_notes(s.drop_last()), s.last());
    }
}

/// Inserting before the first element that is not below `x` is `insert_sorted`.
proof fn lemma_insert_at_first_geq(t: Seq<u8>, x: u8, p: int)
    requires
        0 <= p <= t.len(),
        forall|j: int| 0 <= j < p ==> t[j] < x,
        p < t.len() ==> x <= t[p],
    ensures
        t.insert(p, x) == insert_sorted(t, x),
    decreases t.len(),
{
    if p == 0 {
        assert(t.insert(0, x) =~= insert_sorted(t, x));
    } else {
        let t2 = t.drop_first();
        lemma_insert_at_first_geq(t2, x, p - 1);
        assert(t.insert(p, x) =~= seq![t[0]] + t2.insert(p - 1, x));
    }
}

proof fn lemma_abs_diff_sum_mono(a: Seq<u8>, b: Seq<u8>, i: int, k: int)
    requires
        0 <= i <= k,
    ensures
        abs_diff_sum(a, b, i) <= abs_diff_sum(a, b, k),
    decreases k - i,
{
    if i < k {
        lemma_abs_diff_sum_mono(a, b, i, k - 1);
    }
}

proof fn lemma_abs_diff_sum_bound(a: Seq<u8>, b: Seq<u8>, k: int)
    requires
        0 <= k,
    ensures
        abs_diff_sum(a, b, k) <= 255 * k,
    decreases k,
{
    if k > 0 {
        lemma_abs_diff_sum_bound(a, b, k - 1);
    }
}

/// The first `len` entries of `s`, sorted ascending.
fn sorted_prefix(s: &[u8], len: usize) -> (r: Vec<u8>)
    requires
        len <= s@.len(),
    ensures
        r@ == sorted_notes(s@.take(len as int)),
{
    let mut r: Vec<u8> = Vec::new();
    let mut i: usize = 0;
    assert(s@.take(0) =~= Seq::<u8>::empty());
    while i < len
        invariant
            i <= len <= s@.len(),
            r@ == sorted_notes(s@.take(i as int)),
        decreases len - i,
    {
        let x = s[i];
        let mut p: usize = 0;
        while p < r.len() && r[p] < x
            invariant
                p <= r@.len(),
                forall|j: int| 0 <= j < p ==> r@[j] < x,
            decreases r@.len() - p,
        {
            p += 1;
        }
        proof {
            lemma_insert_at_first_geq(r@, x, p as int);
            assert(s@.take(i + 1).drop_last() =~= s@.take(i as int));
            assert(s@.take(i + 1).last() == x);
        }
        r.insert(p, x);
        i += 1;
    }
    r
}

/// How far the voices move from `prev` to `candidate` (see `voicing_score`).
fn score_against(candidate: &Vec<u8>, prev: &[u8]) -> (r: u32)
    requires
        min_len(candidate@.len(), prev@.len()) <= u32::MAX / 255,
    ensures
        r == voicing_score(candidate@, prev@),
{
    let len = if candidate.len() <= prev.len() {
        candidate.len()
    } else {
        prev.len()
    };
    let a = sorted_prefix(candidate.as_slice(), len);
    let b = sorted_prefix(prev, len);
    proof {
        lemma_sorted_notes_len(candidate@.take(len as int));
        lemma_sorted_notes_len(prev@.take(len as int));
        lemma_abs_diff_sum_bound(a@, b@, len as int);
    }
    let mut sum: u32 = 0;
    let mut i: usize = 0;
    while i < len
        invariant
            i <= len,
            a@.len() == len,
            b@.len() == len,
            len <= u32::MAX / 255,
            abs_diff_sum(a@, b@, len as int) <= 255 * len,
            sum == abs_diff_sum(a@, b@, i as int),
        decreases len - i,
    {
        proof {
            lemma_abs_diff_sum_mono(a@, b@, i + 1, len as int);
        }
        let x = a[i];
        let y = b[i];
        let d = if x >= y {
            x - y
        } else {
            y - x
        };
        sum = sum + d as u32;
        i += 1;
    }
    sum
}

proof fn lemma_inversion_len(notes: Seq<u8>, k: nat)
    ensures
        inversion(notes, k).len() == notes.len(),
    decreases k,
{
    if k > 0 {
        lemma_inversion_len(notes, (k - 1) as nat);
    }
}

/// Pick the inversion of `notes` (root-position, ascending) that minimises
/// total semitone movement from `prev`.  Falls back to root position if
/// `prev` is empty.
pub fn best_voiced(notes: Vec<u8>, prev: &[u8]) -> (r: Vec<u8>)
    requires
        min_len(notes@.len(), prev@.len()) <= u32::MAX / 255,
    ensures
        r@ == best_voiced_spec(notes@, prev@),
{
    if prev.is_empty() || notes.is_empty() {
        return notes;
    }
    let ghost orig = notes@;
    let n = notes.len();
    let mut best = notes.clone();
    assert(best@ =~= orig);
    let mut best_score = score_against(&best, prev);
    let mut current = notes;
    let mut k: usize = 1;
    while k < n
        invariant
            1 <= k <= n,
            n == orig.len(),
            min_len(orig.len(), prev@.len()) <= u32::MAX / 255,
            current@ == inversion(orig, (k - 1) as nat),
            best@ == inversion(orig, best_inversion_index(orig, prev@, (k - 1) as nat)),
            best_score == voicing_score(best@, prev@),
        decreases n - k,
    {
        current = apply_voicing(current, VoicingType::First);
        proof {
            lemma_inversion_len(orig, k as nat);
        }
        let s = score_against(&current, prev);
        if s < best_score {
            best_score = s;
            best = current.clone();
            assert(best@ =~= current@);
        }
        k += 1;
    }
    best
}

/// The chosen inversion moves no more than any other inversion.
pub proof fn lemma_best_inversion_minimal(notes: Seq<u8>, prev: Seq<u8>, k: nat, j: nat)
    requires
        j <= k,
    ensures
        best_inversion_index(notes, prev, k) <= k,
        voicing_score(inversion(notes, best_inversion_index(notes, prev, k)), prev)
            <= voicing_score(inversion(notes, j), prev),
    decreases k,
{
    if k > 0 {
        if j < k {
            lemma_best_inversion_minimal(notes, prev, (k - 1) as nat, j);
        } else {
            lemma_best_inversion_minimal(notes, prev, (k - 1) as nat, 0);
        }
    }
}


/// The best-voiced chord moves no more than any inversion of it.
pub proof fn lemma_best_voiced_minimal(notes: Seq<u8>, prev: Seq<u8>, j: nat)
    requires
        prev.len() > 0,
        j < notes.len(),
    ensures
        voicing_score(best_voiced_spec(notes, prev), prev) <= voicing_score(inversion(notes, j), prev),
{
    lemma_best_inversion_minimal(notes, prev, (notes.len() - 1) as nat, j);
}

// ---------------------------------------------------------------------------
// Chord types
// ---------------------------------------------------------------------------

/// The chord shapes a pad or a sequencer step can play.
#[derive(Clone, Copy, PartialEq, Eq, Structural, Debug)]
pub enum ChordType {
    /// 1-3-5
    Triad,
    /// 1-3-5-7 (major seventh)
    Maj7,
    /// 1-b3-5-b7
    Min7,
    /// 1-3-5-b7
    Dom7,
    /// 1-2-5
    Sus2,
    /// 1-4-5
    Sus4,
    /// 1-3-5-9
    Add9,
    /// 1-5
    Power,
}

impl ChordType {
    pub open spec fn label_spec(self) -> Seq<char> {
        match self {
            ChordType::Triad => "Triad"@,
            ChordType::Maj7 => "Maj7"@,
            ChordType::Min7 => "Min7"@,
            ChordType::Dom7 => "Dom7"@,
            ChordType::Sus2 => "Sus2"@,
            ChordType::Sus4 => "Sus4"@,
            ChordType::Add9 => "Add9"@,
            ChordType::Power => "Power"@,
        }
    }

    pub fn label(self) -> (r: &'static str)
        ensures
            r@ == self.label_spec(),
    {
        match self {
            Self::Triad => "Triad",
            Self::Maj7 => "Maj7",
            Self::Min7 => "Min7",
            Self::Dom7 => "Dom7",
            Self::Sus2 => "Sus2",
            Self::Sus4 => "Sus4",
            Self::Add9 => "Add9",
            Self::Power => "Power",
        }
    }

    /// All chord types, in menu order.
    pub fn all() -> (r: &'static [ChordType])
        ensures
            r@ == seq![
                ChordType::Triad,
                ChordType::Maj7,
                ChordType::Min7,
                ChordType::Dom7,
                ChordType::Sus2,
                ChordType::Sus4,
                ChordType::Add9,
                ChordType::Power,
            ],
    {
        &[
            Self::Triad,
            Self::Maj7,
            Self::Min7,
            Self::Dom7,
            Self::Sus2,
            Self::Sus4,
            Self::Add9,
            Self::Power,
        ]
    }
}

/// Whether the diatonic chord on `degree` is minor or diminished, i.e.
/// whether `chord_quality` gives "m" or "°" for it.
pub open spec fn degree_is_minor(scale: ScaleType, degree: int) -> bool {
    let d = degree % 7;
    match scale {
        ScaleType::Major => d == 1 || d == 2 || d == 5 || d == 6,
        _ => d == 0 || d == 1 || d == 3 || d == 4,
    }
}

fn chord_is_minor(scale: ScaleType, degree: usize) -> (r: bool)
    ensures
        r == degree_is_minor(scale, degree as int),
{
    let d = degree % 7;
    match scale {
        ScaleType::Major => d == 1 || d == 2 || d == 5 || d == 6,
        _ => d == 0 || d == 1 || d == 3 || d == 4,
    }
}

/// Semitones above the degree's root of each note of a non-triad chord.
pub open spec fn chord_offsets(chord_type: ChordType, is_minor: bool) -> Seq<int> {
    match chord_type {
        ChordType::Triad => seq![],
        ChordType::Maj7 => seq![0int, 4, 7, 11],
        ChordType::Min7 => seq![0int, 3, 7, 10],
        ChordType::Dom7 => seq![0int, 4, 7, 10],
        ChordType::Sus2 => seq![0int, 2, 7],
        ChordType::Sus4 => seq![0int, 5, 7],
        ChordType::Add9 => seq![0int, if is_minor { 3 } else { 4 }, 7, 14],
        ChordType::Power => seq![0int, 7],
    }
}

/// MIDI notes of the chord of type `chord_type` on `degree`: a triad is
/// built from scale degrees d, d+2, d+4; every other type stacks fixed
/// intervals on the degree's root. Each note is clamped to 0–127.
pub open spec fn chord_notes_typed_spec(
    root: u8,
    scale: ScaleType,
    degree: int,
    octave: i32,
    chord_type: ChordType,
) -> Seq<u8> {
    if chord_type == ChordType::Triad {
        triad_spec(root, scale, degree, octave)
    } else {
        chord_offsets(chord_type, degree_is_minor(scale, degree)).map_values(
            |o: int| clamp_midi(degree_pitch(root, scale, degree, octave) + o),
        )
    }
}

/// Compute MIDI notes for a pad config (two to four notes), counted from
/// the base pitch `root + 12 × octave` (octave 4 starts at MIDI 48 for C).
pub fn chord_notes_typed(
    root: u8,
    scale: ScaleType,
    degree: usize,
    octave: i32,
    chord_type: ChordType,
) -> (r: Vec<u8>)
    requires
        pitch_args_ok(root, degree, octave),
    ensures
        r@ == chord_notes_typed_spec(root, scale, degree as int, octave, chord_type),
        2 <= r@.len() <= 4,
{
    let intervals = scale_intervals(scale);
    let base = root as i32 + octave * 12;
    let ghost bo: int = octave as int;
    proof {
        lemma_degree_bounds(degree, degree as int);
    }
    let oct_bump = (degree / 7) as i32;
    let deg_root = base + intervals[degree % 7] as i32 + oct_bump * 12;
    assert(deg_root == degree_pitch(root, scale, degree as int, octave));
    let is_minor = chord_is_minor(scale, degree);
    let ghost spec = chord_notes_typed_spec(root, scale, degree as int, octave, chord_type);
    match chord_type {
        ChordType::Triad => {
            let a = scale_degree_note(base, intervals, degree, Ghost(root), Ghost(scale), Ghost(degree), Ghost(bo));
            let b = scale_degree_note(base, intervals, degree + 2, Ghost(root), Ghost(scale), Ghost(degree), Ghost(bo));
            let c = scale_degree_note(base, intervals, degree + 4, Ghost(root), Ghost(scale), Ghost(degree), Ghost(bo));
            let r = vec![a, b, c];
            assert(r@ =~= spec);
            r
        },
        ChordType::Maj7 => {
            let r = vec![
                clamp_to_midi(deg_root),
                clamp_to_midi(deg_root + 4),
                clamp_to_midi(deg_root + 7),
                clamp_to_midi(deg_root + 11),
            ];
            assert(r@ =~= spec);
            r
        },
        ChordType::Min7 => {
            let r = vec![
                clamp_to_midi(deg_root),
                clamp_to_midi(deg_root + 3),
                clamp_to_midi(deg_root + 7),
                clamp_to_midi(deg_root + 10),
            ];
            assert(r@ =~= spec);
            r
        },
        ChordType::Dom7 => {
            let r = vec![
                clamp_to_midi(deg_root),
                clamp_to_midi(deg_root + 4),
                clamp_to_midi(deg_root + 7),
                clamp_to_midi(deg_root + 10),
            ];
            assert(r@ =~= spec);
            r
        },
        ChordType::Sus2 => {
            let r = vec![clamp_to_midi(deg_root), clamp_to_midi(deg_root + 2), clamp_to_midi(deg_root + 7)];
            assert(r@ =~= spec);
            r
        },
        ChordType::Sus4 => {
            let r = vec![clamp_to_midi(deg_root), clamp_to_midi(deg_root + 5), clamp_to_midi(deg_root + 7)];
            assert(r@ =~= spec);
            r
        },
        ChordType::Add9 => {
            let third: i32 = if is_minor {
                3
            } else {
                4
            };
            let r = vec![
                clamp_to_midi(deg_root),
                clamp_to_midi(deg_root + third),
                clamp_to_midi(deg_root + 7),
                clamp_to_midi(deg_root + 14),
            ];
            assert(r@ =~= spec);
            r
        },
        ChordType::Power => {
            let r = vec![clamp_to_midi(deg_root), clamp_to_midi(deg_root + 7)];
            assert(r@ =~= spec);
            r
        },
    }
}

/// Per-pad configuration in the chord keyboard grid.
#[derive(Clone, Copy, PartialEq, Eq, Structural, Debug)]
pub struct PadConfig {
    pub chord_type: ChordType,
    /// None = follow the scale degree.
    pub custom_root: Option<u8>,
}

impl PadConfig {
    pub fn new(chord_type: ChordType) -> (r: Self)
        ensures
            r == (PadConfig { chord_type, custom_root: None }),
    {
        Self { chord_type, custom_root: None }
    }
}


// ---------------------------------------------------------------------------
// Note sequencer state
// ---------------------------------------------------------------------------

/// Number of step slots in each sequencer pattern.
pub const SEQ_SLOTS: usize = 24;

/// The opening notes of the default note pattern (E3 G3 A3 G3 D4 C4 D4 E3).
pub open spec fn default_melody() -> Seq<u8> {
    seq![52u8, 55, 57, 55, 62, 60, 62, 52]
}

/// Step sequencer with a chromatic note per step.
pub struct NoteSeqState {
    pub steps: [bool; 24],
    pub notes: [u8; 24],
    pub velocities: [u8; 24],
    pub probabilities: [u8; 24],
    pub length: usize,
}

impl NoteSeqState {
    /// The default pattern: eight active steps playing the "Wish You Were
    /// Here" arpeggio, full velocity and probability everywhere.
    pub fn new() -> (r: Self)
        ensures
            r.length == 8,
            forall|i: int| 0 <= i < 24 ==> #[trigger] r.steps@[i] == (i < 8),
            forall|i: int|
                0 <= i < 24 ==> #[trigger] r.notes@[i] == if i < 8 {
                    default_melody()[i]
                } else {
                    60u8
                },
            forall|i: int| 0 <= i < 24 ==> #[trigger] r.velocities@[i] == 100,
            forall|i: int| 0 <= i < 24 ==> #[trigger] r.probabilities@[i] == 100,
    {
        let mut steps = [false; 24];
        let mut notes = [60u8; 24];
        let melody: [u8; 8] = [52, 55, 57, 55, 62, 60, 62, 52];
        let mut i: usize = 0;
        while i < 8
            invariant
                i <= 8,
                melody@ == default_melody(),
                forall|j: int| 0 <= j < 24 ==> #[trigger] steps@[j] == (j < i),
                forall|j: int|
                    0 <= j < 24 ==> #[trigger] notes@[j] == if j < i {
                        default_melody()[j]
                    } else {
                        60u8
                    },
            decreases 8 - i,
        {
            steps[i] = true;
            notes[i] = melody[i];
            i += 1;
        }
        Self { steps, notes, velocities: [100u8; 24], probabilities: [100u8; 24], length: 8 }
    }
}

// ---------------------------------------------------------------------------
// Chord sequencer state
// ---------------------------------------------------------------------------

/// The default chord progression: I IV V IV I V VI IV.
pub open spec fn default_progression() -> Seq<usize> {
    seq![0usize, 3, 4, 3, 0, 4, 5, 3]
}

/// Step sequencer with a diatonic chord per step.
pub struct ChordSeqState {
    pub steps: [bool; 24],
    /// 0–6 diatonic degree per step.
    pub degrees: [usize; 24],
    pub chord_types: [ChordType; 24],
    /// Per-step voicing (inversion / spread).
    pub voicings: [VoicingType; 24],
    /// Per-step octave shift (−2 to +2).
    pub octave_offsets: [i32; 24],
    pub velocities: [u8; 24],
    pub probabilities: [u8; 24],
    pub length: usize,
    /// 0=C … 11=B
    pub root: u8,
    pub scale: ScaleType,
    /// Base octave for chord voicing.
    pub octave: i32,
    /// Auto-pick the best inversion for smooth voice movement.
    pub voice_lead: bool,
}

impl ChordSeqState {
    /// The default state: the pop progression on eight active steps, C major,
    /// octave 4, root-position triads.
    pub fn new() -> (r: Self)
        ensures
            r.length == 8,
            r.root == 0,
            r.scale == ScaleType::Major,
            r.octave == 4,
            !r.voice_lead,
            forall|i: int| 0 <= i < 24 ==> #[trigger] r.steps@[i] == (i < 8),
            forall|i: int|
                0 <= i < 24 ==> #[trigger] r.degrees@[i] == if i < 8 {
                    default_progression()[i]
                } else {
                    0usize
                },
            forall|i: int| 0 <= i < 24 ==> #[trigger] r.chord_types@[i] == ChordType::Triad,
            forall|i: int| 0 <= i < 24 ==> #[trigger] r.voicings@[i] == VoicingType::Root,
            forall|i: int| 0 <= i < 24 ==> #[trigger] r.octave_offsets@[i] == 0,
            forall|i: int| 0 <= i < 24 ==> #[trigger] r.velocities@[i] == 100,
            forall|i: int| 0 <= i < 24 ==> #[trigger] r.probabilities@[i] == 100,
    {
        let mut steps = [false; 24];
        let mut degrees = [0usize; 24];
        let progression: [usize; 8] = [0, 3, 4, 3, 0, 4, 5, 3];
        let mut i: usize = 0;
        while i < 8
            invariant
                i <= 8,
                progression@ == default_progression(),
                forall|j: int| 0 <= j < 24 ==> #[trigger] steps@[j] == (j < i),
                forall|j: int|
                    0 <= j < 24 ==> #[trigger] degrees@[j] == if j < i {
                        default_progression()[j]
                    } else {
                        0usize
                    },
            decreases 8 - i,
        {
            steps[i] = true;
            degrees[i] = progression[i];
            i += 1;
        }
        Self {
            steps,
            degrees,
            chord_types: [ChordType::Triad; 24],
            voicings: [VoicingType::Root; 24],
            octave_offsets: [0i32; 24],
            velocities: [100u8; 24],
            probabilities: [100u8; 24],
            length: 8,
            root: 0,
            scale: ScaleType::Major,
            octave: 4,
            voice_lead: false,
        }
    }

    /// The octave step `i` plays in.
    pub open spec fn step_octave(&self, i: int) -> int {
        self.octave + self.octave_offsets@[i]
    }

    /// Step `i` exists and its chord can be computed without overflow.
    pub open spec fn step_ok(&self, i: int) -> bool {
        &&& 0 <= i < 24
        &&& i32::MIN <= self.step_octave(i) <= i32::MAX
        &&& pitch_args_ok(self.root, self.degrees@[i], self.step_octave(i) as i32)
    }

    /// Whether step `i` can be computed (see `step_ok`).
    pub fn step_computable(&self, i: usize) -> (r: bool)
        ensures
            r == self.step_ok(i as int),
    {
        if i >= 24 {
            return false;
        }
        let oct: i64 = self.octave as i64 + self.octave_offsets[i] as i64;
        if oct < i32::MIN as i64 || oct > i32::MAX as i64 {
            return false;
        }
        let degree = self.degrees[i];
        if degree > usize::MAX - 4 {
            return false;
        }
        let base: i128 = 12 * (oct as i128);
        let bump: i128 = 12 * (((degree + 4) / 7) as i128);
        base >= i32::MIN as i128 && base <= i32::MAX as i128 && bump <= i32::MAX as i128
            && self.root as i128 + base + 26 + bump <= i32::MAX as i128
    }

    /// Root-position notes of step `i`.
    pub open spec fn step_root_notes(&self, i: int) -> Seq<u8> {
        chord_notes_typed_spec(
            self.root,
            self.scale,
            self.degrees@[i] as int,
            self.step_octave(i) as i32,
            self.chord_types@[i],
        )
    }

    /// Root-position notes for step i (before any voicing is applied).
    fn step_notes_root(&self, i: usize) -> (r: Vec<u8>)
        requires
            self.step_ok(i as int),
        ensures
            r@ == self.step_root_notes(i as int),
            2 <= r@.len() <= 4,
    {
        chord_notes_typed(
            self.root,
            self.scale,
            self.degrees[i],
            self.octave + self.octave_offsets[i],
            self.chord_types[i],
        )
    }

    /// Notes for step i with per-step voicing applied.
    pub fn step_notes(&self, i: usize) -> (r: Vec<u8>)
        requires
            self.step_ok(i as int),
        ensures
            r@ == apply_voicing_spec(self.step_root_notes(i as int), self.voicings@[i as int]),
    {
        apply_voicing(self.step_notes_root(i), self.voicings[i])
    }

    /// The notes step `i` plays after `prev`.
    pub open spec fn step_notes_vl_spec(&self, i: int, prev: Seq<u8>) -> Seq<u8> {
        if self.voice_lead && prev.len() > 0 {
            best_voiced_spec(self.step_root_notes(i), prev)
        } else {
            apply_voicing_spec(self.step_root_notes(i), self.voicings@[i])
        }
    }

    /// Notes for step i with voice-leading: if voice_lead is on, picks the
    /// inversion closest to `prev`; otherwise uses the stored per-step voicing.
    pub fn step_notes_vl(&self, i: usize, prev: &[u8]) -> (r: Vec<u8>)
        requires
            self.step_ok(i as int),
        ensures
            r@ == self.step_notes_vl_spec(i as int, prev@),
    {
        let root_pos = self.step_notes_root(i);
        if self.voice_lead && !prev.is_empty() {
            best_voiced(root_pos, prev)
        } else {
            apply_voicing(root_pos, self.voicings[i])
        }
    }
}

/// Distance between two pitch classes around the 12-tone circle.
pub open spec fn circle_dist(a: int, b: int) -> int {
    let d = if a >= b {
        a - b
    } else {
        b - a
    };
    if d <= 12 - d {
        d
    } else {
        12 - d
    }
}

/// Distance from `midi`'s pitch class to the root of scale degree `deg`.
pub open spec fn degree_dist(midi: u8, root: u8, scale: ScaleType, deg: int) -> int {
    circle_dist(
        (midi % 12) as int,
        ((root % 12) + scale_intervals_spec(scale)[deg]) % 12,
    )
}

/// Map a MIDI note to the closest scale degree (0–6) within the given root + scale.
/// Ties go to the lowest degree.
pub fn note_to_scale_degree(midi: u8, root: u8, scale: ScaleType) -> (r: usize)
    ensures
        r < 7,
        forall|d: int| 0 <= d < 7 ==> degree_dist(midi, root, scale, r as int) <= degree_dist(midi, root, scale, d),
        forall|d: int| 0 <= d < r ==> degree_dist(midi, root, scale, d) > degree_dist(midi, root, scale, r as int),
{
    let intervals = scale_intervals(scale);
    let note_class = (midi % 12) as i32;
    let root_class = (root % 12) as i32;
    let mut best: usize = 0;
    let mut best_dist: i32 = 12;
    let mut deg: usize = 0;
    while deg < 7
        invariant
            deg <= 7,
            intervals@ == scale_intervals_spec(scale),
            note_class == midi % 12,
            root_class == root % 12,
            deg == 0 ==> best_dist == 12 && best == 0,
            deg > 0 ==> best < deg && best_dist == degree_dist(midi, root, scale, best as int),
            forall|d: int| 0 <= d < deg ==> best_dist <= degree_dist(midi, root, scale, d),
            forall|d: int| 0 <= d < best ==> degree_dist(midi, root, scale, d) > best_dist,
        decreases 7 - deg,
    {
        let iv = intervals[deg];
        let sc = (root_class + iv as i32) % 12;
        let raw = note_class - sc;
        let d0 = if raw < 0 {
            -raw
        } else {
            raw
        };
        let d = if d0 <= 12 - d0 {
            d0
        } else {
            12 - d0
        };
        assert(d == degree_dist(midi, root, scale, deg as int));
        if d < best_dist {
            best_dist = d;
            best = deg;
        }
        deg += 1;
    }
    best
}

// ---------------------------------------------------------------------------
// Chord keyboard state
// ---------------------------------------------------------------------------

pub const CHORD_KB_ROWS: usize = 3;

pub const CHORD_KB_COLS: usize = 7;

/// Default chord type of each chord-keyboard row.
pub open spec fn default_row_chord_type_spec(row: int) -> ChordType {
    if row == 0 {
        ChordType::Dom7
    } else if row == 1 {
        ChordType::Triad
    } else if row == 2 {
        ChordType::Sus2
    } else {
        ChordType::Triad
    }
}

/// Default chord type for each row.
fn default_row_chord_type(row: usize) -> (r: ChordType)
    ensures
        r == default_row_chord_type_spec(row as int),
{
    match row {
        0 => ChordType::Dom7,
        1 => ChordType::Triad,
        2 => ChordType::Sus2,
        _ => ChordType::Triad,
    }
}

/// Live chord keyboard: a 3×7 grid of pads, column = scale degree.
pub struct ChordKbState {
    pub root: u8,
    pub scale: ScaleType,
    pub octave: i32,
    /// 3×7 grid of pad configs.
    pub pads: [[PadConfig; 7]; 3],
    /// (row, col) held by mouse, if any.
    pub held_pad: Option<(usize, usize)>,
    /// (row, col) pads held by keyboard keys.
    pub kb_held: std::collections::HashSet<(usize, usize)>,
    /// Edit mode: show chord-type picker on click.
    pub edit_mode: bool,
    /// Which pad's popover is open (row, col).
    pub editing_pad: Option<(usize, usize)>,
    /// Show the piano preview strip below the grid.
    pub show_piano_preview: bool,
}

impl ChordKbState {
    /// C major, octave 4, every pad at its row's default chord type.
    pub fn new() -> (r: Self)
        ensures
            r.root == 0,
            r.scale == ScaleType::Major,
            r.octave == 4,
            forall|row: int, col: int|
                0 <= row < 3 && 0 <= col < 7 ==> #[trigger] r.pads@[row]@[col] == (PadConfig {
                    chord_type: default_row_chord_type_spec(row),
                    custom_root: None,
                }),
            r.held_pad.is_none(),
            r.kb_held@.is_empty(),
            !r.edit_mode,
            r.editing_pad.is_none(),
            r.show_piano_preview,
    {
        let row0 = [PadConfig::new(default_row_chord_type(0)); 7];
        let row1 = [PadConfig::new(default_row_chord_type(1)); 7];
        let row2 = [PadConfig::new(default_row_chord_type(2)); 7];
        let pads = [row0, row1, row2];
        Self {
            root: 0,
            scale: ScaleType::Major,
            octave: 4,
            pads,
            held_pad: None,
            kb_held: std::collections::HashSet::new(),
            edit_mode: false,
            editing_pad: None,
            show_piano_preview: true,
        }
    }

    /// The notes of the pad at (`row`, `col`): the chord of its type on
    /// scale degree `col`.
    pub fn chord_notes_for(&self, row: usize, col: usize) -> (r: Vec<u8>)
        requires
            row < 3,
            col < 7,
            pitch_args_ok(self.root, col, self.octave),
        ensures
            r@ == chord_notes_typed_spec(
                self.root,
                self.scale,
                col as int,
                self.octave,
                self.pads@[row as int]@[col as int].chord_type,
            ),
    {
        let pad = self.pads[row][col];
        chord_notes_typed(self.root, self.scale, col, self.octave, pad.chord_type)
    }

    /// Reset a row's chord types to defaults (called when scale changes).
    pub fn reset_row(&mut self, row: usize)
        requires
            row < 3,
        ensures
            forall|r: int, c: int|
                0 <= r < 3 && 0 <= c < 7 ==> #[trigger] final(self).pads@[r]@[c] == if r == row {
                    PadConfig {
                        chord_type: default_row_chord_type_spec(row as int),
                        ..old(self).pads@[r]@[c]
                    }
                } else {
                    old(self).pads@[r]@[c]
                },
            final(self).root == old(self).root,
            final(self).scale == old(self).scale,
            final(self).octave == old(self).octave,
            final(self).held_pad == old(self).held_pad,
            final(self).kb_held == old(self).kb_held,
            final(self).edit_mode == old(self).edit_mode,
            final(self).editing_pad == old(self).editing_pad,
            final(self).show_piano_preview == old(self).show_piano_preview,
    {
        let ct = default_row_chord_type(row);
        let mut line = self.pads[row];
        let ghost orig = line;
        let mut col: usize = 0;
        while col < CHORD_KB_COLS
            invariant
                col <= 7,
                forall|c: int|
                    0 <= c < 7 ==> #[trigger] line@[c] == if c < col {
                        PadConfig { chord_type: ct, ..orig@[c] }
                    } else {
                        orig@[c]
                    },
            decreases 7 - col,
        {
            line[col].chord_type = ct;
            col += 1;
        }
        self.pads[row] = line;
    }
}


// ---------------------------------------------------------------------------
// Per-sequencer clock division
// ---------------------------------------------------------------------------

/// Four times the quarter-note beats per sequencer step for division index
/// `idx` (1/16 note … 64 bars); unknown indices mean an eighth note.
pub open spec fn quarter_beats_per_step(idx: u8) -> nat {
    if idx == 0 {
        1
    } else if idx == 1 {
        2
    } else if idx == 2 {
        4
    } else if idx == 3 {
        8
    } else if idx == 4 {
        16
    } else if idx == 5 {
        32
    } else if idx == 6 {
        64
    } else if idx == 7 {
        128
    } else if idx == 8 {
        256
    } else if idx == 9 {
        512
    } else if idx == 10 {
        1024
    } else {
        2
    }
}

/// Step length in milliseconds: (beats × 60000 / bpm) rounded to the
/// nearest integer, halves up; a tempo of 0 counts as 1.
pub open spec fn step_dur_ms_spec(idx: u8, bpm: u32) -> nat {
    let b: nat = if bpm == 0 {
        1
    } else {
        bpm as nat
    };
    (30000 * quarter_beats_per_step(idx) + b) / (2 * b)
}

/// Clock divisions of the note and chord sequencers.
pub struct SeqClockDiv;

impl SeqClockDiv {
    /// Human-readable labels, index matches the division index.
    pub fn labels() -> (r: &'static [&'static str])
        ensures
            r@.map_values(|l: &'static str| l@) == seq![
                "1/16"@,
                "1/8"@,
                "1/4"@,
                "1/2"@,
                "1"@,
                "2"@,
                "4"@,
                "8"@,
                "16"@,
                "32"@,
                "64"@,
            ],
    {
        &[
        "1/16",
        "1/8",
        "1/4",
        "1/2",
        "1",
        "2",
        "4",
        "8",
        "16",
        "32",
        "64",
        ]
    }

    fn quarter_beats(idx: u8) -> (r: u64)
        ensures
            r == quarter_beats_per_step(idx),
    {
        match idx {
            0 => 1,
            1 => 2,
            2 => 4,
            3 => 8,
            4 => 16,
            5 => 32,
            6 => 64,
            7 => 128,
            8 => 256,
            9 => 512,
            10 => 1024,
            _ => 2,
        }
    }

    /// Duration of one step of division `idx` at `bpm`, in milliseconds.
    pub fn step_dur_ms(idx: u8, bpm: u32) -> (r: u64)
        ensures
            r == step_dur_ms_spec(idx, bpm),
            r <= 30720000,
    {
        let b: u64 = if bpm == 0 {
            1
        } else {
            bpm as u64
        };
        let q = Self::quarter_beats(idx);
        let r = (30000 * q + b) / (2 * b);
        assert(r <= 30720000) by (nonlinear_arith)
            requires
                r == (30000 * q + b) / (2 * b),
                1 <= b,
                q <= 1024,
        ;
        r
    }
}

// ---------------------------------------------------------------------------
// Euclidean rhythms
// ---------------------------------------------------------------------------

pub open spec fn min_usize(a: usize, b: usize) -> usize {
    if a <= b {
        a
    } else {
        b
    }
}

/// Onset position of the `k`-th of `hits` hits spread over `steps`,
/// rotated by `offset`.
pub open spec fn bjorklund_pos(k: int, hits: int, steps: int, offset: int) -> int {
    (k * steps / hits + offset) % steps
}

/// Whether step `p` of a Bjorklund pattern sounds.
pub open spec fn bjorklund_onset(hits: usize, steps: usize, offset: usize, p: int) -> bool {
    let h = min_usize(hits, steps) as int;
    exists|k: int| 0 <= k < h && #[trigger] bjorklund_pos(k, h, steps as int, offset as int) == p
}

/// Euclidean rhythm: distribute `hits` onsets evenly across `steps`, rotated by `offset`.
/// Uses Bresenham integer distribution (equivalent to Bjorklund for most hit counts).
pub fn bjorklund(hits: usize, steps: usize, offset: usize) -> (r: Vec<bool>)
    requires
        min_usize(hits, steps) * steps <= usize::MAX,
        steps + offset <= usize::MAX,
    ensures
        r@.len() == steps,
        hits == 0 ==> forall|p: int| 0 <= p < steps ==> !r@[p],
        hits > 0 ==> forall|p: int| 0 <= p < steps ==> r@[p] == bjorklund_onset(hits, steps, offset, p),
{
    let mut pattern = vec![false; steps];
    if steps == 0 || hits == 0 {
        return pattern;
    }
    let h = if hits <= steps {
        hits
    } else {
        steps
    };
    let mut k: usize = 0;
    while k < h
        invariant
            0 < h <= steps,
            h == min_usize(hits, steps),
            h * steps <= usize::MAX,
            steps + offset <= usize::MAX,
            k <= h,
            pattern@.len() == steps,
            forall|p: int|
                0 <= p < steps ==> (pattern@[p] <==> exists|j: int|
                    0 <= j < k && #[trigger] bjorklund_pos(j, h as int, steps as int, offset as int) == p),
        decreases h - k,
    {
        assert(k * steps <= h * steps) by (nonlinear_arith)
            requires
                k <= h,
        ;
        proof {
            assert((k * steps) < h * steps) by (nonlinear_arith)
                requires
                    k < h,
                    0 < steps,
            ;
            vstd::arithmetic::div_mod::lemma_multiply_divide_lt(
                (k * steps) as int,
                h as int,
                steps as int,
            );
        }
        let pos = (k * steps / h + offset) % steps;
        assert(pos == bjorklund_pos(k as int, h as int, steps as int, offset as int));
        pattern.set(pos, true);
        proof {
            assert forall|q: int| 0 <= q < steps implies (pattern@[q] <==> exists|j: int|
                0 <= j < k + 1 && #[trigger] bjorklund_pos(j, h as int, steps as int, offset as int)
                    == q) by {
                if q == pos {
                } else if pattern@[q] {
                } else {
                    if exists|j: int|
                        0 <= j < k + 1 && #[trigger] bjorklund_pos(j, h as int, steps as int, offset as int) == q {
                        let j = choose|j: int|
                            0 <= j < k + 1 && #[trigger] bjorklund_pos(j, h as int, steps as int, offset as int) == q;
                        assert(j != k);
                    }
                }
            }
        }
        k += 1;
    }
    pattern
}

/// The sounding steps of a Bjorklund pattern.
pub open spec fn bjorklund_onsets(hits: usize, steps: usize, offset: usize) -> Set<int> {
    Set::new(|p: int| 0 <= p < steps && bjorklund_onset(hits, steps, offset, p))
}

proof fn lemma_mod_distinct(x: int, y: int, s: int)
    requires
        0 < s,
        0 <= x < y,
        y - x < s,
    ensures
        x % s != y % s,
{
    vstd::arithmetic::div_mod::lemma_fundamental_div_mod(x, s);
    vstd::arithmetic::div_mod::lemma_fundamental_div_mod(y, s);
    if x % s == y % s {
        assert(y - x == s * (y / s) - s * (x / s));
        assert(y - x == s * (y / s - x / s)) by (nonlinear_arith)
            requires
                y - x == s * (y / s) - s * (x / s),
        ;
        assert(false) by (nonlinear_arith)
            requires
                y - x == s * (y / s - x / s),
                0 < y - x < s,
                0 < s,
        ;
    }
}

proof fn lemma_bjorklund_pos_injective(h: int, s: int, o: int, k1: int, k2: int)
    requires
        0 < h <= s,
        0 <= o,
        0 <= k1 < k2 < h,
    ensures
        bjorklund_pos(k1, h, s, o) != bjorklund_pos(k2, h, s, o),
{
    let a1 = k1 * s / h;
    let a2 = k2 * s / h;
    assert((k2 - k1) * s >= s) by (nonlinear_arith)
        requires
            k1 < k2,
            s > 0,
    ;
    assert(k2 * s == k1 * s + (k2 - k1) * s) by (nonlinear_arith);
    assert(k2 * s >= k1 * s + h);
    assert(k1 * s >= 0) by (nonlinear_arith)
        requires
            k1 >= 0,
            s > 0,
    ;
    vstd::arithmetic::div_mod::lemma_div_is_ordered(k1 * s + h, k2 * s, h);
    vstd::arithmetic::div_mod::lemma_div_plus_one(k1 * s, h);
    assert((k1 * s + h) / h == a1 + 1);
    assert(a2 >= a1 + 1);
    assert(k2 * s < h * s) by (nonlinear_arith)
        requires
            k2 < h,
            s > 0,
    ;
    vstd::arithmetic::div_mod::lemma_multiply_divide_lt(k2 * s, h, s);
    vstd::arithmetic::div_mod::lemma_div_pos_is_pos(k1 * s, h);
    lemma_mod_distinct(a1 + o, a2 + o, s);
}

/// A number below `2 s` reduces modulo `s` by subtracting `s` at most once.
proof fn lemma_mod_small_sum(u: int, s: int)
    requires
        s > 0,
        0 <= u < 2 * s,
    ensures
        u % s == if u < s {
            u
        } else {
            u - s
        },
{
    if u < s {
        vstd::arithmetic::div_mod::lemma_fundamental_div_mod_converse_mod(u, s, 0, u);
    } else {
        vstd::arithmetic::div_mod::lemma_fundamental_div_mod_converse_mod(u, s, 1, u - s);
    }
}

proof fn lemma_shifted_mod(x: int, o: int, s: int, p: int)
    requires
        s > 0,
        0 <= p < s,
    ensures
        ((x + o) % s == (p + o) % s) == (x % s == p),
{
    vstd::arithmetic::div_mod::lemma_add_mod_noop(x, o, s);
    vstd::arithmetic::div_mod::lemma_add_mod_noop(p, o, s);
    vstd::arithmetic::div_mod::lemma_mod_bound(x, s);
    vstd::arithmetic::div_mod::lemma_mod_bound(o, s);
    vstd::arithmetic::div_mod::lemma_fundamental_div_mod_converse_mod(p, s, 0, p);
    lemma_mod_small_sum(x % s + o % s, s);
    lemma_mod_small_sum(p + o % s, s);
}

/// A Bjorklund pattern rotated by `offset` is the unrotated pattern moved
/// `offset` steps later: step `(p + offset) mod steps` of the rotated
/// pattern sounds exactly when step `p` of the unrotated one does.
pub proof fn lemma_bjorklund_rotation(hits: usize, steps: usize, offset: usize, p: int)
    requires
        hits > 0,
        steps > 0,
        0 <= p < steps,
    ensures
        bjorklund_onset(hits, steps, offset, (p + offset) % (steps as int)) == bjorklund_onset(
            hits,
            steps,
            0,
            p,
        ),
{
    let h = min_usize(hits, steps) as int;
    let s = steps as int;
    let o = offset as int;
    let target = (p + o) % s;
    if bjorklund_onset(hits, steps, offset, target) {
        let k = choose|k: int| 0 <= k < h && #[trigger] bjorklund_pos(k, h, s, o) == target;
        lemma_shifted_mod(k * s / h, o, s, p);
        assert(bjorklund_pos(k, h, s, 0) == p);
    }
    if bjorklund_onset(hits, steps, 0, p) {
        let k = choose|k: int| 0 <= k < h && #[trigger] bjorklund_pos(k, h, s, 0) == p;
        lemma_shifted_mod(k * s / h, o, s, p);
        assert(bjorklund_pos(k, h, s, o) == target);
    }
}

/// A Bjorklund pattern sounds exactly min(hits, steps) of its steps: the
/// hits land on distinct steps.
pub proof fn lemma_bjorklund_hit_count(hits: usize, steps: usize, offset: usize)
    requires
        hits > 0,
        steps > 0,
    ensures
        bjorklund_onsets(hits, steps, offset).finite(),
        bjorklund_onsets(hits, steps, offset).len() == min_usize(hits, steps),
{
    let h = min_usize(hits, steps) as int;
    let s = steps as int;
    let o = offset as int;
    let f = |k: int| bjorklund_pos(k, h, s, o);
    let x = vstd::set_lib::set_int_range(0, h);
    vstd::set_lib::lemma_int_range(0, h);
    assert forall|k1: int, k2: int| x.contains(k1) && x.contains(k2) && #[trigger] f(k1) == #[trigger] f(k2) implies k1 == k2 by {
        if k1 < k2 {
            lemma_bjorklund_pos_injective(h, s, o, k1, k2);
        } else if k2 < k1 {
            lemma_bjorklund_pos_injective(h, s, o, k2, k1);
        }
    }
    assert(vstd::relations::injective_on(f, x));
    assert forall|p: int| #[trigger] x.map(f).contains(p) == bjorklund_onsets(hits, steps, offset).contains(p) by {
        if x.map(f).contains(p) {
            let k = choose|k: int| x.contains(k) && f(k) == p;
            assert(bjorklund_pos(k, h, s, o) == p);
            vstd::arithmetic::div_mod::lemma_mod_bound(k * s / h + o, s);
            assert(0 <= p < s);
        }
        if bjorklund_onsets(hits, steps, offset).contains(p) {
            let k = choose|k: int| 0 <= k < h && #[trigger] bjorklund_pos(k, h, s, o) == p;
            assert(x.contains(k) && f(k) == p);
        }
    }
    assert(x.map(f) =~= bjorklund_onsets(hits, steps, offset));
    vstd::set_lib::lemma_map_size(x, bjorklund_onsets(hits, steps, offset), f);
}

/// Consecutive Bjorklund hits (before rotation) lie ⌊steps/hits⌋ or
/// ⌊steps/hits⌋ + 1 steps apart: the hits are spread evenly.
pub proof fn lemma_bjorklund_even_spacing(k: int, h: int, s: int)
    requires
        0 < h <= s,
        0 <= k,
    ensures
        s / h <= (k + 1) * s / h - k * s / h <= s / h + 1,
{
    let a_ = k * s;
    assert(k * s >= 0) by (nonlinear_arith)
        requires
            k >= 0,
            s > 0,
    ;
    assert((k + 1) * s == a_ + s) by (nonlinear_arith)
        requires
            a_ == k * s,
    ;
    let a = a_ / h;
    let ra = a_ % h;
    let q = s / h;
    let r = s % h;
    vstd::arithmetic::div_mod::lemma_fundamental_div_mod(a_, h);
    vstd::arithmetic::div_mod::lemma_fundamental_div_mod(s, h);
    vstd::arithmetic::div_mod::lemma_mod_bound(a_, h);
    vstd::arithmetic::div_mod::lemma_mod_bound(s, h);
    assert(a_ + s == h * (a + q) + (ra + r)) by (nonlinear_arith)
        requires
            a_ == h * a + ra,
            s == h * q + r,
    ;
    if ra + r < h {
        vstd::arithmetic::div_mod::lemma_fundamental_div_mod_converse(a_ + s, h, a + q, ra + r);
    } else {
        assert(a_ + s == h * (a + q + 1) + (ra + r - h)) by (nonlinear_arith)
            requires
                a_ + s == h * (a + q) + (ra + r),
        ;
        vstd::arithmetic::div_mod::lemma_fundamental_div_mod_converse(a_ + s, h, a + q + 1, ra + r - h);
    }
}

/// Number of steps of the drum machine's patterns.
pub const DRUM_STEP_COUNT: usize = 16;

/// Whether step `p` of the drum lane's Euclidean pattern sounds (hits and
/// steps capped at 16).
pub open spec fn euclid_onset(hits: usize, steps: usize, offset: usize, p: int) -> bool {
    let s = min_usize(steps, 16) as int;
    let h = min_usize(min_usize(hits, steps), 16) as int;
    &&& hits != 0
    &&& steps != 0
    &&& 0 <= p < s
    &&& exists|i: int| 0 <= i < s && (#[trigger] (i * h) % s) < h && (i + offset) % s == p
}

/// Bresenham/Bjorklund: distribute `hits` evenly across `steps` (both capped
/// at 16), then rotate by `offset`; the drum machine's lane generator.
pub fn euclidean_pattern(hits: usize, steps: usize, offset: usize) -> (out: [bool; 16])
    requires
        offset + 16 <= usize::MAX,
    ensures
        forall|p: int| 0 <= p < 16 ==> out@[p] == euclid_onset(hits, steps, offset, p),
{
    let mut out = [false; 16];
    if steps == 0 || hits == 0 {
        return out;
    }
    let h0 = if hits <= steps {
        hits
    } else {
        steps
    };
    let h = if h0 <= DRUM_STEP_COUNT {
        h0
    } else {
        DRUM_STEP_COUNT
    };
    let s = if steps <= DRUM_STEP_COUNT {
        steps
    } else {
        DRUM_STEP_COUNT
    };
    let mut i: usize = 0;
    while i < s
        invariant
            0 < s <= 16,
            h <= 16,
            s == min_usize(steps, 16),
            h == min_usize(min_usize(hits, steps), 16),
            hits != 0,
            steps != 0,
            offset + 16 <= usize::MAX,
            i <= s,
            forall|p: int|
                0 <= p < 16 ==> (out@[p] <==> (p < s && exists|j: int|
                    0 <= j < i && (#[trigger] (j * h) % (s as int)) < h && (j + offset) % (s as int) == p)),
        decreases s - i,
    {
        assert(i * h <= 256) by (nonlinear_arith)
            requires
                i < 16,
                h <= 16,
        ;
        if (i * h) % s < h {
            let pos = (i + offset) % s;
            out[pos] = true;
        }
        proof {
            assert forall|q: int| 0 <= q < 16 implies (out@[q] <==> (q < s && exists|j: int|
                0 <= j < i + 1 && (#[trigger] (j * h) % (s as int)) < h && (j + offset) % (s as int) == q)) by {
                if exists|j: int|
                    0 <= j < i + 1 && (#[trigger] (j * h) % (s as int)) < h && (j + offset) % (s as int) == q {
                    let j = choose|j: int|
                        0 <= j < i + 1 && (#[trigger] (j * h) % (s as int)) < h && (j + offset) % (s as int) == q;
                    if j < i {
                        assert(q < s);
                    }
                }
            }
        }
        i += 1;
    }
    out
}

/// The sounding steps of a drum lane's Euclidean pattern.
pub open spec fn euclid_onsets(hits: usize, steps: usize, offset: usize) -> Set<int> {
    Set::new(|p: int| euclid_onset(hits, steps, offset, p))
}

/// The `k`-th hit of `h` over `s` steps falls on step ⌈k·s/h⌉.
pub open spec fn euclid_hit_step(k: int, h: int, s: int) -> int {
    (k * s + h - 1) / h
}

proof fn lemma_euclid_hit_step(k: int, h: int, s: int)
    requires
        0 < h <= s,
        0 <= k < h,
    ensures
        k * s <= euclid_hit_step(k, h, s) * h < k * s + h,
        0 <= euclid_hit_step(k, h, s) < s,
        (euclid_hit_step(k, h, s) * h) % s < h,
{
    let g = euclid_hit_step(k, h, s);
    let n = k * s + h - 1;
    assert(k * s >= 0) by (nonlinear_arith)
        requires
            k >= 0,
            s > 0,
    ;
    vstd::arithmetic::div_mod::lemma_fundamental_div_mod(n, h);
    vstd::arithmetic::div_mod::lemma_mod_bound(n, h);
    assert(h * g == g * h) by (nonlinear_arith);
    assert(g * h <= n && g * h > n - h);
    assert(k * s + h <= h * s) by (nonlinear_arith)
        requires
            k < h,
            h <= s,
            0 < h,
    ;
    assert(g < s) by (nonlinear_arith)
        requires
            g * h < k * s + h,
            k * s + h <= h * s,
            0 < h,
    ;
    assert(g >= 0) by (nonlinear_arith)
        requires
            g * h > n - h,
            n - h >= -1,
            0 < h,
    ;
    let r = g * h - k * s;
    assert(0 <= r < h);
    vstd::arithmetic::div_mod::lemma_fundamental_div_mod_converse(g * h, s, k, r);
}

proof fn lemma_euclid_hit_step_onto(i: int, h: int, s: int)
    requires
        0 < h <= s,
        0 <= i < s,
        (i * h) % s < h,
    ensures
        0 <= (i * h) / s < h,
        euclid_hit_step((i * h) / s, h, s) == i,
{
    let k = (i * h) / s;
    let r = (i * h) % s;
    vstd::arithmetic::div_mod::lemma_fundamental_div_mod(i * h, s);
    assert(i * h >= 0) by (nonlinear_arith)
        requires
            i >= 0,
            h > 0,
    ;
    vstd::arithmetic::div_mod::lemma_div_pos_is_pos(i * h, s);
    assert(i * h < s * h) by (nonlinear_arith)
        requires
            i < s,
            h > 0,
    ;
    vstd::arithmetic::div_mod::lemma_multiply_divide_lt(i * h, s, h);
    assert(s * k == k * s) by (nonlinear_arith);
    assert(k * s + h - 1 == i * h + (h - 1 - r));
    assert(0 <= h - 1 - r < h);
    vstd::arithmetic::div_mod::lemma_fundamental_div_mod_converse(k * s + h - 1, h, i, h - 1 - r);
}

proof fn lemma_euclid_hit_step_increasing(k1: int, k2: int, h: int, s: int)
    requires
        0 < h <= s,
        0 <= k1 < k2 < h,
    ensures
        euclid_hit_step(k1, h, s) < euclid_hit_step(k2, h, s),
{
    lemma_euclid_hit_step(k1, h, s);
    lemma_euclid_hit_step(k2, h, s);
    let g1 = euclid_hit_step(k1, h, s);
    let g2 = euclid_hit_step(k2, h, s);
    assert(k2 * s >= k1 * s + s) by (nonlinear_arith)
        requires
            k1 < k2,
            s > 0,
    ;
    assert(g1 < g2) by (nonlinear_arith)
        requires
            g1 * h < k1 * s + h,
            k2 * s <= g2 * h,
            k2 * s >= k1 * s + s,
            h <= s,
            0 < h,
    ;
}

/// A drum lane's Euclidean pattern sounds exactly min(hits, steps, 16) steps.
pub proof fn lemma_euclid_hit_count(hits: usize, steps: usize, offset: usize)
    requires
        hits > 0,
        steps > 0,
    ensures
        euclid_onsets(hits, steps, offset).finite(),
        euclid_onsets(hits, steps, offset).len() == min_usize(min_usize(hits, steps), 16),
{
    let s = min_usize(steps, 16) as int;
    let h = min_usize(min_usize(hits, steps), 16) as int;
    let o = offset as int;
    let f = |k: int| (euclid_hit_step(k, h, s) + o) % s;
    let x = vstd::set_lib::set_int_range(0, h);
    vstd::set_lib::lemma_int_range(0, h);
    assert forall|k1: int, k2: int| x.contains(k1) && x.contains(k2) && #[trigger] f(k1) == #[trigger] f(k2) implies k1 == k2 by {
        if k1 != k2 {
            let (a, b) = if k1 < k2 {
                (k1, k2)
            } else {
                (k2, k1)
            };
            lemma_euclid_hit_step_increasing(a, b, h, s);
            lemma_euclid_hit_step(a, h, s);
            lemma_euclid_hit_step(b, h, s);
            lemma_mod_distinct(euclid_hit_step(a, h, s) + o, euclid_hit_step(b, h, s) + o, s);
        }
    }
    assert(vstd::relations::injective_on(f, x));
    assert forall|p: int| #[trigger] x.map(f).contains(p) == euclid_onsets(hits, steps, offset).contains(p) by {
        if x.map(f).contains(p) {
            let k = choose|k: int| x.contains(k) && f(k) == p;
            lemma_euclid_hit_step(k, h, s);
            let i = euclid_hit_step(k, h, s);
            vstd::arithmetic::div_mod::lemma_mod_bound(i + o, s);
            assert(0 <= i < s && (i * h) % s < h && (i + o) % s == p);
            assert(euclid_onset(hits, steps, offset, p));
        }
        if euclid_onsets(hits, steps, offset).contains(p) {
            let i = choose|i: int| 0 <= i < s && (#[trigger] (i * h) % s) < h && (i + o) % s == p;
            lemma_euclid_hit_step_onto(i, h, s);
            let k = (i * h) / s;
            assert(x.contains(k) && f(k) == p);
        }
    }
    assert(x.map(f) =~= euclid_onsets(hits, steps, offset));
    vstd::set_lib::lemma_map_size(x, euclid_onsets(hits, steps, offset), f);
}


/// Every scale other than major labels its degrees as the minor key does:
/// i, iv and v minor, ii diminished, the rest major.
pub proof fn lemma_non_major_quality_is_minor(scale: ScaleType, degree: int)
    requires
        scale != ScaleType::Major,
    ensures
        chord_quality_spec(scale, degree) == chord_quality_spec(ScaleType::Minor, degree),
{
}

/// A degree counts as minor for the chord types (the Add9 third) exactly
/// when its quality label is minor ("m") or diminished ("°").
pub proof fn lemma_minor_degree_matches_label(scale: ScaleType, degree: int)
    ensures
        degree_is_minor(scale, degree) <==> (chord_quality_spec(scale, degree) == "m"@
            || chord_quality_spec(scale, degree) == "°"@),
{
    reveal_strlit("m");
    reveal_strlit("°");
    reveal_strlit("");
    assert("m"@.len() == 1 && "°"@.len() == 1 && ""@.len() == 0);
    assert("m"@[0] == 'm' && "°"@[0] == '°');
}

/// In a major or minor key the Add9 chord on a degree has the same third
/// as that degree's diatonic triad (minor on minor and diminished degrees,
/// major otherwise), as long as no note is clamped.
pub proof fn lemma_add9_third_is_diatonic(root: u8, scale: ScaleType, degree: int, octave: i32)
    requires
        scale == ScaleType::Major || scale == ScaleType::Minor,
        0 <= degree < 7,
        0 <= degree_pitch(root, scale, degree, octave),
        degree_pitch(root, scale, degree, octave) + 14 <= 127,
        scale_pitch(root, scale, degree + 4, octave as int) <= 127,
    ensures
        ({
            let c = chord_notes_typed_spec(root, scale, degree, octave, ChordType::Add9);
            let t = triad_spec(root, scale, degree, octave);
            &&& c.len() == 4
            &&& c[1] - c[0] == t[1] - t[0]
            &&& c[0] == t[0]
        }),
{
    lemma_triad_intervals(root, scale, degree, octave as int);
    lemma_minor_degree_matches_label(scale, degree);
    reveal_strlit("m");
    reveal_strlit("°");
    reveal_strlit("");
    assert("m"@.len() == 1 && "°"@.len() == 1 && ""@.len() == 0);
    assert("m"@[0] == 'm' && "°"@[0] == '°');
}

/// The voicings rearrange a chord of two or more notes (n₀ n₁ …) as named:
/// root position leaves it; first inversion moves n₀ an octave up to the
/// top; second inversion (three or more notes) moves n₀ then n₁ up; open
/// moves the third n₁ an octave up to the top; full adds n₀ an octave up.
/// Raised notes are clamped to 127.
pub proof fn lemma_voicing_shapes(n: Seq<u8>)
    requires
        n.len() >= 2,
    ensures
        apply_voicing_spec(n, VoicingType::Root) == n,
        apply_voicing_spec(n, VoicingType::First) == n.subrange(1, n.len() as int) + seq![
            clamp_midi(n[0] + 12),
        ],
        n.len() >= 3 ==> apply_voicing_spec(n, VoicingType::Second) == n.subrange(2, n.len() as int)
            + seq![clamp_midi(n[0] + 12), clamp_midi(n[1] + 12)],
        apply_voicing_spec(n, VoicingType::Open) == seq![n[0]] + n.subrange(2, n.len() as int) + seq![
            clamp_midi(n[1] + 12),
        ],
        apply_voicing_spec(n, VoicingType::Full) == n + seq![clamp_midi(n[0] + 12)],
{
    let len = n.len() as int;
    assert(apply_voicing_spec(n, VoicingType::First) =~= n.subrange(1, len) + seq![clamp_midi(n[0] + 12)]);
    if len >= 3 {
        assert(apply_voicing_spec(n, VoicingType::Second) =~= n.subrange(2, len) + seq![
            clamp_midi(n[0] + 12),
            clamp_midi(n[1] + 12),
        ]);
    }
    assert(apply_voicing_spec(n, VoicingType::Open) =~= seq![n[0]] + n.subrange(2, len) + seq![
        clamp_midi(n[1] + 12),
    ]);
    assert(apply_voicing_spec(n, VoicingType::Full) =~= n + seq![clamp_midi(n[0] + 12)]);
}

/// The movement score adds up every voice's move: nothing for no voices,
/// and each further voice adds the distance it moves.
pub proof fn lemma_movement_adds_up(a: Seq<u8>, b: Seq<u8>, k: int)
    requires
        0 <= k < a.len(),
        k < b.len(),
    ensures
        abs_diff_sum(a, b, 0) == 0,
        abs_diff_sum(a, b, k + 1) == abs_diff_sum(a, b, k) + if a[k] >= b[k] {
            a[k] - b[k]
        } else {
            b[k] - a[k]
        },
{
}

/// The score of a candidate voicing against the previous chord is the total
/// movement, voice by voice, of both chords sorted and cut to their common
/// length: the sum over the voices, not the largest single move.
pub proof fn lemma_voicing_score_is_total(c: Seq<u8>, p: Seq<u8>)
    ensures
        ({
            let len = min_len(c.len(), p.len());
            voicing_score(c, p) == abs_diff_sum(
                sorted_notes(c.take(len as int)),
                sorted_notes(p.take(len as int)),
                len as int,
            )
        }),
        forall|x: u8, y: u8|
            #[trigger] voicing_score(seq![x], seq![y]) == if x >= y {
                x - y
            } else {
                y - x
            },
{
    assert forall|x: u8, y: u8|
        #[trigger] voicing_score(seq![x], seq![y]) == if x >= y { x - y } else { y - x } by {
        let sx = seq![x];
        let sy = seq![y];
        assert(sx.take(1) =~= sx);
        assert(sy.take(1) =~= sy);
        assert(sorted_notes(sx) == insert_sorted(sorted_notes(sx.drop_last()), sx.last()));
        assert(sx.drop_last() =~= Seq::<u8>::empty());
        assert(sy.drop_last() =~= Seq::<u8>::empty());
        assert(sorted_notes(Seq::<u8>::empty()) == Seq::<u8>::empty());
        assert(insert_sorted(Seq::<u8>::empty(), x) =~= seq![x]);
        assert(insert_sorted(Seq::<u8>::empty(), y) =~= seq![y]);
        assert(abs_diff_sum(seq![x], seq![y], 1) == abs_diff_sum(seq![x], seq![y], 0) + if x >= y {
            x - y
        } else {
            y - x
        });
    }
}

} // verus!
