use forma::pattern_library::{
    apply_harmony, apply_melody, harmony_categories, harmony_presets, melody_categories,
    melody_presets,
};
use forma::sequencer::{ChordSeqState, ChordType, NoteSeqState, VoicingType};

#[test]
fn harmony_library_shape() {
    let presets = harmony_presets();
    assert_eq!(presets.len(), 22);
    assert_eq!(presets[0].name, "I – V – vi – IV");
    assert_eq!(presets[10].name, "12-bar Blues");
    assert_eq!(presets[10].length, 12);
    for p in &presets {
        assert_eq!(p.degrees.len(), p.length);
        assert!(p.degrees.iter().all(|&d| d < 7));
    }
}

#[test]
fn melody_library_shape() {
    let presets = melody_presets();
    assert_eq!(presets.len(), 20);
    assert_eq!(presets[11].name, "Octave Pump");
    for p in &presets {
        assert_eq!(p.notes.len(), p.length);
        assert_eq!(p.active.len(), p.length);
    }
}

#[test]
fn category_lists_are_distinct_and_ordered() {
    assert_eq!(harmony_categories(), vec!["Pop", "Jazz", "Blues", "Modal", "Ambient"]);
    assert_eq!(melody_categories(), vec!["Arpeggio", "Scale Run", "Bass", "Motif"]);
}

#[test]
fn loading_a_progression() {
    let mut s = ChordSeqState::new();
    s.chord_types[0] = ChordType::Maj7;
    s.octave_offsets[1] = 2;
    s.voicings[0] = VoicingType::Open;
    s.steps[20] = true;
    s.degrees[20] = 6;
    let presets = harmony_presets();
    apply_harmony(&mut s, &presets[10]);
    assert_eq!(s.length, 12);
    assert_eq!(&s.degrees[..12], &[0, 0, 0, 0, 3, 3, 0, 0, 4, 3, 0, 4]);
    assert!(s.steps[..12].iter().all(|&b| b));
    assert!(s.steps[12..].iter().all(|&b| !b));
    assert_eq!(s.chord_types[0], ChordType::Triad);
    assert_eq!(s.octave_offsets[1], 0);
    assert_eq!(s.voicings[0], VoicingType::Open);
    assert_eq!(s.degrees[20], 6);
}

#[test]
fn loading_a_melody_transposes_and_clamps() {
    let mut s = NoteSeqState::new();
    s.notes[10] = 99;
    let presets = melody_presets();
    // "Octave Pump" around C4.
    apply_melody(&mut s, &presets[11], 60);
    assert_eq!(&s.notes[..8], &[48, 48, 60, 48, 48, 60, 48, 60]);
    assert_eq!(&s.steps[..8], &[true, true, false, true, true, false, true, false]);
    assert_eq!(s.notes[10], 99);
    // Very low base notes are held at A0 (21).
    apply_melody(&mut s, &presets[11], 25);
    assert_eq!(s.notes[0], 21);
    assert_eq!(s.notes[2], 25);
    // And high ones at C8 (108).
    apply_melody(&mut s, &presets[0], 100);
    assert_eq!(&s.notes[..4], &[100, 104, 107, 108]);
}
