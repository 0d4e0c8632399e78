use forma::sequencer::{
    apply_voicing, best_voiced, bjorklund, chord_name, chord_notes, chord_notes_typed,
    chord_quality, euclidean_pattern, note_name, note_to_scale_degree, scale_intervals,
    scale_pitch_classes, scale_tones, ChordKbState, ChordSeqState, ChordType, NoteSeqState,
    PadConfig, ScaleType, SeqClockDiv, SeqMode, VoicingType,
};

#[test]
fn scale_labels_and_order() {
    assert_eq!(ScaleType::Major.label(), "Major");
    assert_eq!(ScaleType::Pentatonic.label(), "Pent");
    assert_eq!(ScaleType::PentatonicMinor.label(), "Pent m");
    let all = ScaleType::all_highlight();
    assert_eq!(all.len(), 5);
    assert_eq!(all[0], ScaleType::Major);
    assert_eq!(all[4], ScaleType::PentatonicMinor);
}

#[test]
fn scale_interval_tables() {
    assert_eq!(scale_intervals(ScaleType::Major), [0, 2, 4, 5, 7, 9, 11]);
    assert_eq!(scale_intervals(ScaleType::Dorian), [0, 2, 3, 5, 7, 9, 10]);
    assert_eq!(scale_intervals(ScaleType::Pentatonic), [0, 2, 4, 7, 9, 11, 0]);
    assert_eq!(scale_intervals(ScaleType::PentatonicMinor), [0, 3, 5, 7, 10, 12, 0]);
    assert_eq!(scale_tones(ScaleType::Dorian), &[0, 2, 3, 5, 7, 9, 10]);
    assert_eq!(scale_tones(ScaleType::Pentatonic), &[0, 2, 4, 7, 9]);
}

#[test]
fn pitch_classes_of_transposed_scales() {
    let c_major = scale_pitch_classes(ScaleType::Major, 0);
    assert_eq!(
        c_major,
        [true, false, true, false, true, true, false, true, false, true, false, true]
    );
    // A minor holds the same pitch classes as C major.
    assert_eq!(scale_pitch_classes(ScaleType::Minor, 9), c_major);
    // D major pentatonic: D E F# A B.
    let d_pent = scale_pitch_classes(ScaleType::Pentatonic, 2);
    let expected: Vec<usize> = vec![2, 4, 6, 9, 11];
    for pc in 0..12 {
        assert_eq!(d_pent[pc], expected.contains(&pc), "pitch class {}", pc);
    }
    // A root above an octave wraps.
    assert_eq!(scale_pitch_classes(ScaleType::Major, 12), c_major);
}

#[test]
fn seq_mode_codes_round_trip() {
    for m in [SeqMode::NoteSeq, SeqMode::ChordSeq, SeqMode::ChordKb] {
        assert!(SeqMode::from_u8(m.to_u8()) == m);
    }
    assert_eq!(SeqMode::ChordKb.to_u8(), 2);
    assert!(SeqMode::from_u8(200) == SeqMode::NoteSeq);
    assert_eq!(SeqMode::ChordSeq.label(), "Chord Seq");
}

#[test]
fn chord_qualities_and_names() {
    assert_eq!(chord_quality(ScaleType::Major, 0), "");
    assert_eq!(chord_quality(ScaleType::Major, 1), "m");
    assert_eq!(chord_quality(ScaleType::Major, 6), "°");
    assert_eq!(chord_quality(ScaleType::Minor, 1), "°");
    assert_eq!(chord_quality(ScaleType::Dorian, 2), "");
    assert_eq!(chord_quality(ScaleType::Major, 8), "m");
    assert_eq!(chord_name(0, ScaleType::Major, 0), "C");
    assert_eq!(chord_name(0, ScaleType::Major, 1), "Dm");
    assert_eq!(chord_name(0, ScaleType::Major, 6), "B°");
    assert_eq!(chord_name(9, ScaleType::Minor, 0), "Am");
    assert_eq!(chord_name(7, ScaleType::Major, 3), "C");
    assert_eq!(chord_name(11, ScaleType::Major, 4), "F#");
    assert_eq!(note_name(10), "A#");
}

#[test]
fn triads_in_c_major() {
    assert_eq!(chord_notes(0, ScaleType::Major, 0, 4), [60, 64, 67]);
    assert_eq!(chord_notes(0, ScaleType::Major, 5, 4), [69, 72, 76]);
    assert_eq!(chord_notes(0, ScaleType::Major, 6, 4), [71, 74, 77]);
    // Degrees past the seventh continue in the next octave.
    assert_eq!(chord_notes(0, ScaleType::Major, 7, 4), [72, 76, 79]);
    // Notes clamp to the MIDI range.
    assert_eq!(chord_notes(0, ScaleType::Major, 0, 9), [120, 124, 127]);
    assert_eq!(chord_notes(0, ScaleType::Major, 0, -2), [0, 0, 0]);
    assert_eq!(chord_notes(0, ScaleType::Major, 0, -1), [0, 4, 7]);
}

#[test]
fn voicings_rearrange_the_chord() {
    let c = vec![60u8, 64, 67];
    assert_eq!(apply_voicing(c.clone(), VoicingType::Root), vec![60, 64, 67]);
    assert_eq!(apply_voicing(c.clone(), VoicingType::First), vec![64, 67, 72]);
    assert_eq!(apply_voicing(c.clone(), VoicingType::Second), vec![67, 72, 76]);
    assert_eq!(apply_voicing(c.clone(), VoicingType::Open), vec![60, 67, 76]);
    assert_eq!(apply_voicing(c, VoicingType::Full), vec![60, 64, 67, 72]);
    assert_eq!(apply_voicing(vec![60], VoicingType::First), vec![60]);
    assert_eq!(apply_voicing(vec![60, 67], VoicingType::Second), vec![60, 67]);
    assert_eq!(apply_voicing(vec![120, 124], VoicingType::First), vec![124, 127]);
    assert_eq!(apply_voicing(Vec::new(), VoicingType::Full), Vec::<u8>::new());
}

#[test]
fn voicing_cycle() {
    let mut v = VoicingType::Root;
    let order = [
        VoicingType::First,
        VoicingType::Second,
        VoicingType::Open,
        VoicingType::Full,
        VoicingType::Root,
    ];
    for expected in order {
        v = v.next();
        assert_eq!(v, expected);
    }
    for v in VoicingType::all() {
        assert_eq!(v.next().prev(), *v);
        assert_eq!(v.prev().next(), *v);
    }
    assert_eq!(VoicingType::default(), VoicingType::Root);
    assert_eq!(VoicingType::Second.label(), "2nd");
    assert_eq!(VoicingType::Open.short(), "O");
}

#[test]
fn voice_leading_picks_the_closest_inversion() {
    // F major after a high C major: the second inversion moves least.
    assert_eq!(best_voiced(vec![65, 69, 72], &[72, 76, 79]), vec![72, 77, 81]);
    // G major after C major: root position is already closest.
    assert_eq!(best_voiced(vec![67, 71, 74], &[60, 64, 67]), vec![67, 71, 74]);
    // Ties keep the earlier inversion.
    assert_eq!(best_voiced(vec![65, 69, 72], &[67, 71, 74]), vec![65, 69, 72]);
    // No previous chord: root position.
    assert_eq!(best_voiced(vec![65, 69, 72], &[]), vec![65, 69, 72]);
    assert_eq!(best_voiced(Vec::new(), &[60]), Vec::<u8>::new());
    // Only the common prefix of the two chords is compared.
    assert_eq!(best_voiced(vec![60, 64, 67, 71], &[64, 67]), vec![64, 67, 71, 72]);
}

#[test]
fn typed_chords() {
    let notes = |ct| chord_notes_typed(0, ScaleType::Major, 0, 4, ct);
    assert_eq!(notes(ChordType::Triad), vec![48, 52, 55]);
    assert_eq!(notes(ChordType::Maj7), vec![48, 52, 55, 59]);
    assert_eq!(notes(ChordType::Min7), vec![48, 51, 55, 58]);
    assert_eq!(notes(ChordType::Dom7), vec![48, 52, 55, 58]);
    assert_eq!(notes(ChordType::Sus2), vec![48, 50, 55]);
    assert_eq!(notes(ChordType::Sus4), vec![48, 53, 55]);
    assert_eq!(notes(ChordType::Add9), vec![48, 52, 55, 62]);
    assert_eq!(notes(ChordType::Power), vec![48, 55]);
    // Add9 on a minor degree uses a minor third: D F A E.
    assert_eq!(
        chord_notes_typed(0, ScaleType::Major, 1, 4, ChordType::Add9),
        vec![50, 53, 57, 64]
    );
    assert_eq!(
        chord_notes_typed(0, ScaleType::Major, 1, 4, ChordType::Triad),
        vec![50, 53, 57]
    );
    assert_eq!(
        chord_notes_typed(0, ScaleType::Major, 8, 4, ChordType::Min7),
        vec![62, 65, 69, 72]
    );
    assert_eq!(
        chord_notes_typed(0, ScaleType::Major, 0, 10, ChordType::Maj7),
        vec![120, 124, 127, 127]
    );
    assert_eq!(ChordType::all().len(), 8);
    assert_eq!(ChordType::Add9.label(), "Add9");
}

#[test]
fn pad_config_follows_scale_degree() {
    let p = PadConfig::new(ChordType::Sus4);
    assert_eq!(p.chord_type, ChordType::Sus4);
    assert_eq!(p.custom_root, None);
}

#[test]
fn default_note_pattern() {
    let s = NoteSeqState::new();
    assert_eq!(s.length, 8);
    assert_eq!(&s.notes[..8], &[52, 55, 57, 55, 62, 60, 62, 52]);
    assert!(s.notes[8..].iter().all(|&n| n == 60));
    assert!(s.steps[..8].iter().all(|&b| b));
    assert!(s.steps[8..].iter().all(|&b| !b));
    assert!(s.velocities.iter().all(|&v| v == 100));
    assert!(s.probabilities.iter().all(|&p| p == 100));
}

#[test]
fn default_chord_progression_and_step_notes() {
    let s = ChordSeqState::new();
    assert_eq!(&s.degrees[..8], &[0, 3, 4, 3, 0, 4, 5, 3]);
    assert_eq!(s.octave, 4);
    assert_eq!(s.step_notes(0), vec![48, 52, 55]);
    assert_eq!(s.step_notes(1), vec![53, 57, 60]);
    assert_eq!(s.step_notes(6), vec![57, 60, 64]);
    let mut s = s;
    s.voicings[1] = VoicingType::First;
    s.octave_offsets[2] = -1;
    assert_eq!(s.step_notes(1), vec![57, 60, 65]);
    assert_eq!(s.step_notes(2), vec![43, 47, 50]);
    // Without voice leading the stored voicing applies.
    assert_eq!(s.step_notes_vl(1, &[72, 76, 79]), vec![57, 60, 65]);
    s.voice_lead = true;
    assert_eq!(s.step_notes_vl(1, &[72, 76, 79]), vec![60, 65, 69]);
    // Voice leading with nothing sounding falls back to the stored voicing.
    assert_eq!(s.step_notes_vl(1, &[]), vec![57, 60, 65]);
}

#[test]
fn nearest_scale_degree() {
    assert_eq!(note_to_scale_degree(64, 0, ScaleType::Major), 2);
    assert_eq!(note_to_scale_degree(71, 0, ScaleType::Major), 6);
    // C# is one semitone from C and from D: the lower degree wins.
    assert_eq!(note_to_scale_degree(61, 0, ScaleType::Major), 0);
    assert_eq!(note_to_scale_degree(57, 9, ScaleType::Minor), 0);
    // B is a semitone below C around the circle.
    assert_eq!(note_to_scale_degree(59, 0, ScaleType::Pentatonic), 5);
}

#[test]
fn chord_keyboard_rows() {
    let mut kb = ChordKbState::new();
    assert_eq!(kb.pads[0][3].chord_type, ChordType::Dom7);
    assert_eq!(kb.pads[1][0].chord_type, ChordType::Triad);
    assert_eq!(kb.pads[2][6].chord_type, ChordType::Sus2);
    assert!(kb.kb_held.is_empty());
    assert!(kb.show_piano_preview);
    assert_eq!(kb.chord_notes_for(1, 0), vec![48, 52, 55]);
    assert_eq!(kb.chord_notes_for(0, 4), vec![55, 59, 62, 65]);
    assert_eq!(kb.chord_notes_for(2, 1), vec![50, 52, 57]);
    kb.pads[0][2].chord_type = ChordType::Power;
    kb.pads[1][2].chord_type = ChordType::Power;
    kb.reset_row(0);
    assert_eq!(kb.pads[0][2].chord_type, ChordType::Dom7);
    assert_eq!(kb.pads[1][2].chord_type, ChordType::Power);
}

#[test]
fn clock_division_durations() {
    assert_eq!(SeqClockDiv::step_dur_ms(1, 120), 250);
    assert_eq!(SeqClockDiv::step_dur_ms(4, 120), 2000);
    assert_eq!(SeqClockDiv::step_dur_ms(10, 120), 128000);
    assert_eq!(SeqClockDiv::step_dur_ms(0, 0), 15000);
    assert_eq!(SeqClockDiv::step_dur_ms(2, 7), 8571);
    // Halves round up: 937.5 ms.
    assert_eq!(SeqClockDiv::step_dur_ms(0, 16), 938);
    // Unknown divisions count as an eighth note.
    assert_eq!(SeqClockDiv::step_dur_ms(99, 120), 250);
    assert_eq!(SeqClockDiv::labels()[4], "1");
    assert_eq!(SeqClockDiv::labels().len(), 11);
}

#[test]
fn bjorklund_spreads_hits() {
    assert_eq!(
        bjorklund(3, 8, 0),
        vec![true, false, true, false, false, true, false, false]
    );
    assert_eq!(
        bjorklund(3, 8, 1),
        vec![false, true, false, true, false, false, true, false]
    );
    assert_eq!(bjorklund(4, 4, 0), vec![true; 4]);
    assert_eq!(bjorklund(9, 4, 0), vec![true; 4]);
    assert_eq!(bjorklund(0, 5, 2), vec![false; 5]);
    assert_eq!(bjorklund(3, 0, 0), Vec::<bool>::new());
    assert_eq!(bjorklund(5, 16, 0).iter().filter(|&&b| b).count(), 5);
}

#[test]
fn drum_lane_euclid() {
    let p = euclidean_pattern(3, 8, 0);
    let on: Vec<usize> = (0..16).filter(|&i| p[i]).collect();
    assert_eq!(on, vec![0, 3, 6]);
    let p = euclidean_pattern(3, 8, 2);
    let on: Vec<usize> = (0..16).filter(|&i| p[i]).collect();
    assert_eq!(on, vec![0, 2, 5]);
    let p = euclidean_pattern(4, 16, 0);
    let on: Vec<usize> = (0..16).filter(|&i| p[i]).collect();
    assert_eq!(on, vec![0, 4, 8, 12]);
    // Steps above 16 are capped.
    assert_eq!(euclidean_pattern(40, 40, 0), [true; 16]);
    assert_eq!(euclidean_pattern(0, 8, 0), [false; 16]);
    assert_eq!(euclidean_pattern(3, 0, 0), [false; 16]);
}

#[test]
fn euclid_hit_counts() {
    for steps in 1..=20usize {
        for hits in 1..=20usize {
            let expected = hits.min(steps).min(16);
            let p = euclidean_pattern(hits, steps, 3);
            assert_eq!(p.iter().filter(|&&b| b).count(), expected, "{} over {}", hits, steps);
            let b = bjorklund(hits, steps, 5);
            assert_eq!(b.iter().filter(|&&x| x).count(), hits.min(steps));
        }
    }
}

#[test]
fn triad_intervals_follow_quality_labels() {
    for scale in [ScaleType::Major, ScaleType::Minor] {
        for degree in 0..7 {
            let t = chord_notes(0, scale, degree, 4);
            let (third, fifth) = match chord_quality(scale, degree) {
                "m" => (3, 7),
                "°" => (3, 6),
                _ => (4, 7),
            };
            assert_eq!(t[1] - t[0], third);
            assert_eq!(t[2] - t[0], fifth);
        }
    }
}

#[test]
fn pitch_class_count_matches_tone_count() {
    for scale in [
        ScaleType::Major,
        ScaleType::Minor,
        ScaleType::Dorian,
        ScaleType::Pentatonic,
        ScaleType::PentatonicMinor,
    ] {
        for root in [0u8, 5, 11, 200] {
            let arr = scale_pitch_classes(scale, root);
            assert_eq!(arr.iter().filter(|&&b| b).count(), scale_tones(scale).len());
        }
    }
}

#[test]
fn rotated_bjorklund_is_shifted() {
    let base = bjorklund(3, 8, 0);
    let rotated = bjorklund(3, 8, 2);
    for i in 0..8 {
        assert_eq!(rotated[(i + 2) % 8], base[i]);
    }
}
