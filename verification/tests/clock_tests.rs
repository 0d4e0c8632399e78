use forma::seq_clock::{
    bar_restarts, can_plan_step, gate_off_ms, lcg_next, plan_step, step_transition, tick_timing,
};
use forma::sequencer::{ChordSeqState, NoteSeqState, SeqMode};

#[test]
fn lcg_matches_the_recurrence() {
    assert_eq!(lcg_next(0), 1013904223);
    assert_eq!(lcg_next(1), 1015568748);
    assert_eq!(lcg_next(0xdeadbeef), 1789648770);
}

#[test]
fn timing_without_humanize_is_on_grid() {
    let t = tick_timing(7, 0, SeqMode::NoteSeq, 1, 4, 120);
    assert_eq!(t.step_ms, 250);
    assert_eq!(t.offset_ms, 0);
    assert_eq!(t.lcg, 7);
    let t = tick_timing(7, 0, SeqMode::ChordSeq, 1, 4, 120);
    assert_eq!(t.step_ms, 2000);
    // The chord keyboard clocks eighth notes; a zero tempo counts as 1 BPM.
    let t = tick_timing(7, 0, SeqMode::ChordKb, 9, 9, 0);
    assert_eq!(t.step_ms, 30000);
}

#[test]
fn humanize_shifts_the_step() {
    // Positive sample: 250 ms step at 50 % → up to 56 ms, here +46 ms.
    let t = tick_timing(0xdeadbeef, 50, SeqMode::NoteSeq, 1, 4, 120);
    assert_eq!(t.lcg, 1789648770);
    assert_eq!(t.offset_ms, 46);
    // Negative sample: 2000 ms step at 100 % → up to 900 ms, here −899 ms.
    let t = tick_timing(682, 100, SeqMode::ChordSeq, 1, 4, 120);
    assert_eq!(t.lcg, 2149110273);
    assert_eq!(t.offset_ms, -899);
}

#[test]
fn note_steps_fire_and_advance() {
    let ns = NoteSeqState::new();
    let cs = ChordSeqState::new();
    // First tick after Play plays the stored step.
    let p = plan_step(SeqMode::NoteSeq, 0, true, 0xdeadbeef, &ns, &cs, &[]).unwrap();
    assert_eq!(p.current, 0);
    assert!(p.bar_boundary);
    assert_eq!(p.lcg, 1789648770);
    assert_eq!(p.events, vec![(52, 100)]);
    // Later ticks move on and wrap at the pattern length.
    let p = plan_step(SeqMode::NoteSeq, 3, false, 1, &ns, &cs, &[]).unwrap();
    assert_eq!(p.current, 4);
    assert!(!p.bar_boundary);
    assert_eq!(p.events, vec![(62, 100)]);
    let p = plan_step(SeqMode::NoteSeq, 7, false, 1, &ns, &cs, &[]).unwrap();
    assert_eq!(p.current, 0);
    assert!(p.bar_boundary);
    assert!(plan_step(SeqMode::ChordKb, 0, false, 1, &ns, &cs, &[]).is_none());
}

#[test]
fn probability_and_rests() {
    let mut ns = NoteSeqState::new();
    let cs = ChordSeqState::new();
    // Roll after 0xdeadbeef is 53 → 41 %: a 41 % step stays silent, 42 % fires.
    ns.probabilities[0] = 41;
    let p = plan_step(SeqMode::NoteSeq, 0, true, 0xdeadbeef, &ns, &cs, &[]).unwrap();
    assert!(p.events.is_empty());
    ns.probabilities[0] = 42;
    let p = plan_step(SeqMode::NoteSeq, 0, true, 0xdeadbeef, &ns, &cs, &[]).unwrap();
    assert_eq!(p.events, vec![(52, 100)]);
    ns.steps[0] = false;
    let p = plan_step(SeqMode::NoteSeq, 0, true, 0xdeadbeef, &ns, &cs, &[]).unwrap();
    assert!(p.events.is_empty());
}

#[test]
fn chord_steps_carry_velocity_and_voice_leading() {
    let ns = NoteSeqState::new();
    let mut cs = ChordSeqState::new();
    cs.velocities[1] = 90;
    let p = plan_step(SeqMode::ChordSeq, 0, false, 5, &ns, &cs, &[72, 76, 79]).unwrap();
    assert_eq!(p.current, 1);
    assert_eq!(p.events, vec![(53, 90), (57, 90), (60, 90)]);
    cs.voice_lead = true;
    let p = plan_step(SeqMode::ChordSeq, 0, false, 5, &ns, &cs, &[72, 76, 79]).unwrap();
    assert_eq!(p.events, vec![(60, 90), (65, 90), (69, 90)]);
}

#[test]
fn gate_lengths() {
    assert_eq!(gate_off_ms(250, 90, true), Some(225));
    assert_eq!(gate_off_ms(250, 100, true), None);
    assert_eq!(gate_off_ms(250, 50, false), None);
    // 0 % counts as 1 %, and no gate is shorter than 15 ms.
    assert_eq!(gate_off_ms(250, 0, true), Some(15));
    assert_eq!(gate_off_ms(2000, 0, true), Some(20));
}

#[test]
fn plannability_checks() {
    let mut ns = NoteSeqState::new();
    let mut cs = ChordSeqState::new();
    assert!(can_plan_step(SeqMode::NoteSeq, 3, false, &ns, &cs));
    assert!(can_plan_step(SeqMode::ChordKb, usize::MAX, false, &ns, &cs));
    assert!(!can_plan_step(SeqMode::NoteSeq, usize::MAX, false, &ns, &cs));
    ns.length = 0;
    assert!(!can_plan_step(SeqMode::NoteSeq, 0, true, &ns, &cs));
    ns.length = 30;
    assert!(!can_plan_step(SeqMode::NoteSeq, 24, true, &ns, &cs));
    assert!(can_plan_step(SeqMode::NoteSeq, 23, true, &ns, &cs));
    assert!(cs.step_computable(0));
    cs.octave = i32::MAX;
    assert!(!cs.step_computable(0));
    assert!(!can_plan_step(SeqMode::ChordSeq, 0, true, &ns, &cs));
    cs.octave = 4;
    cs.degrees[2] = usize::MAX;
    assert!(!cs.step_computable(2));
    assert!(!cs.step_computable(24));
}

#[test]
fn playhead_walks_from_the_stored_step() {
    let mut ns = NoteSeqState::new();
    ns.length = 8;
    let cs = ChordSeqState::new();
    let mut stored = 5;
    let mut first = true;
    let mut seen = Vec::new();
    for _ in 0..5 {
        let p = plan_step(SeqMode::NoteSeq, stored, first, 1, &ns, &cs, &[]).unwrap();
        seen.push(p.current);
        stored = p.current;
        first = false;
    }
    assert_eq!(seen, vec![5, 6, 7, 0, 1]);
}

#[test]
fn step_transition_pairs_every_note_on_with_one_off() {
    // Gate 90 %: the step's notes go off 225 ms in, nothing is left sounding.
    let t = step_transition(vec![40], vec![(60, 100), (64, 90)], 250, 90);
    assert_eq!(t.offs, vec![40]);
    assert_eq!(t.ons, vec![(60, 100), (64, 90)]);
    assert_eq!(t.gate_off, Some(225));
    assert_eq!(t.gate_notes, vec![60, 64]);
    assert!(t.sounding.is_empty());
    // Full gate: the notes sound on and the next step switches them off.
    let t = step_transition(vec![], vec![(60, 100)], 250, 100);
    assert_eq!(t.gate_off, None);
    assert!(t.gate_notes.is_empty());
    assert_eq!(t.sounding, vec![60]);
    let next = step_transition(t.sounding, vec![], 250, 50);
    assert_eq!(next.offs, vec![60]);
    assert_eq!(next.gate_off, None);
    assert!(next.sounding.is_empty());
}

#[test]
fn restart_flags_fire_once_on_the_bar() {
    assert_eq!(bar_restarts(false, true, true), (false, false, true, true));
    assert_eq!(bar_restarts(true, true, false), (true, false, false, false));
    let (_, _, a, w) = bar_restarts(true, true, true);
    assert_eq!(bar_restarts(true, a, w), (false, false, false, false));
}
