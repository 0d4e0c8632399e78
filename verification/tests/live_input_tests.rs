use forma::live_input::{
    chord_pads_frame, held_piano_notes, live_transpose, piano_frame, release_pads, toggle_freeze,
    NoteEvent,
};
use forma::sequencer::{ChordKbState, VoicingType};

use NoteEvent::{Off, On};

fn keys(down: &[usize]) -> [bool; 18] {
    let mut k = [false; 18];
    for &i in down {
        k[i] = true;
    }
    k
}

fn pads(down: &[(usize, usize)]) -> [[bool; 7]; 3] {
    let mut g = [[false; 7]; 3];
    for &(r, c) in down {
        g[r][c] = true;
    }
    g
}

#[test]
fn piano_keys_map_to_notes() {
    assert_eq!(held_piano_notes(&keys(&[0, 4, 17]), 4), vec![48, 52, 65]);
    assert_eq!(held_piano_notes(&keys(&[1, 12]), 1), vec![13, 24]);
    assert!(held_piano_notes(&keys(&[]), 7).is_empty());
}

#[test]
fn piano_press_and_release() {
    let f = piano_frame(&vec![], &keys(&[0, 4]), 4, false, &vec![], false);
    assert_eq!(f.held, vec![48, 52]);
    assert_eq!(f.events, vec![On(48), On(52)]);
    assert!(!f.freeze);
    let f = piano_frame(&f.held, &keys(&[4, 7]), 4, false, &f.frozen, false);
    assert_eq!(f.held, vec![52, 55]);
    assert_eq!(f.events, vec![On(55), Off(48)]);
    // A text field took focus: no keys, everything held is released.
    let f = piano_frame(&f.held, &keys(&[]), 4, false, &f.frozen, false);
    assert!(f.held.is_empty());
    assert_eq!(f.events, vec![Off(52), Off(55)]);
}

#[test]
fn freeze_holds_released_notes_until_a_new_note() {
    // Space turns freeze on; the released key keeps sounding.
    let f = piano_frame(&vec![52], &keys(&[]), 4, false, &vec![], true);
    assert!(f.freeze);
    assert!(f.events.is_empty());
    assert_eq!(f.frozen, vec![52]);
    // A new note first releases the frozen notes.
    let f = piano_frame(&f.held, &keys(&[0]), 4, f.freeze, &f.frozen, false);
    assert_eq!(f.events, vec![Off(52), On(48)]);
    assert!(f.frozen.is_empty());
    // Space again: freeze off, the frozen notes are released.
    let t = toggle_freeze(true, &vec![60, 64], true);
    assert!(!t.freeze);
    assert!(t.frozen.is_empty());
    assert_eq!(t.events, vec![Off(60), Off(64)]);
    let t = toggle_freeze(false, &vec![], false);
    assert!(!t.freeze);
    assert!(t.events.is_empty());
}

#[test]
fn chord_pads_press_and_release() {
    let kb = ChordKbState::new();
    let r = VoicingType::Root;
    let f = chord_pads_frame(&kb, &pads(&[]), &pads(&[(1, 0)]), r, r, r, false, &vec![], false, &vec![60]);
    assert_eq!(f.held, pads(&[(1, 0)]));
    assert_eq!(f.events, vec![On(48), On(52), On(55), Off(60)]);
    let f = chord_pads_frame(&kb, &f.held, &pads(&[]), r, r, r, false, &vec![], false, &vec![]);
    assert_eq!(f.events, vec![Off(48), Off(52), Off(55)]);
    // With freeze on, a released pad keeps sounding.
    let f = chord_pads_frame(&kb, &pads(&[(1, 0)]), &pads(&[]), r, r, r, true, &vec![], false, &vec![]);
    assert!(f.events.is_empty());
    assert_eq!(f.frozen, vec![48, 52, 55]);
}

#[test]
fn voicing_change_retriggers_held_pads() {
    let kb = ChordKbState::new();
    let f = chord_pads_frame(
        &kb,
        &pads(&[(1, 0)]),
        &pads(&[(1, 0)]),
        VoicingType::First,
        VoicingType::Root,
        VoicingType::First,
        false,
        &vec![],
        false,
        &vec![],
    );
    assert_eq!(f.events, vec![Off(48), Off(52), Off(55), On(52), On(55), On(60)]);
    assert_eq!(f.voicing_applied, VoicingType::First);
    assert_eq!(f.voicing, VoicingType::First);
}

#[test]
fn voicing_change_moves_frozen_notes() {
    let kb = ChordKbState::new();
    // 58 (B flat) first belongs to the C7 pad of the top row.
    let f = chord_pads_frame(
        &kb,
        &pads(&[]),
        &pads(&[]),
        VoicingType::First,
        VoicingType::Root,
        VoicingType::Root,
        true,
        &vec![58, 49],
        false,
        &vec![],
    );
    assert_eq!(
        f.events,
        vec![Off(58), On(52), Off(58), On(55), Off(58), On(58), Off(58), On(60)]
    );
    assert_eq!(f.frozen, vec![52, 55, 58, 60, 49]);
    assert_eq!(f.voicing, VoicingType::Root);
}

#[test]
fn leaving_chord_mode_releases_pads() {
    let kb = ChordKbState::new();
    assert_eq!(
        release_pads(&kb, &pads(&[(1, 0)]), VoicingType::Root),
        vec![Off(48), Off(52), Off(55)]
    );
}

#[test]
fn chord_sequencer_live_transpose() {
    let (root, ev) = live_transpose(&keys(&[2, 7]), 0, &vec![60]);
    assert_eq!(root, 7);
    assert_eq!(ev, vec![Off(60)]);
    assert_eq!(live_transpose(&keys(&[13]), 5, &vec![]).0, 1);
    assert_eq!(live_transpose(&keys(&[]), 5, &vec![]).0, 5);
}
