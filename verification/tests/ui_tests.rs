use forma::eq::{default_band_type, BandType, BAND_COUNT};
use forma::keys::{
    arrow_voicing, key_note, mod_level_after, octave_after, pitch_bend_keys, sustain_pedal,
    velocity_after,
};
use forma::panels::{PanelVisibility, PanelVisibilityState};
use forma::scene::{default_key_hi, default_key_lo, TRACK_COUNT};
use forma::sequencer::{VoicingType, DEGREE_LABELS, NOTE_NAMES};
use forma::text::str_equal;
use forma::transport::{
    arp_restart_action, channel_silenced, pack_steps, route_targets, sync_active, walker_restart_at_bar, ArpRestart,
};
use forma::ui::{count_white_keys, is_white_key, midi_note_full, midi_note_name, Tab};

#[test]
fn note_names_with_octaves() {
    assert_eq!(midi_note_full(60), "C4");
    assert_eq!(midi_note_full(0), "C-1");
    assert_eq!(midi_note_full(11), "B-1");
    assert_eq!(midi_note_full(21), "A0");
    assert_eq!(midi_note_full(127), "G9");
    assert_eq!(midi_note_full(255), "D#20");
    assert_eq!(midi_note_name(61), "C#");
    assert_eq!(midi_note_name(71), "B");
}

#[test]
fn piano_keys() {
    assert!(is_white_key(60));
    assert!(!is_white_key(61));
    assert!(is_white_key(71));
    assert_eq!(count_white_keys(), 52);
}

#[test]
fn tab_titles() {
    assert_eq!(Tab::Filter.title(), "Filter & Envelopes");
    assert_eq!(Tab::Midi.title(), "MIDI & Latency");
    assert_eq!(Tab::all().len(), 8);
    assert_eq!(Tab::all()[6], Tab::Scope);
}

#[test]
fn panel_state_round_trip() {
    let mut p = PanelVisibility::default();
    assert!(p.oscillators && p.midi && p.scope);
    p.scope = false;
    p.keyboard = false;
    let s = p.to_state();
    assert!(!s.scope && !s.keyboard && s.fx_chain);
    assert_eq!(PanelVisibility::from_state(&s), p);
    let s2 = PanelVisibilityState {
        oscillators: false,
        modulation: true,
        keyboard: false,
        sequencer: true,
        arp_walker: false,
        fx_chain: true,
        scope: false,
        midi: true,
    };
    assert_eq!(PanelVisibility::from_state(&s2).to_state(), s2);
}

#[test]
fn scene_split_defaults() {
    assert_eq!(default_key_lo(), [0u8; TRACK_COUNT]);
    assert_eq!(default_key_hi(), [127u8; TRACK_COUNT]);
}

#[test]
fn restart_decisions() {
    assert!(sync_active(true, false));
    assert!(sync_active(false, true));
    assert!(!sync_active(false, false));
    assert_eq!(arp_restart_action(true, true, true), ArpRestart::AtNextBar);
    assert_eq!(arp_restart_action(true, true, false), ArpRestart::DeferToMetronome);
    assert_eq!(arp_restart_action(true, false, true), ArpRestart::Now);
    assert_eq!(arp_restart_action(false, true, true), ArpRestart::Now);
    assert!(walker_restart_at_bar(true, true, true));
    assert!(!walker_restart_at_bar(true, true, false));
}

#[test]
fn midi_routing_by_channel_and_split() {
    let ch = [0u8, 1, 2, 0];
    let lo = [0u8, 0, 0, 60];
    let hi = [127u8, 127, 127, 72];
    // Channel 0 (MIDI channel 1), note 64: omni track 0, channel-1 track 1, split track 3.
    assert_eq!(route_targets(&ch, &lo, &hi, 64, 0), [true, true, false, true]);
    // Channel 1, note 40: track 2 listens on channel 2; track 3's split excludes it.
    assert_eq!(route_targets(&ch, &lo, &hi, 40, 1), [true, false, true, false]);
    assert_eq!(route_targets(&ch, &lo, &hi, 72, 5), [true, false, false, true]);
}

#[test]
fn drum_step_masks() {
    let mut steps = [false; 16];
    assert_eq!(pack_steps(&steps), 0);
    steps[0] = true;
    steps[4] = true;
    steps[15] = true;
    assert_eq!(pack_steps(&steps), 0b1000_0000_0001_0001);
    assert_eq!(pack_steps(&[true; 16]), 0xffff);
}

#[test]
fn piano_controls() {
    assert_eq!(octave_after(4, true, false), 3);
    assert_eq!(octave_after(1, true, false), 1);
    assert_eq!(octave_after(7, false, true), 7);
    assert_eq!(octave_after(1, true, true), 2);
    assert_eq!(velocity_after(100, true, false), 90);
    assert_eq!(velocity_after(15, true, false), 10);
    assert_eq!(velocity_after(120, false, true), 127);
    assert_eq!(velocity_after(250, false, true), 127);
    assert_eq!(velocity_after(100, true, true), 100);
    assert_eq!(pitch_bend_keys(true, false), -2);
    assert_eq!(pitch_bend_keys(false, true), 2);
    assert_eq!(pitch_bend_keys(true, true), 0);
    assert_eq!(mod_level_after(3, &[false; 6]), 3);
    assert_eq!(mod_level_after(3, &[true, false, false, false, false, false]), 0);
    assert_eq!(mod_level_after(0, &[false, true, false, true, false, false]), 3);
    assert_eq!(arrow_voicing(false, true, true, false), VoicingType::Second);
    assert_eq!(arrow_voicing(false, false, false, true), VoicingType::Full);
    assert_eq!(arrow_voicing(false, false, false, false), VoicingType::Root);
    assert_eq!(key_note(4, 0), 48);
    assert_eq!(key_note(5, 17), 77);
    assert_eq!(key_note(30, 0), 104);
}

#[test]
fn sustain_pedal_freezes_and_releases() {
    assert_eq!(sustain_pedal(false, 127), (true, false));
    assert_eq!(sustain_pedal(true, 100), (true, false));
    assert_eq!(sustain_pedal(true, 0), (false, true));
    assert_eq!(sustain_pedal(false, 10), (false, false));
}

#[test]
fn eq_band_layout() {
    let types: Vec<BandType> = (0..BAND_COUNT).map(default_band_type).collect();
    assert_eq!(types[0], BandType::LowShelf);
    assert!(types[1..7].iter().all(|&t| t == BandType::Peak));
    assert_eq!(types[7], BandType::HighShelf);
    assert_eq!(default_band_type(20), BandType::HighShelf);
}

#[test]
fn string_equality() {
    assert!(str_equal("Pop", "Pop"));
    assert!(!str_equal("Pop", "Po"));
    assert!(!str_equal("Jazz", "Jazy"));
    assert!(str_equal("", ""));
}

#[test]
fn mute_and_solo() {
    let muted = [false, true, false, false];
    let none = [false; 4];
    assert!(!channel_silenced(&muted, &none, 0));
    assert!(channel_silenced(&muted, &none, 1));
    let soloed = [false, true, true, false];
    assert!(channel_silenced(&muted, &soloed, 0));
    assert!(channel_silenced(&muted, &soloed, 1));
    assert!(!channel_silenced(&muted, &soloed, 2));
    assert!(channel_silenced(&muted, &soloed, 3));
}

#[test]
fn name_tables() {
    assert_eq!(DEGREE_LABELS[4], "V");
    assert_eq!(NOTE_NAMES[6], "F#");
    for pc in 0..12u8 {
        assert_eq!(midi_note_name(pc), NOTE_NAMES[pc as usize]);
    }
}
