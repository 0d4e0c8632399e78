use forma::midi_presets::{preset_bindings, presets, KeyboardPreset, ParamId};

#[test]
fn keylab_bindings() {
    let all = presets();
    assert_eq!(all.len(), 3);
    assert_eq!(all[0].name, "Arturia KeyLab MkIII");
    assert!(all[0].description.contains("Program Change"));
    let b = preset_bindings(&all[0]);
    assert_eq!(b.len(), 17);
    assert_eq!(b[&74], ParamId::FilterCutoff);
    assert_eq!(b[&80], ParamId::OscVol(0));
    assert_eq!(b[&82], ParamId::OscVol(2));
    assert_eq!(b[&7], ParamId::MasterVolume);
    assert!(!b.contains_key(&1));
}

#[test]
fn generic_and_minilab_bindings() {
    let all = presets();
    let g = preset_bindings(&all[2]);
    assert_eq!(g.len(), 4);
    assert_eq!(g[&1], ParamId::LfoDepth);
    let m = preset_bindings(&all[1]);
    assert_eq!(m.len(), 9);
    assert_eq!(m[&93], ParamId::FxChorusMix);
}

#[test]
fn later_bindings_win() {
    let p = KeyboardPreset {
        name: "dup",
        description: "",
        mappings: &[(10, ParamId::LfoRate), (10, ParamId::AmpDecay)],
    };
    let b = preset_bindings(&p);
    assert_eq!(b.len(), 1);
    assert_eq!(b[&10], ParamId::AmpDecay);
}
