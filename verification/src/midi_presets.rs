//! Named MIDI keyboard presets — default CC → parameter mappings.
//!
//! Each preset maps the hardware's factory CC assignments to useful synth
//! parameters. Users can further customise via MIDI learn after loading.

use vstd::prelude::*;

verus! {

broadcast use vstd::std_specs::hash::group_hash_axioms;

/// The synth parameters a controller can be bound to by the presets.
#[derive(Debug, Clone, Copy, PartialEq, Eq, Structural, Hash)]
pub enum ParamId {
    FilterCutoff,
    FilterResonance,
    FilterEnvAmount,
    LfoRate,
    LfoDepth,
    FxChorusMix,
    FxReverbMix,
    FxDelayMix,
    FxOverdriveMix,
    /// Level of oscillator 0, 1 or 2.
    OscVol(u8),
    AmpAttack,
    AmpDecay,
    AmpSustain,
    AmpRelease,
    MasterVolume,
}

/// A hardware keyboard's default bindings.
pub struct KeyboardPreset {
    pub name: &'static str,
    pub description: &'static str,
    pub mappings: &'static [(u8, ParamId)],
}

/// The presets' (name, description, CC bindings), in menu order.
pub open spec fn preset_table() -> Seq<(Seq<char>, Seq<char>, Seq<(u8, ParamId)>)> {
    seq![
        ("Arturia KeyLab MkIII"@, "9 encoders + 9 faders mapped to filter, LFO, FX, amp envelope and oscillator levels.\n\nPatch library (always active):\n  Wheel turn (CC 114) — browse all patches\n  Wheel press (CC 115) — pin current state to history\n  CC 60 — toggle favourite\n  CC 61 / 62 — prev / next favourite\n  CC 63 — randomize patch\n  Program Change — jump to patch by index"@, seq![(74u8, ParamId::FilterCutoff), (71u8, ParamId::FilterResonance), (76u8, ParamId::LfoRate), (77u8, ParamId::LfoDepth), (93u8, ParamId::FxChorusMix), (18u8, ParamId::FxReverbMix), (19u8, ParamId::FxDelayMix), (16u8, ParamId::FxOverdriveMix), (80u8, ParamId::OscVol(0)), (81u8, ParamId::OscVol(1)), (82u8, ParamId::OscVol(2)), (83u8, ParamId::AmpAttack), (84u8, ParamId::AmpDecay), (85u8, ParamId::AmpSustain), (86u8, ParamId::AmpRelease), (87u8, ParamId::FilterEnvAmount), (7u8, ParamId::MasterVolume)]),
        ("Arturia MiniLab MkIII"@, "8 encoders mapped to filter, LFO, and FX. Uses Analog Lab V factory preset."@, seq![(74u8, ParamId::FilterCutoff), (71u8, ParamId::FilterResonance), (76u8, ParamId::LfoRate), (77u8, ParamId::LfoDepth), (93u8, ParamId::FxChorusMix), (18u8, ParamId::FxReverbMix), (19u8, ParamId::FxDelayMix), (16u8, ParamId::FxOverdriveMix), (7u8, ParamId::MasterVolume)]),
        ("Generic"@, "Minimal mapping using standard CC numbers common to most keyboards."@, seq![(1u8, ParamId::LfoDepth), (7u8, ParamId::MasterVolume), (71u8, ParamId::FilterResonance), (74u8, ParamId::FilterCutoff)]),
    ]
}

/// The catalogue of keyboard presets.
pub fn presets() -> (r: Vec<KeyboardPreset>)
    ensures
        r@.len() == preset_table().len(),
        forall|i: int|
            0 <= i < r@.len() ==> {
                &&& (#[trigger] r@[i]).name@ == preset_table()[i].0
                &&& r@[i].description@ == preset_table()[i].1
                &&& r@[i].mappings@ == preset_table()[i].2
            },
{
    let r = vec![
        KeyboardPreset {
            name: "Arturia KeyLab MkIII",
            description: "9 encoders + 9 faders mapped to filter, LFO, FX, amp envelope and oscillator levels.\n\nPatch library (always active):\n  Wheel turn (CC 114) — browse all patches\n  Wheel press (CC 115) — pin current state to history\n  CC 60 — toggle favourite\n  CC 61 / 62 — prev / next favourite\n  CC 63 — randomize patch\n  Program Change — jump to patch by index",
            mappings: &[(74, ParamId::FilterCutoff), (71, ParamId::FilterResonance), (76, ParamId::LfoRate), (77, ParamId::LfoDepth), (93, ParamId::FxChorusMix), (18, ParamId::FxReverbMix), (19, ParamId::FxDelayMix), (16, ParamId::FxOverdriveMix), (80, ParamId::OscVol(0)), (81, ParamId::OscVol(1)), (82, ParamId::OscVol(2)), (83, ParamId::AmpAttack), (84, ParamId::AmpDecay), (85, ParamId::AmpSustain), (86, ParamId::AmpRelease), (87, ParamId::FilterEnvAmount), (7, ParamId::MasterVolume)],
        },
        KeyboardPreset {
            name: "Arturia MiniLab MkIII",
            description: "8 encoders mapped to filter, LFO, and FX. Uses Analog Lab V factory preset.",
            mappings: &[(74, ParamId::FilterCutoff), (71, ParamId::FilterResonance), (76, ParamId::LfoRate), (77, ParamId::LfoDepth), (93, ParamId::FxChorusMix), (18, ParamId::FxReverbMix), (19, ParamId::FxDelayMix), (16, ParamId::FxOverdriveMix), (7, ParamId::MasterVolume)],
        },
        KeyboardPreset {
            name: "Generic",
            description: "Minimal mapping using standard CC numbers common to most keyboards.",
            mappings: &[(1, ParamId::LfoDepth), (7, ParamId::MasterVolume), (71, ParamId::FilterResonance), (74, ParamId::FilterCutoff)],
        },
    ];
    assert(r@.len() == preset_table().len());
    r
}

/// The bindings of a mapping list: each CC bound to the parameter of its
/// last entry.
pub open spec fn bindings_of(m: Seq<(u8, ParamId)>) -> Map<u8, ParamId>
    decreases m.len(),
{
    if m.len() == 0 {
        Map::empty()
    } else {
        bindings_of(m.drop_last()).insert(m.last().0, m.last().1)
    }
}

/// Build the CC → parameter map of a preset.
pub fn preset_bindings(preset: &KeyboardPreset) -> (r: std::collections::HashMap<u8, ParamId>)
    ensures
        r@ == bindings_of(preset.mappings@),
{
    let mut r: std::collections::HashMap<u8, ParamId> = std::collections::HashMap::new();
    let mut k: usize = 0;
    while k < preset.mappings.len()
        invariant
            k <= preset.mappings@.len(),
            r@ == bindings_of(preset.mappings@.take(k as int)),
        decreases preset.mappings@.len() - k,
    {
        let (cc, p) = preset.mappings[k];
        r.insert(cc, p);
        assert(preset.mappings@.take(k + 1).drop_last() =~= preset.mappings@.take(k as int));
        k += 1;
    }
    assert(preset.mappings@.take(preset.mappings@.len() as int) =~= preset.mappings@);
    r
}

} // verus!
