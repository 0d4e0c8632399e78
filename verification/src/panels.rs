//! Which panels of the studio layout are shown, and its persisted form.

use vstd::prelude::*;

verus! {

/// Persisted panel visibility (saved with the window layout).
#[derive(Debug, Clone, Copy, PartialEq, Eq, Structural)]
pub struct PanelVisibilityState {
    pub oscillators: bool,
    pub modulation: bool,
    pub keyboard: bool,
    pub sequencer: bool,
    pub arp_walker: bool,
    pub fx_chain: bool,
    pub scope: bool,
    pub midi: bool,
}

/// Panel visibility of the running app.
#[derive(Debug, Clone, Copy, PartialEq, Eq, Structural)]
pub struct PanelVisibility {
    pub oscillators: bool,
    pub modulation: bool,
    pub keyboard: bool,
    pub sequencer: bool,
    pub arp_walker: bool,
    pub fx_chain: bool,
    pub scope: bool,
    pub midi: bool,
}

impl Default for PanelVisibility {
    /// Every panel shown.
    fn default() -> (r: Self)
        ensures
            r.oscillators && r.modulation && r.keyboard && r.sequencer && r.arp_walker
                && r.fx_chain && r.scope && r.midi,
    {
        Self {
            oscillators: true,
            modulation: true,
            keyboard: true,
            sequencer: true,
            arp_walker: true,
            fx_chain: true,
            scope: true,
            midi: true,
        }
    }
}

impl PanelVisibility {
    /// The persisted form of `self`: every flag copied.
    pub open spec fn state_of(self) -> PanelVisibilityState {
        PanelVisibilityState {
            oscillators: self.oscillators,
            modulation: self.modulation,
            keyboard: self.keyboard,
            sequencer: self.sequencer,
            arp_walker: self.arp_walker,
            fx_chain: self.fx_chain,
            scope: self.scope,
            midi: self.midi,
        }
    }

    /// The visibility restored from `s`: every flag copied.
    pub open spec fn of_state(s: PanelVisibilityState) -> PanelVisibility {
        PanelVisibility {
            oscillators: s.oscillators,
            modulation: s.modulation,
            keyboard: s.keyboard,
            sequencer: s.sequencer,
            arp_walker: s.arp_walker,
            fx_chain: s.fx_chain,
            scope: s.scope,
            midi: s.midi,
        }
    }

    pub fn to_state(&self) -> (r: PanelVisibilityState)
        ensures
            r == self.state_of(),
    {
        PanelVisibilityState {
            oscillators: self.oscillators,
            modulation: self.modulation,
            keyboard: self.keyboard,
            sequencer: self.sequencer,
            arp_walker: self.arp_walker,
            fx_chain: self.fx_chain,
            scope: self.scope,
            midi: self.midi,
        }
    }

    pub fn from_state(s: &PanelVisibilityState) -> (r: Self)
        ensures
            r == Self::of_state(*s),
    {
        Self {
            oscillators: s.oscillators,
            modulation: s.modulation,
            keyboard: s.keyboard,
            sequencer: s.sequencer,
            arp_walker: s.arp_walker,
            fx_chain: s.fx_chain,
            scope: s.scope,
            midi: s.midi,
        }
    }
}

/// Saving the panel visibility and loading it back restores it exactly,
/// and so does loading a saved state and saving it again.
pub proof fn lemma_panel_state_round_trip(p: PanelVisibility, s: PanelVisibilityState)
    ensures
        PanelVisibility::of_state(p.state_of()) == p,
        PanelVisibility::of_state(s).state_of() == s,
{
}

} // verus!
