//! Edits of the drum machine's step patterns: reversing a lane (steps and
//! velocities together), filling a lane with pseudo-random steps, copying,
//! pasting and clearing a whole pattern, regenerating the Euclidean lanes,
//! and the steps a drum kit carries.

use vstd::prelude::*;
use crate::seq_clock::{lcg_next, lcg_step};
use crate::sequencer::{euclid_onset, euclidean_pattern, DRUM_STEP_COUNT};

verus! {

/// Number of drum channels (lanes) in a pattern.
pub const DRUM_CHANNELS: usize = 8;

/// One pattern: a lane of 16 steps per channel.
pub type DrumPattern = [[bool; 16]; 8];

/// Reverse a lane in place, so that step i takes the value of step 15 − i.
pub fn reverse_lane<T: Copy>(lane: &mut [T; 16])
    ensures
        final(lane)@ == old(lane)@.reverse(),
{
    let ghost orig = lane@;
    let mut i: usize = 0;
    while i < 8
        invariant
            0 <= i <= 8,
            orig.len() == 16,
            lane@.len() == 16,
            forall|j: int| 0 <= j < i ==> #[trigger] lane@[j] == orig[15 - j] && lane@[15 - j] == orig[j],
            forall|j: int| i <= j < 16 - i ==> lane@[j] == orig[j],
        decreases 8 - i,
    {
        let a = lane[i];
        let b = lane[15 - i];
        lane[i] = b;
        lane[15 - i] = a;
        i += 1;
    }
    assert forall|k: int| 0 <= k < 16 implies lane@[k] == orig.reverse()[k] by {
        if k >= 8 {
            assert(lane@[15 - k] == orig[15 - (15 - k)]);
        }
    }
    assert(lane@ =~= orig.reverse());
}

/// The reverse-lane button: the steps and their velocities are reversed
/// together.
pub fn reverse_lane_with_velocities(steps: &mut [bool; 16], vels: &mut [u8; 16])
    ensures
        final(steps)@ == old(steps)@.reverse(),
        final(vels)@ == old(vels)@.reverse(),
{
    reverse_lane(steps);
    reverse_lane(vels);
}

/// The generator state after `k` steps from `seed`.
pub open spec fn lcg_iter(seed: u32, k: nat) -> u32
    decreases k,
{
    if k == 0 {
        seed
    } else {
        lcg_step(lcg_iter(seed, (k - 1) as nat))
    }
}

/// Randomised lane from `seed`: step i is on when the top bit of the
/// generator's (i + 1)-th state is set (about half the steps).
pub open spec fn random_lane_spec(seed: u32) -> Seq<bool> {
    Seq::new(16, |i: int| lcg_iter(seed, (i + 1) as nat) >= 0x8000_0000)
}

/// Seed of the randomise button for lane `ch`: the clock's sub-second
/// nanoseconds plus `ch × 2891336453`, both with 32-bit wrap-around.
pub open spec fn lane_seed_spec(nanos: u32, ch: u32) -> u32 {
    ((nanos + (ch * 2891336453u32) % 0x1_0000_0000) % 0x1_0000_0000) as u32
}

/// Seed of the randomise button for lane `ch` (see `lane_seed_spec`).
pub fn lane_seed(nanos: u32, ch: u32) -> (r: u32)
    ensures
        r == lane_seed_spec(nanos, ch),
{
    nanos.wrapping_add(ch.wrapping_mul(2891336453u32))
}

/// Fill a lane with pseudo-random steps from `seed` (see
/// `random_lane_spec`).
pub fn random_lane(seed: u32) -> (r: [bool; 16])
    ensures
        r@ == random_lane_spec(seed),
{
    let mut lane = [false; 16];
    let mut rng = seed;
    let mut step: usize = 0;
    while step < DRUM_STEP_COUNT
        invariant
            step <= 16,
            DRUM_STEP_COUNT == 16,
            lane@.len() == 16,
            rng == lcg_iter(seed, step as nat),
            forall|j: int| 0 <= j < step ==> lane@[j] == (lcg_iter(seed, (j + 1) as nat) >= 0x8000_0000),
        decreases 16 - step,
    {
        rng = lcg_next(rng);
        let x = rng;
        let on = (x >> 31u32) != 0;
        assert(on == (x >= 0x8000_0000)) by (bit_vector)
            requires
                on == ((x >> 31u32) != 0),
        ;
        lane[step] = on;
        step += 1;
    }
    assert(lane@ =~= random_lane_spec(seed));
    lane
}

/// A pattern with every step off (the Clear button).
pub fn cleared_pattern() -> (r: DrumPattern)
    ensures
        forall|ch: int, i: int| 0 <= ch < 8 && 0 <= i < 16 ==> !#[trigger] r@[ch]@[i],
{
    [[false; 16]; 8]
}

/// The Copy button: the clipboard takes the active pattern.
pub fn copy_pattern(patterns: &[DrumPattern; 4], active: usize) -> (r: Option<DrumPattern>)
    requires
        active < 4,
    ensures
        r == Some(patterns@[active as int]),
{
    Some(patterns[active])
}

/// The Paste button: with something on the clipboard, the active pattern
/// becomes it; otherwise nothing changes.
pub fn paste_pattern(patterns: &mut [DrumPattern; 4], active: usize, clip: Option<DrumPattern>)
    requires
        active < 4,
    ensures
        final(patterns)@ == match clip {
            Some(c) => old(patterns)@.update(active as int, c),
            None => old(patterns)@,
        },
{
    match clip {
        Some(c) => {
            patterns[active] = c;
        },
        None => {},
    }
}

/// The Clear button: every step of the active pattern goes off; the other
/// patterns are unchanged.
pub fn clear_pattern(patterns: &mut [DrumPattern; 4], active: usize)
    requires
        active < 4,
    ensures
        final(patterns)@.len() == 4,
        forall|p: int| 0 <= p < 4 && p != active ==> final(patterns)@[p] == old(patterns)@[p],
        forall|ch: int, i: int|
            0 <= ch < 8 && 0 <= i < 16 ==> !#[trigger] final(patterns)@[active as int]@[ch]@[i],
{
    let c = cleared_pattern();
    patterns[active] = c;
}

/// Copying then pasting into the same slot leaves the patterns unchanged,
/// and reversing a lane twice gives it back.
pub proof fn lemma_lane_edits_undo(patterns: [DrumPattern; 4], active: int, lane: Seq<bool>)
    requires
        0 <= active < 4,
    ensures
        patterns@.update(active, patterns@[active]) == patterns@,
        lane.reverse().reverse() == lane,
{
    assert(patterns@.update(active, patterns@[active]) =~= patterns@);
    assert(lane.reverse().reverse() =~= lane);
}


/// Regenerate every lane of `pattern` whose Euclidean generator is on from
/// its hits, steps and offset; the other lanes are unchanged.
pub fn apply_euclid_lanes(
    pattern: &mut DrumPattern,
    on: &[bool; 8],
    hits: &[u8; 8],
    steps: &[u8; 8],
    offset: &[u8; 8],
)
    ensures
        final(pattern)@.len() == 8,
        forall|ch: int|
            0 <= ch < 8 && !on@[ch] ==> #[trigger] final(pattern)@[ch] == old(pattern)@[ch],
        forall|ch: int, p: int|
            0 <= ch < 8 && 0 <= p < 16 && on@[ch] ==> #[trigger] final(pattern)@[ch]@[p] == euclid_onset(
                hits@[ch] as usize,
                steps@[ch] as usize,
                offset@[ch] as usize,
                p,
            ),
{
    let ghost orig = *pattern;
    let mut ch: usize = 0;
    while ch < DRUM_CHANNELS
        invariant
            ch <= 8,
            DRUM_CHANNELS == 8,
            pattern@.len() == 8,
            forall|c: int| ch <= c < 8 ==> #[trigger] pattern@[c] == orig@[c],
            forall|c: int| 0 <= c < ch && !on@[c] ==> #[trigger] pattern@[c] == orig@[c],
            forall|c: int, p: int|
                0 <= c < ch && 0 <= p < 16 && on@[c] ==> #[trigger] pattern@[c]@[p] == euclid_onset(
                    hits@[c] as usize,
                    steps@[c] as usize,
                    offset@[c] as usize,
                    p,
                ),
        decreases 8 - ch,
    {
        if on[ch] {
            let lane = euclidean_pattern(hits[ch] as usize, steps[ch] as usize, offset[ch] as usize);
            pattern[ch] = lane;
        }
        ch += 1;
    }
}

/// The steps a drum kit carries: every pattern's steps and velocities.
pub struct DrumSteps {
    pub patterns: [DrumPattern; 4],
    pub step_vel: [[[u8; 16]; 8]; 4],
}

impl DrumSteps {
    /// The steps of the drum machine as they are now.
    pub fn capture(patterns: &[DrumPattern; 4], step_vel: &[[[u8; 16]; 8]; 4]) -> (r: Self)
        ensures
            r.patterns == *patterns,
            r.step_vel == *step_vel,
    {
        DrumSteps { patterns: *patterns, step_vel: *step_vel }
    }

    /// Load the kit's steps into the drum machine, which then shows its
    /// first pattern.
    pub fn apply_to(
        &self,
        patterns: &mut [DrumPattern; 4],
        step_vel: &mut [[[u8; 16]; 8]; 4],
        active: &mut usize,
    )
        ensures
            *final(patterns) == self.patterns,
            *final(step_vel) == self.step_vel,
            *final(active) == 0,
    {
        *patterns = self.patterns;
        *step_vel = self.step_vel;
        *active = 0;
    }
}

} // verus!
