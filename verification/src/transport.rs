//! Transport decisions of the live rig: clock-sync flags, bar-quantised
//! restarts, hardware MIDI routing across the tracks, and the drum
//! machine's step masks.

use vstd::prelude::*;

verus! {

/// A component follows the master tempo when global sync is on or its own
/// sync toggle is.
pub fn sync_active(global_sync: bool, component_sync: bool) -> (r: bool)
    ensures
        r == (global_sync || component_sync),
{
    global_sync || component_sync
}

/// What an arpeggiator restart request turns into.
#[derive(Debug, Clone, Copy, PartialEq, Eq, Structural)]
pub enum ArpRestart {
    /// The running sequencer fires the restart at its next bar boundary.
    AtNextBar,
    /// No sequencer runs: the metronome's next bar wrap starts the arp.
    DeferToMetronome,
    /// Restart the arpeggiator immediately.
    Now,
}

/// Decide how to restart the arpeggiator: bar-quantised when it is synced
/// and bar quantise is on, else at once.
pub fn arp_restart_action(arp_sync_active: bool, bar_quantize: bool, playing: bool) -> (r: ArpRestart)
    ensures
        r == if arp_sync_active && bar_quantize {
            if playing {
                ArpRestart::AtNextBar
            } else {
                ArpRestart::DeferToMetronome
            }
        } else {
            ArpRestart::Now
        },
{
    if arp_sync_active && bar_quantize {
        if playing {
            ArpRestart::AtNextBar
        } else {
            ArpRestart::DeferToMetronome
        }
    } else {
        ArpRestart::Now
    }
}

/// Decide how to restart the scale walker: at the next bar only when it is
/// synced, bar quantise is on and the sequencer plays (`true`); otherwise
/// at once (`false`).
pub fn walker_restart_at_bar(walker_sync_active: bool, bar_quantize: bool, playing: bool) -> (r: bool)
    ensures
        r == (walker_sync_active && bar_quantize && playing),
{
    walker_sync_active && bar_quantize && playing
}

/// Whether a track with MIDI channel filter `midi_ch` (0 = omni, 1–16) and
/// key range `lo`..=`hi` takes a note on 0-based `channel`.
pub open spec fn track_accepts(midi_ch: u8, lo: u8, hi: u8, note: u8, channel: u8) -> bool {
    (midi_ch == 0 || midi_ch == channel + 1) && lo <= note <= hi
}

/// The tracks a hardware NoteOn reaches in live mode: each whose channel
/// filter and keyboard split match.
pub fn route_targets(
    track_midi_ch: &[u8; 4],
    track_key_lo: &[u8; 4],
    track_key_hi: &[u8; 4],
    note: u8,
    channel: u8,
) -> (r: [bool; 4])
    requires
        channel < 255,
    ensures
        forall|t: int|
            0 <= t < 4 ==> r@[t] == track_accepts(
                track_midi_ch@[t],
                track_key_lo@[t],
                track_key_hi@[t],
                note,
                channel,
            ),
{
    let mut r = [false; 4];
    let mut t: usize = 0;
    while t < 4
        invariant
            t <= 4,
            channel < 255,
            forall|u: int|
                0 <= u < 4 ==> r@[u] == (u < t && track_accepts(
                    track_midi_ch@[u],
                    track_key_lo@[u],
                    track_key_hi@[u],
                    note,
                    channel,
                )),
        decreases 4 - t,
    {
        let ch_ok = track_midi_ch[t] == 0 || track_midi_ch[t] == channel + 1;
        let key_ok = note >= track_key_lo[t] && note <= track_key_hi[t];
        r[t] = ch_ok && key_ok;
        t += 1;
    }
    r
}

/// Whether any entry of `soloed` is set.
pub open spec fn any_soloed(soloed: Seq<bool>) -> bool {
    exists|i: int| 0 <= i < soloed.len() && soloed[i]
}

/// A track or drum channel is silent when muted, or when another one is
/// soloed and it is not.
pub open spec fn silenced_spec(muted: Seq<bool>, soloed: Seq<bool>, i: int) -> bool {
    muted[i] || (any_soloed(soloed) && !soloed[i])
}

/// Whether channel `i` is silenced by the mute and solo switches.
pub fn channel_silenced(muted: &[bool], soloed: &[bool], i: usize) -> (r: bool)
    requires
        i < muted@.len(),
        i < soloed@.len(),
    ensures
        r == silenced_spec(muted@, soloed@, i as int),
{
    let mut any_solo = false;
    let mut k: usize = 0;
    while k < soloed.len()
        invariant
            k <= soloed@.len(),
            any_solo == exists|j: int| 0 <= j < k && soloed@[j],
        decreases soloed@.len() - k,
    {
        if soloed[k] {
            any_solo = true;
        }
        k += 1;
    }
    muted[i] || (any_solo && !soloed[i])
}

/// With nothing soloed only the mutes silence; a soloed channel is heard
/// unless it is muted itself.
pub proof fn lemma_solo_rules(muted: Seq<bool>, soloed: Seq<bool>, i: int)
    requires
        0 <= i < muted.len(),
        0 <= i < soloed.len(),
    ensures
        !any_soloed(soloed) ==> (silenced_spec(muted, soloed, i) == muted[i]),
        soloed[i] ==> (silenced_spec(muted, soloed, i) == muted[i]),
        any_soloed(soloed) && !soloed[i] ==> silenced_spec(muted, soloed, i),
{
}

/// Bit `k` of a step mask.
pub open spec fn mask_bit(mask: u16, k: int) -> bool {
    (mask as int / pow2_16(k)) % 2 == 1
}

/// 2 to the power `k`, for `k` in 0..16.
pub open spec fn pow2_16(k: int) -> int
    decreases k,
{
    if k <= 0 {
        1
    } else {
        2 * pow2_16(k - 1)
    }
}

/// The step mask the drum engine reads: bit `k` set exactly when step `k`
/// is on.
pub fn pack_steps(steps: &[bool; 16]) -> (mask: u16)
    ensures
        forall|k: int| 0 <= k < 16 ==> mask_bit(mask, k) == steps@[k],
{
    let mut mask: u32 = 0;
    let mut bit: u32 = 1;
    let mut k: usize = 0;
    while k < 16
        invariant
            k <= 16,
            bit == pow2_16(k as int),
            mask < bit,
            forall|j: int| 0 <= j < k ==> ((mask as int / pow2_16(j)) % 2 == 1) == steps@[j],
        decreases 16 - k,
    {
        proof {
            lemma_pow2_16_pos(k as int);
            assert(pow2_16(k as int) <= 0x8000) by {
                lemma_pow2_16_mono(k as int, 15);
                reveal_with_fuel(pow2_16, 16);
            }
        }
        let old_mask = mask;
        if steps[k] {
            mask = mask + bit;
        }
        proof {
            assert forall|j: int| 0 <= j < k + 1 implies ((mask as int / pow2_16(j)) % 2 == 1) == steps@[j] by {
                lemma_bit_of_sum(old_mask as int, if steps@[k as int] { 1 } else { 0 }, k as int, j);
            }
        }
        bit = bit * 2;
        k += 1;
    }
    proof {
        reveal_with_fuel(pow2_16, 17);
    }
    mask as u16
}

proof fn lemma_pow2_16_pos(k: int)
    ensures
        pow2_16(k) >= 1,
    decreases k,
{
    if k > 0 {
        lemma_pow2_16_pos(k - 1);
    }
}

proof fn lemma_pow2_16_mono(a: int, b: int)
    requires
        a <= b,
    ensures
        pow2_16(a) <= pow2_16(b),
    decreases b - a,
{
    if a < b {
        lemma_pow2_16_mono(a, b - 1);
        lemma_pow2_16_pos(b - 1);
    }
}

/// Adding bit `k` (c ∈ {0, 1}) to a value below 2^k leaves the lower bits
/// and sets bit k to c.
proof fn lemma_bit_of_sum(m: int, c: int, k: int, j: int)
    requires
        0 <= m < pow2_16(k),
        c == 0 || c == 1,
        0 <= j <= k,
    ensures
        ((m + c * pow2_16(k)) / pow2_16(j)) % 2 == if j == k {
            c
        } else {
            (m / pow2_16(j)) % 2
        },
    decreases k - j,
{
    lemma_pow2_16_pos(j);
    if j == k {
        assert((m + c * pow2_16(k)) / pow2_16(k) == c) by (nonlinear_arith)
            requires
                0 <= m < pow2_16(k),
                c == 0 || c == 1,
        ;
    } else {
        // pow2(k) = pow2(j) * 2 * pow2(k - j - 1): bit j is unchanged by adding a multiple of 2^(j+1).
        let q = pow2_16(j);
        let rest = c * (pow2_16(k) / q);
        lemma_pow2_split(j, k);
        assert((m + c * pow2_16(k)) / q == m / q + rest) by (nonlinear_arith)
            requires
                q >= 1,
                pow2_16(k) == q * (pow2_16(k) / q),
                rest == c * (pow2_16(k) / q),
                m >= 0,
        ;
        assert((m / q + rest) % 2 == (m / q) % 2) by (nonlinear_arith)
            requires
                rest % 2 == 0,
                m / q >= 0,
                rest >= 0,
        ;
    }
}

/// For j < k, 2^k is an even multiple of 2^j.
proof fn lemma_pow2_split(j: int, k: int)
    requires
        0 <= j < k,
    ensures
        pow2_16(k) == pow2_16(j) * (pow2_16(k) / pow2_16(j)),
        (pow2_16(k) / pow2_16(j)) % 2 == 0,
    decreases k - j,
{
    lemma_pow2_16_pos(j);
    if k == j + 1 {
        assert(pow2_16(k) == 2 * pow2_16(j));
        assert(pow2_16(k) / pow2_16(j) == 2) by (nonlinear_arith)
            requires
                pow2_16(k) == 2 * pow2_16(j),
                pow2_16(j) >= 1,
        ;
    } else {
        lemma_pow2_split(j, k - 1);
        let r = pow2_16(k - 1) / pow2_16(j);
        assert(pow2_16(k) == pow2_16(j) * (2 * r)) by (nonlinear_arith)
            requires
                pow2_16(k) == 2 * pow2_16(k - 1),
                pow2_16(k - 1) == pow2_16(j) * r,
        ;
        assert(pow2_16(k) / pow2_16(j) == 2 * r) by (nonlinear_arith)
            requires
                pow2_16(k) == pow2_16(j) * (2 * r),
                pow2_16(j) >= 1,
        ;
    }
}

} // verus!
