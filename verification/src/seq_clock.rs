//! Decisions of the sequencer thread: step timing, humanisation, step
//! advance, probability rolls and gate lengths. The thread itself (sleeping,
//! locking, sending notes) runs outside the library and asks these
//! functions what to do at each tick.

use vstd::prelude::*;
use crate::sequencer::{ChordSeqState, NoteSeqState, SeqClockDiv, SeqMode, step_dur_ms_spec};

verus! {

/// One step of the thread's linear congruential generator.
pub open spec fn lcg_step(x: u32) -> u32 {
    ((((x * 1664525) % 0x1_0000_0000) + 1013904223) % 0x1_0000_0000) as u32
}

/// Advance the thread's random generator by one step.
pub fn lcg_next(x: u32) -> (r: u32)
    ensures
        r == lcg_step(x),
{
    x.wrapping_mul(1664525).wrapping_add(1013904223)
}

/// Bits 16–31 of the generator read as a signed 16-bit number.
pub open spec fn lcg_signed(x: u32) -> int {
    let v = x / 65536;
    if v >= 32768 {
        v - 65536
    } else {
        v as int
    }
}

/// Integer division rounding toward zero (as Rust's `/` does).
pub open spec fn trunc_div(a: int, b: int) -> int {
    if a >= 0 {
        a / b
    } else {
        -((-a) / b)
    }
}

/// The division index that drives the clock in `mode`.
pub open spec fn mode_division(mode: SeqMode, note_div: u8, chord_div: u8) -> u8 {
    match mode {
        SeqMode::NoteSeq => note_div,
        SeqMode::ChordSeq => chord_div,
        SeqMode::ChordKb => 1,
    }
}

/// Length of one step: the division's duration, never below 1 ms.
pub open spec fn tick_step_ms(mode: SeqMode, note_div: u8, chord_div: u8, bpm: u32) -> nat {
    let d = step_dur_ms_spec(mode_division(mode, note_div, chord_div), bpm);
    if d == 0 {
        1
    } else {
        d
    }
}

/// Timing of the next step: its length, how far off the grid it fires, and
/// the generator state afterwards.
pub struct TickTiming {
    pub step_ms: u64,
    pub offset_ms: i64,
    pub lcg: u32,
}

/// Humanisation offset: up to ±(humanize % × 45 % of the step) ms, scaled by
/// the generator's signed sample.
pub open spec fn humanize_offset(lcg: u32, step_ms: nat, humanize: u8) -> int {
    let max_offset = (step_ms * humanize * 45) / 10000;
    trunc_div(lcg_signed(lcg) * max_offset, 32768)
}

/// Plan the timing of the next step. With humanisation on, the generator
/// advances once and its sample shifts the step off the grid.
pub fn tick_timing(
    lcg: u32,
    humanize: u8,
    mode: SeqMode,
    note_div: u8,
    chord_div: u8,
    bpm: u32,
) -> (r: TickTiming)
    ensures
        r.step_ms == tick_step_ms(mode, note_div, chord_div, bpm),
        1 <= r.step_ms <= 30720000,
        humanize == 0 ==> r.offset_ms == 0 && r.lcg == lcg,
        humanize > 0 ==> r.lcg == lcg_step(lcg) && r.offset_ms == humanize_offset(
            lcg_step(lcg),
            r.step_ms as nat,
            humanize,
        ),
{
    let bpm = if bpm == 0 {
        1
    } else {
        bpm
    };
    let div_idx = match mode {
        SeqMode::NoteSeq => note_div,
        SeqMode::ChordSeq => chord_div,
        SeqMode::ChordKb => 1,
    };
    let d = SeqClockDiv::step_dur_ms(div_idx, bpm);
    let step_ms = if d == 0 {
        1
    } else {
        d
    };
    if humanize > 0 {
        let next = lcg_next(lcg);
        let hi = next >> 16;
        assert(hi == next / 65536 && hi < 65536) by (bit_vector)
            requires
                hi == next >> 16,
        ;
        let v = hi as i64;
        let r: i64 = if v >= 32768 {
            v - 65536
        } else {
            v
        };
        let h = humanize as i64;
        assert(step_ms as i64 * h * 45 <= 30720000 * 255 * 45) by (nonlinear_arith)
            requires
                step_ms <= 30720000,
                h <= 255,
                0 <= h,
        ;
        let max_offset_ms = step_ms as i64 * h * 45 / 10000;
        assert(max_offset_ms <= 30720000 * 255 * 45 / 10000) by (nonlinear_arith)
            requires
                max_offset_ms == step_ms as i64 * h * 45 / 10000,
                step_ms as i64 * h * 45 <= 30720000 * 255 * 45,
                0 <= step_ms as i64 * h * 45,
        ;
        let offset_ms = if r >= 0 {
            assert(r * max_offset_ms <= 32768 * 35251200) by (nonlinear_arith)
                requires
                    0 <= r <= 32767,
                    0 <= max_offset_ms <= 35251200,
            ;
            r * max_offset_ms / 32768
        } else {
            assert((-r) * max_offset_ms <= 32768 * 35251200) by (nonlinear_arith)
                requires
                    -32768 <= r < 0,
                    0 <= max_offset_ms <= 35251200,
            ;
            -((-r) * max_offset_ms / 32768)
        };
        assert(r == lcg_signed(next));
        assert(max_offset_ms == (step_ms as nat * humanize * 45) / 10000);
        assert(offset_ms == trunc_div(r * max_offset_ms, 32768)) by (nonlinear_arith)
            requires
                r >= 0 ==> offset_ms == r * max_offset_ms / 32768,
                r < 0 ==> offset_ms == -((-r) * max_offset_ms / 32768),
                max_offset_ms >= 0,
        ;
        TickTiming { step_ms, offset_ms, lcg: next }
    } else {
        TickTiming { step_ms, offset_ms: 0, lcg }
    }
}

/// The step the playhead moves to: on the first tick after Play the stored
/// step itself, afterwards the one after it, wrapping at `len`.
pub open spec fn next_step_spec(stored: usize, first_tick: bool, len: usize) -> int {
    if first_tick {
        (stored % len) as int
    } else {
        (stored + 1) % len as int
    }
}

/// The step of the `k`-th tick after Play (counting from 0) when the
/// stored step was `stored` and the pattern length stays `len`.
pub open spec fn playhead_after(stored: usize, len: usize, k: nat) -> int
    decreases k,
{
    if k == 0 {
        next_step_spec(stored, true, len)
    } else {
        next_step_spec(playhead_after(stored, len, (k - 1) as nat) as usize, false, len)
    }
}

/// Successive ticks after Play visit the steps in order from the stored
/// one, wrapping at the pattern length: when each tick hands `plan_step`
/// the step the previous one played (`first_tick` only on the first), the
/// `k`-th tick plays step `(stored + k) mod len`, so the first step is not
/// skipped.
pub proof fn lemma_playhead_order(stored: usize, len: usize, k: nat)
    requires
        len > 0,
    ensures
        playhead_after(stored, len, k) == (stored + k) % (len as int),
        0 <= playhead_after(stored, len, k) < len,
    decreases k,
{
    if k > 0 {
        lemma_playhead_order(stored, len, (k - 1) as nat);
        vstd::arithmetic::div_mod::lemma_add_mod_noop(stored + k - 1, 1, len as int);
        if len > 1 {
            vstd::arithmetic::div_mod::lemma_fundamental_div_mod_converse_mod(1, len as int, 0, 1);
        } else {
            vstd::arithmetic::div_mod::lemma_fundamental_div_mod_converse_mod(1, 1, 1, 0);
        }
    }
    vstd::arithmetic::div_mod::lemma_mod_bound(stored + k, len as int);
}

/// Random percentage roll of a step: the generator's top seven bits.
pub open spec fn roll_of(lcg: u32) -> u8 {
    (lcg / 0x200_0000) as u8
}

/// Whether a step with probability `prob` (0–100) fires on roll `rand`
/// (0–127): always at 100, else when rand × 100 / 127 is below `prob`.
pub open spec fn step_fires(prob: u8, rand: u8) -> bool {
    prob >= 100 || (rand * 100) / 127 < prob
}

/// Pattern length of the sequencer that `mode` plays.
pub open spec fn mode_length(mode: SeqMode, ns: &NoteSeqState, cs: &ChordSeqState) -> usize {
    match mode {
        SeqMode::NoteSeq => ns.length,
        SeqMode::ChordSeq => cs.length,
        SeqMode::ChordKb => 0,
    }
}

/// What the thread does at a step of the note or chord sequencer.
pub struct StepPlan {
    /// The new playhead position.
    pub current: usize,
    /// The step is the first of the bar: pending arp and walker restarts fire.
    pub bar_boundary: bool,
    /// Generator state after the probability roll.
    pub lcg: u32,
    /// Notes to start, with their velocities.
    pub events: Vec<(u8, u8)>,
}

/// The notes a note-sequencer step plays.
pub open spec fn note_step_events(ns: &NoteSeqState, c: int, rand: u8) -> Seq<(u8, u8)> {
    if ns.steps@[c] && step_fires(ns.probabilities@[c], rand) {
        seq![(ns.notes@[c], ns.velocities@[c])]
    } else {
        seq![]
    }
}

/// The notes a chord-sequencer step plays after `prev`.
pub open spec fn chord_step_events(cs: &ChordSeqState, c: int, rand: u8, prev: Seq<u8>) -> Seq<(u8, u8)> {
    if cs.steps@[c] && step_fires(cs.probabilities@[c], rand) {
        cs.step_notes_vl_spec(c, prev).map_values(|n: u8| (n, cs.velocities@[c]))
    } else {
        seq![]
    }
}

/// Inputs on which a step of `mode` can be planned without a panic.
pub open spec fn step_plannable(
    mode: SeqMode,
    stored: usize,
    first_tick: bool,
    ns: &NoteSeqState,
    cs: &ChordSeqState,
) -> bool {
    let len = mode_length(mode, ns, cs);
    mode != SeqMode::ChordKb ==> {
        &&& len > 0
        &&& !first_tick ==> stored < usize::MAX
        &&& next_step_spec(stored, first_tick, len) < 24
        &&& mode == SeqMode::ChordSeq ==> cs.step_ok(next_step_spec(stored, first_tick, len))
    }
}

/// Whether `plan_step` can plan a step of `mode` on these inputs.
pub fn can_plan_step(
    mode: SeqMode,
    stored: usize,
    first_tick: bool,
    ns: &NoteSeqState,
    cs: &ChordSeqState,
) -> (r: bool)
    ensures
        r == step_plannable(mode, stored, first_tick, ns, cs),
{
    let len = match mode {
        SeqMode::NoteSeq => ns.length,
        SeqMode::ChordSeq => cs.length,
        SeqMode::ChordKb => {
            return true;
        },
    };
    if len == 0 || (!first_tick && stored == usize::MAX) {
        return false;
    }
    let current = if first_tick {
        stored % len
    } else {
        (stored + 1) % len
    };
    if current >= 24 {
        return false;
    }
    match mode {
        SeqMode::ChordSeq => cs.step_computable(current),
        _ => true,
    }
}

/// Plan the step the thread fires in `mode`: advance the playhead, roll the
/// step's probability and collect its notes. The chord keyboard has no
/// sequencer step (`None`).
pub fn plan_step(
    mode: SeqMode,
    stored: usize,
    first_tick: bool,
    lcg: u32,
    ns: &NoteSeqState,
    cs: &ChordSeqState,
    prev: &[u8],
) -> (r: Option<StepPlan>)
    requires
        step_plannable(mode, stored, first_tick, ns, cs),
    ensures
        mode == SeqMode::ChordKb <==> r.is_none(),
        r matches Some(p) ==> {
            let c = next_step_spec(stored, first_tick, mode_length(mode, ns, cs));
            &&& p.current == c
            &&& p.current < mode_length(mode, ns, cs)
            &&& p.bar_boundary == (c == 0)
            &&& p.lcg == lcg_step(lcg)
            &&& p.events@ == match mode {
                SeqMode::NoteSeq => note_step_events(ns, c, roll_of(lcg_step(lcg))),
                _ => chord_step_events(cs, c, roll_of(lcg_step(lcg)), prev@),
            }
        },
{
    let len = match mode {
        SeqMode::NoteSeq => ns.length,
        SeqMode::ChordSeq => cs.length,
        SeqMode::ChordKb => {
            return None;
        },
    };
    let current = if first_tick {
        stored % len
    } else {
        (stored + 1) % len
    };
    let next = lcg_next(lcg);
    let top = next >> 25;
    assert(top == next / 0x200_0000 && top < 128) by (bit_vector)
        requires
            top == next >> 25,
    ;
    let rand_pct = top as u8;
    let events: Vec<(u8, u8)> = match mode {
        SeqMode::NoteSeq => {
            let prob = ns.probabilities[current];
            let passes = prob >= 100 || (rand_pct as u32 * 100 / 127 < prob as u32);
            if ns.steps[current] && passes {
                let e = vec![(ns.notes[current], ns.velocities[current])];
                assert(e@ =~= note_step_events(ns, current as int, rand_pct));
                e
            } else {
                let e: Vec<(u8, u8)> = Vec::new();
                assert(e@ =~= note_step_events(ns, current as int, rand_pct));
                e
            }
        },
        _ => {
            let prob = cs.probabilities[current];
            let passes = prob >= 100 || (rand_pct as u32 * 100 / 127 < prob as u32);
            if cs.steps[current] && passes {
                let vel = cs.velocities[current];
                let notes = cs.step_notes_vl(current, prev);
                let mut e: Vec<(u8, u8)> = Vec::new();
                let mut k: usize = 0;
                while k < notes.len()
                    invariant
                        k <= notes@.len(),
                        e@ =~= notes@.take(k as int).map_values(|n: u8| (n, vel)),
                    decreases notes@.len() - k,
                {
                    e.push((notes[k], vel));
                    assert(notes@.take(k + 1) =~= notes@.take(k as int).push(notes@[k as int]));
                    k += 1;
                }
                assert(notes@.take(notes@.len() as int) =~= notes@);
                assert(e@ =~= chord_step_events(cs, current as int, rand_pct, prev@));
                e
            } else {
                let e: Vec<(u8, u8)> = Vec::new();
                assert(e@ =~= chord_step_events(cs, current as int, rand_pct, prev@));
                e
            }
        },
    };
    Some(StepPlan { current, bar_boundary: current == 0, lcg: next, events })
}

/// When the notes of a step are released early: with a gate below 100 %
/// (0 counts as 1 %) and something sounding, after gate % of the step but
/// no sooner than 15 ms; otherwise they sound until the next step (`None`).
pub open spec fn gate_off_spec(step_ms: u64, gate: u8, sounding: bool) -> Option<nat> {
    let g: nat = if gate == 0 {
        1
    } else {
        gate as nat
    };
    if g < 100 && sounding {
        let ms = ((step_ms * g) / 100) as nat;
        Some(
            if ms < 15 {
                15
            } else {
                ms
            },
        )
    } else {
        None
    }
}

/// Milliseconds after the notes start at which they are released.
pub fn gate_off_ms(step_ms: u64, gate: u8, sounding: bool) -> (r: Option<u64>)
    requires
        step_ms <= u64::MAX / 100,
    ensures
        r matches Some(v) ==> gate_off_spec(step_ms, gate, sounding) == Some(v as nat),
        r is None ==> gate_off_spec(step_ms, gate, sounding) is None,
{
    let g: u64 = if gate == 0 {
        1
    } else {
        gate as u64
    };
    if g < 100 && sounding {
        assert(step_ms * g <= step_ms * 100) by (nonlinear_arith)
            requires
                g < 100,
        ;
        let ms = step_ms * g / 100;
        Some(
            if ms < 15 {
                15
            } else {
                ms
            },
        )
    } else {
        None
    }
}


/// The notes of a step's (note, velocity) events, in order.
pub open spec fn event_notes(ev: Seq<(u8, u8)>) -> Seq<u8> {
    ev.map_values(|e: (u8, u8)| e.0)
}

/// One step of the sequencer thread, from the notes still sounding and the
/// step's events, as three lists: first, the notes to stop at once (all
/// that still sound); second, the notes to stop once `gate_off_spec` has
/// elapsed (this step's notes, when that is `Some`); third, the notes that
/// keep sounding into the next step (this step's notes, when it is `None`).
pub open spec fn step_spec(sounding: Seq<u8>, events: Seq<(u8, u8)>, step_ms: u64, gate: u8) -> (
    Seq<u8>,
    Seq<u8>,
    Seq<u8>,
) {
    if gate_off_spec(step_ms, gate, events.len() > 0) is Some {
        (sounding, event_notes(events), seq![])
    } else {
        (sounding, seq![], event_notes(events))
    }
}

/// What the sequencer thread does at a step, in order: `offs` now (before
/// the step's notes), then `ons`, then, `gate_off` ms later when that is
/// `Some`, `gate_notes` off; `sounding` is what still sounds afterwards.
pub struct StepTransition {
    pub offs: Vec<u8>,
    pub ons: Vec<(u8, u8)>,
    pub gate_off: Option<u64>,
    pub gate_notes: Vec<u8>,
    pub sounding: Vec<u8>,
}

fn notes_of(events: &Vec<(u8, u8)>) -> (r: Vec<u8>)
    ensures
        r@ == event_notes(events@),
{
    let mut r: Vec<u8> = Vec::new();
    let mut i: usize = 0;
    while i < events.len()
        invariant
            i <= events.len(),
            r@ == event_notes(events@.take(i as int)),
        decreases events.len() - i,
    {
        r.push(events[i].0);
        assert(event_notes(events@.take(i + 1)) =~= event_notes(events@.take(i as int)).push(
            events@[i as int].0,
        ));
        i += 1;
    }
    assert(events@.take(events.len() as int) =~= events@);
    r
}

/// The sequencer thread's step: the notes still `sounding` go off first,
/// then the step's `events` (from `plan_step`) go on; with a gate below
/// 100 % they go off again after `gate_off_spec` ms, otherwise they keep
/// sounding until the next step or until playing stops.
pub fn step_transition(sounding: Vec<u8>, events: Vec<(u8, u8)>, step_ms: u64, gate: u8) -> (r: StepTransition)
    requires
        step_ms <= u64::MAX / 100,
    ensures
        ({
            let sp = step_spec(sounding@, events@, step_ms, gate);
            &&& r.offs@ == sp.0
            &&& r.ons@ == events@
            &&& r.gate_notes@ == sp.1
            &&& r.sounding@ == sp.2
            &&& (r.gate_off matches Some(v) ==> gate_off_spec(step_ms, gate, events@.len() > 0)
                == Some(v as nat))
            &&& (r.gate_off is None ==> gate_off_spec(step_ms, gate, events@.len() > 0) is None)
        }),
{
    let notes = notes_of(&events);
    let gate_off = gate_off_ms(step_ms, gate, events.len() > 0);
    match gate_off {
        Some(_) => StepTransition {
            offs: sounding,
            ons: events,
            gate_off,
            gate_notes: notes,
            sounding: Vec::new(),
        },
        None => StepTransition {
            offs: sounding,
            ons: events,
            gate_off,
            gate_notes: Vec::new(),
            sounding: notes,
        },
    }
}

/// Every note a step switches on is switched off exactly once: by the
/// step's own gate, or else at the start of the next step (whose first
/// action switches off what is still sounding), and never by both; when
/// playing stops instead, what is still sounding is switched off.
pub proof fn lemma_each_note_off_once(
    sounding: Seq<u8>,
    e1: Seq<(u8, u8)>,
    ms1: u64,
    g1: u8,
    e2: Seq<(u8, u8)>,
    ms2: u64,
    g2: u8,
)
    ensures
        ({
            let t1 = step_spec(sounding, e1, ms1, g1);
            let t2 = step_spec(t1.2, e2, ms2, g2);
            &&& event_notes(e1) == t1.1 + t2.0
            &&& (t1.1.len() == 0 || t2.0.len() == 0)
            &&& event_notes(e1) == t1.1 + t1.2
        }),
{
    let t1 = step_spec(sounding, e1, ms1, g1);
    assert(t1.1 + t1.2 =~= event_notes(e1));
}

/// (arp fires, walker fires, arp flag, walker flag) after a step.
pub open spec fn bar_restarts_spec(bar_boundary: bool, arp_flag: bool, walker_flag: bool) -> (bool, bool, bool, bool) {
    (bar_boundary && arp_flag, bar_boundary && walker_flag, arp_flag && !bar_boundary,
        walker_flag && !bar_boundary)
}

/// The restart requests honoured at a step: each pending flag fires on a
/// bar boundary (step 0) and is then cleared; elsewhere nothing fires and
/// the flags stay. Gives (arp fires, walker fires, arp flag, walker flag).
pub fn bar_restarts(bar_boundary: bool, arp_flag: bool, walker_flag: bool) -> (r: (bool, bool, bool, bool))
    ensures
        r == bar_restarts_spec(bar_boundary, arp_flag, walker_flag),
{
    if bar_boundary {
        (arp_flag, walker_flag, false, false)
    } else {
        (false, false, arp_flag, walker_flag)
    }
}

/// A restart request fires at most once: once it has fired, the flag is
/// clear and the next step does not fire it again until it is set anew.
pub proof fn lemma_restart_once(b1: bool, b2: bool, arp: bool, walker: bool)
    ensures
        ({
            let a1 = bar_restarts_spec(b1, arp, walker);
            let a2 = bar_restarts_spec(b2, a1.2, a1.3);
            &&& !(a1.0 && a2.0)
            &&& !(a1.1 && a2.1)
            &&& (a1.0 || a2.0) ==> arp
        }),
{
}


/// What still sounds after the first `k` steps of a run that starts with
/// `s0` sounding; each step is (events, step length in ms, gate %).
pub open spec fn run_sounding(s0: Seq<u8>, steps: Seq<(Seq<(u8, u8)>, u64, u8)>, k: nat) -> Seq<u8>
    decreases k,
{
    if k == 0 {
        s0
    } else {
        let st = steps[k - 1];
        step_spec(run_sounding(s0, steps, (k - 1) as nat), st.0, st.1, st.2).2
    }
}

/// Over a whole run of steps: the notes step `k` switches on are switched
/// off exactly once, by its gate or by step `k + 1`'s first action.
pub proof fn lemma_run_note_offs(s0: Seq<u8>, steps: Seq<(Seq<(u8, u8)>, u64, u8)>, k: nat)
    requires
        k + 1 < steps.len(),
    ensures
        ({
            let a = steps[k as int];
            let b = steps[k + 1 as int];
            let tk = step_spec(run_sounding(s0, steps, k), a.0, a.1, a.2);
            let tn = step_spec(run_sounding(s0, steps, k + 1), b.0, b.1, b.2);
            event_notes(a.0) == tk.1 + tn.0
        }),
{
    let a = steps[k as int];
    let b = steps[k + 1 as int];
    lemma_each_note_off_once(run_sounding(s0, steps, k), a.0, a.1, a.2, b.0, b.1, b.2);
    assert(run_sounding(s0, steps, k + 1) == step_spec(run_sounding(s0, steps, k), a.0, a.1, a.2).2);
}

} // verus!
