//! What the computer keyboard plays, frame by frame: the piano keys
//! (A W S E D F T G Y H U J K O L P ; ' from C upwards), the Space freeze
//! that holds released notes until the next new note, and the 3 × 7 chord
//! pads with their momentary voicings. Each function takes the state of the
//! previous frame and the keys down now, and gives the next state and the
//! note events to send, in order.

use vstd::prelude::*;
use crate::keys::key_note;
use crate::sequencer::{
    apply_voicing, apply_voicing_spec, chord_notes_typed_spec, pitch_args_ok, ChordKbState,
    VoicingType,
};

verus! {

/// A note event for the synth engine.
#[derive(Clone, Copy, PartialEq, Eq, Structural, Debug)]
pub enum NoteEvent {
    On(u8),
    Off(u8),
}

/// Number of piano keys on the computer keyboard.
pub const PIANO_KEYS: usize = 18;

/// Note-on events for `s`, in order.
pub open spec fn ons(s: Seq<u8>) -> Seq<NoteEvent> {
    s.map_values(|n: u8| NoteEvent::On(n))
}

/// Note-off events for `s`, in order.
pub open spec fn offs(s: Seq<u8>) -> Seq<NoteEvent> {
    s.map_values(|n: u8| NoteEvent::Off(n))
}

/// The notes switched on by `ev`, in order.
pub open spec fn on_notes(ev: Seq<NoteEvent>) -> Seq<u8>
    decreases ev.len(),
{
    if ev.len() == 0 {
        seq![]
    } else {
        let rest = on_notes(ev.drop_last());
        match ev.last() {
            NoteEvent::On(n) => rest.push(n),
            NoteEvent::Off(_) => rest,
        }
    }
}

/// The notes switched off by `ev`, in order.
pub open spec fn off_notes(ev: Seq<NoteEvent>) -> Seq<u8>
    decreases ev.len(),
{
    if ev.len() == 0 {
        seq![]
    } else {
        let rest = off_notes(ev.drop_last());
        match ev.last() {
            NoteEvent::On(_) => rest,
            NoteEvent::Off(n) => rest.push(n),
        }
    }
}

/// The note of piano key `k` (semitones above C of `octave`), truncated to
/// a byte as the app stores it.
pub open spec fn piano_key_note(octave: i32, k: int) -> u8 {
    (12 * octave + k) as u8
}

/// The notes of the piano keys among the first `n` that are down, in key
/// order.
pub open spec fn key_notes_upto(keys: Seq<bool>, octave: i32, n: int) -> Seq<u8>
    decreases n,
{
    if n <= 0 {
        seq![]
    } else {
        let rest = key_notes_upto(keys, octave, n - 1);
        if keys[n - 1] {
            rest.push(piano_key_note(octave, n - 1))
        } else {
            rest
        }
    }
}

/// The notes of all piano keys that are down.
pub open spec fn key_notes(keys: Seq<bool>, octave: i32) -> Seq<u8> {
    key_notes_upto(keys, octave, PIANO_KEYS as int)
}

/// The members of `s` that are not in `t`, in order.
pub open spec fn minus(s: Seq<u8>, t: Seq<u8>) -> Seq<u8> {
    s.filter(|x: u8| !t.contains(x))
}

/// `a` with each member of `b` appended unless it is already there.
pub open spec fn insert_all(a: Seq<u8>, b: Seq<u8>) -> Seq<u8>
    decreases b.len(),
{
    if b.len() == 0 {
        a
    } else {
        let a2 = insert_all(a, b.drop_last());
        if a2.contains(b.last()) {
            a2
        } else {
            a2.push(b.last())
        }
    }
}

/// The octaves for which the piano-key arithmetic (in `i32`) cannot
/// overflow.
pub open spec fn octave_ok(octave: i32) -> bool {
    i32::MIN <= 12 * octave && 12 * octave + 17 <= i32::MAX
}

/// Freeze flag, frozen notes and events after one frame's Space press.
pub struct FreezeToggle {
    pub freeze: bool,
    pub frozen: Vec<u8>,
    pub events: Vec<NoteEvent>,
}

/// Outcome of one frame of the piano keys.
pub struct PianoFrame {
    /// The piano notes held after the frame.
    pub held: Vec<u8>,
    pub freeze: bool,
    pub frozen: Vec<u8>,
    /// Events to send, in order.
    pub events: Vec<NoteEvent>,
}

fn contains_note(v: &Vec<u8>, x: u8) -> (r: bool)
    ensures
        r == v@.contains(x),
{
    let mut i: usize = 0;
    while i < v.len()
        invariant
            i <= v.len(),
            forall|j: int| 0 <= j < i ==> v@[j] != x,
        decreases v.len() - i,
    {
        if v[i] == x {
            return true;
        }
        i += 1;
    }
    false
}

fn push_events(events: &mut Vec<NoteEvent>, notes: &Vec<u8>, on: bool)
    ensures
        final(events)@ == old(events)@ + if on {
            ons(notes@)
        } else {
            offs(notes@)
        },
{
    let ghost start = events@;
    let ghost f = if on {
        ons(notes@)
    } else {
        offs(notes@)
    };
    let mut i: usize = 0;
    while i < notes.len()
        invariant
            i <= notes.len(),
            f == if on {
                ons(notes@)
            } else {
                offs(notes@)
            },
            events@ == start + f.take(i as int),
        decreases notes.len() - i,
    {
        let n = notes[i];
        if on {
            events.push(NoteEvent::On(n));
        } else {
            events.push(NoteEvent::Off(n));
        }
        assert(f.take(i + 1) =~= f.take(i as int).push(f[i as int]));
        i += 1;
    }
    assert(f.take(notes.len() as int) =~= f);
}

fn insert_notes(set: &mut Vec<u8>, items: &Vec<u8>)
    ensures
        final(set)@ == insert_all(old(set)@, items@),
{
    let ghost start = set@;
    let mut i: usize = 0;
    while i < items.len()
        invariant
            i <= items.len(),
            set@ == insert_all(start, items@.take(i as int)),
        decreases items.len() - i,
    {
        let x = items[i];
        assert(items@.take(i + 1).drop_last() =~= items@.take(i as int));
        if !contains_note(set, x) {
            set.push(x);
        }
        i += 1;
    }
    assert(items@.take(items.len() as int) =~= items@);
}

fn notes_minus(s: &Vec<u8>, t: &Vec<u8>) -> (r: Vec<u8>)
    ensures
        r@ == minus(s@, t@),
{
    let ghost pred = |x: u8| !t@.contains(x);
    let mut r: Vec<u8> = Vec::new();
    let mut i: usize = 0;
    while i < s.len()
        invariant
            i <= s.len(),
            pred == (|x: u8| !t@.contains(x)),
            r@ == s@.take(i as int).filter(pred),
        decreases s.len() - i,
    {
        let x = s[i];
        proof {
            assert(s@.take(i + 1) =~= s@.take(i as int).push(x));
            s@.take(i as int).lemma_filter_push(x, pred);
        }
        if !contains_note(t, x) {
            r.push(x);
        }
        i += 1;
    }
    assert(s@.take(s.len() as int) =~= s@);
    r
}

/// Space toggles freeze; turning it off releases every frozen note.
pub open spec fn toggle_spec(freeze: bool, frozen: Seq<u8>, space: bool) -> (bool, Seq<u8>, Seq<NoteEvent>) {
    if !space {
        (freeze, frozen, seq![])
    } else if freeze {
        (false, seq![], offs(frozen))
    } else {
        (true, frozen, seq![])
    }
}

/// One frame's Space key (pass `false` while a text field has focus): the
/// freeze flag flips, and when it turns off every frozen note is released
/// and the frozen set emptied.
pub fn toggle_freeze(freeze: bool, frozen: &Vec<u8>, space: bool) -> (r: FreezeToggle)
    ensures
        (r.freeze, r.frozen@, r.events@) == toggle_spec(freeze, frozen@, space),
{
    let mut events: Vec<NoteEvent> = Vec::new();
    if !space {
        FreezeToggle { freeze, frozen: frozen.clone(), events }
    } else if freeze {
        push_events(&mut events, frozen, false);
        FreezeToggle { freeze: false, frozen: Vec::new(), events }
    } else {
        FreezeToggle { freeze: true, frozen: frozen.clone(), events }
    }
}

/// Events and frozen set when the piano keys move from `held` to `cur`
/// (Space already handled): new notes are switched on (with freeze on, the
/// first new note first releases the frozen notes); released notes are
/// switched off, or kept sounding in the frozen set while freeze is on.
pub open spec fn piano_keys_spec(held: Seq<u8>, cur: Seq<u8>, freeze: bool, frozen: Seq<u8>) -> (
    Seq<u8>,
    Seq<NoteEvent>,
) {
    let fresh = minus(cur, held);
    let released = minus(held, cur);
    if !freeze {
        (frozen, ons(fresh) + offs(released))
    } else if fresh.len() > 0 {
        (insert_all(seq![], released), offs(frozen) + ons(fresh))
    } else {
        (insert_all(frozen, released), seq![])
    }
}

/// The notes that are down on the piano keys, in key order.
pub fn held_piano_notes(keys_down: &[bool; 18], octave: i32) -> (r: Vec<u8>)
    requires
        octave_ok(octave),
    ensures
        r@ == key_notes(keys_down@, octave),
{
    let mut r: Vec<u8> = Vec::new();
    let mut k: usize = 0;
    while k < PIANO_KEYS
        invariant
            k <= PIANO_KEYS,
            octave_ok(octave),
            r@ == key_notes_upto(keys_down@, octave, k as int),
        decreases PIANO_KEYS - k,
    {
        if keys_down[k] {
            let n = key_note(octave, k as i32);
            r.push(n);
        }
        k += 1;
    }
    r
}

/// One frame of the piano keys: Space first toggles freeze (see
/// `toggle_freeze`); then the notes of the keys down (`octave × 12 +
/// semitone`) become the held set, each new note is switched on, and each
/// released note is switched off, or moved to the frozen set while freeze
/// is on. While a text field has focus, pass no key down and no Space: the
/// held notes are then all released.
pub fn piano_frame(
    held: &Vec<u8>,
    keys_down: &[bool; 18],
    octave: i32,
    freeze: bool,
    frozen: &Vec<u8>,
    space: bool,
) -> (r: PianoFrame)
    requires
        octave_ok(octave),
    ensures
        ({
            let t = toggle_spec(freeze, frozen@, space);
            let cur = key_notes(keys_down@, octave);
            let (fz, ev) = piano_keys_spec(held@, cur, t.0, t.1);
            &&& r.held@ == cur
            &&& r.freeze == t.0
            &&& r.frozen@ == fz
            &&& r.events@ == t.2 + ev
        }),
{
    let t = toggle_freeze(freeze, frozen, space);
    let cur = held_piano_notes(keys_down, octave);
    let fresh = notes_minus(&cur, held);
    let released = notes_minus(held, &cur);
    let mut events = t.events;
    let mut new_frozen: Vec<u8>;
    if !t.freeze {
        push_events(&mut events, &fresh, true);
        push_events(&mut events, &released, false);
        new_frozen = t.frozen;
    } else if fresh.len() > 0 {
        push_events(&mut events, &t.frozen, false);
        push_events(&mut events, &fresh, true);
        new_frozen = Vec::new();
        insert_notes(&mut new_frozen, &released);
    } else {
        new_frozen = t.frozen;
        insert_notes(&mut new_frozen, &released);
    }
    proof {
        assert(events@ =~= toggle_spec(freeze, frozen@, space).2 + piano_keys_spec(
            held@,
            cur@,
            t.freeze,
            t.frozen@,
        ).1);
    }
    PianoFrame { held: cur, freeze: t.freeze, frozen: new_frozen, events }
}

proof fn lemma_event_notes_concat(a: Seq<NoteEvent>, b: Seq<NoteEvent>)
    ensures
        on_notes(a + b) == on_notes(a) + on_notes(b),
        off_notes(a + b) == off_notes(a) + off_notes(b),
    decreases b.len(),
{
    if b.len() == 0 {
        assert(a + b =~= a);
        assert(on_notes(a) + on_notes(b) =~= on_notes(a));
        assert(off_notes(a) + off_notes(b) =~= off_notes(a));
    } else {
        lemma_event_notes_concat(a, b.drop_last());
        assert((a + b).drop_last() =~= a + b.drop_last());
        assert((a + b).last() == b.last());
        match b.last() {
            NoteEvent::On(n) => {
                assert(on_notes(a) + on_notes(b) =~= (on_notes(a) + on_notes(b.drop_last())).push(n));
                assert(off_notes(a) + off_notes(b) =~= off_notes(a) + off_notes(b.drop_last()));
            },
            NoteEvent::Off(n) => {
                assert(off_notes(a) + off_notes(b) =~= (off_notes(a) + off_notes(b.drop_last())).push(n));
                assert(on_notes(a) + on_notes(b) =~= on_notes(a) + on_notes(b.drop_last()));
            },
        }
    }
}

proof fn lemma_event_notes_of(s: Seq<u8>)
    ensures
        on_notes(ons(s)) == s,
        off_notes(ons(s)) == Seq::<u8>::empty(),
        on_notes(offs(s)) == Seq::<u8>::empty(),
        off_notes(offs(s)) == s,
    decreases s.len(),
{
    if s.len() > 0 {
        lemma_event_notes_of(s.drop_last());
        assert(ons(s).drop_last() =~= ons(s.drop_last()));
        assert(offs(s).drop_last() =~= offs(s.drop_last()));
        assert(s.drop_last().push(s.last()) =~= s);
    } else {
        assert(ons(s) =~= Seq::<NoteEvent>::empty());
        assert(offs(s) =~= Seq::<NoteEvent>::empty());
    }
}

proof fn lemma_push_contains(d: Seq<u8>, y: u8)
    ensures
        forall|x: u8| #[trigger] d.push(y).contains(x) <==> d.contains(x) || x == y,
        d.no_duplicates() && !d.contains(y) ==> d.push(y).no_duplicates(),
{
    let full = d.push(y);
    assert forall|x: u8| #[trigger] full.contains(x) <==> d.contains(x) || x == y by {
        if full.contains(x) {
            let i = choose|i: int| 0 <= i < full.len() && full[i] == x;
            if i < d.len() {
                assert(d[i] == x);
            }
        }
        if d.contains(x) {
            let i = choose|i: int| 0 <= i < d.len() && d[i] == x;
            assert(full[i] == x);
        }
        assert(full[d.len() as int] == y);
    }
}

proof fn lemma_minus(s: Seq<u8>, t: Seq<u8>)
    ensures
        forall|x: u8| #[trigger] minus(s, t).contains(x) <==> s.contains(x) && !t.contains(x),
        s.no_duplicates() ==> minus(s, t).no_duplicates(),
    decreases s.len(),
{
    reveal(Seq::filter);
    if s.len() > 0 {
        let d = s.drop_last();
        let y = s.last();
        lemma_minus(d, t);
        assert(d.push(y) =~= s);
        lemma_push_contains(d, y);
        lemma_push_contains(minus(d, t), y);
        assert(minus(s, t) == if !t.contains(y) {
            minus(d, t).push(y)
        } else {
            minus(d, t)
        });
        if s.no_duplicates() {
            assert(d.no_duplicates());
            assert(!d.contains(y)) by {
                if d.contains(y) {
                    let i = choose|i: int| 0 <= i < d.len() && d[i] == y;
                    assert(s[i] == s[s.len() - 1]);
                }
            }
        }
    } else {
        assert(minus(s, t) == s);
    }
}

proof fn lemma_insert_all(a: Seq<u8>, b: Seq<u8>)
    ensures
        forall|x: u8| #[trigger] insert_all(a, b).contains(x) <==> a.contains(x) || b.contains(x),
        a.no_duplicates() ==> insert_all(a, b).no_duplicates(),
    decreases b.len(),
{
    if b.len() > 0 {
        let d = b.drop_last();
        let y = b.last();
        lemma_insert_all(a, d);
        assert(d.push(y) =~= b);
        lemma_push_contains(d, y);
        lemma_push_contains(insert_all(a, d), y);
    }
}

proof fn lemma_key_notes(keys: Seq<bool>, octave: i32, n: int)
    requires
        octave_ok(octave),
        0 <= n <= PIANO_KEYS,
    ensures
        key_notes_upto(keys, octave, n).no_duplicates(),
        forall|x: u8| #[trigger] key_notes_upto(keys, octave, n).contains(x) <==> exists|k: int|
            0 <= k < n && keys[k] && x == piano_key_note(octave, k),
    decreases n,
{
    if n > 0 {
        let rest = key_notes_upto(keys, octave, n - 1);
        lemma_key_notes(keys, octave, n - 1);
        let y = piano_key_note(octave, n - 1);
        assert forall|k: int| 0 <= k < n - 1 implies piano_key_note(octave, k) != y by {
            let base: i32 = (12 * octave) as i32;
            let a: i32 = k as i32;
            let b: i32 = (n - 1) as i32;
            assert(((base + a) as u8) != ((base + b) as u8)) by (bit_vector)
                requires
                    0 <= a < b < 18,
                    base <= 0x7fff_ffff - 17,
            ;
        }
        if keys[n - 1] {
            assert(!rest.contains(y));
            let full = rest.push(y);
            assert forall|x: u8| #[trigger] full.contains(x) <==> rest.contains(x) || x == y by {
                if full.contains(x) {
                    let i = choose|i: int| 0 <= i < full.len() && full[i] == x;
                    if i < rest.len() {
                        assert(rest[i] == x);
                    }
                }
                if rest.contains(x) {
                    let i = choose|i: int| 0 <= i < rest.len() && rest[i] == x;
                    assert(full[i] == x);
                }
                assert(full[rest.len() as int] == y);
            }
        }
    }
}

/// Number of chord pads (3 rows × 7 columns).
pub const PAD_COUNT: usize = 21;

/// The chord keyboard's pads can all be computed without overflow.
pub open spec fn pads_ok(kb: &ChordKbState) -> bool {
    pitch_args_ok(kb.root, 6, kb.octave)
}

/// Pad `p` in row-major order: row `p / 7`, column (scale degree) `p % 7`.
pub open spec fn pad_voiced(kb: &ChordKbState, p: int, v: VoicingType) -> Seq<u8> {
    apply_voicing_spec(
        chord_notes_typed_spec(
            kb.root,
            kb.scale,
            p % 7,
            kb.octave,
            kb.pads@[p / 7]@[p % 7].chord_type,
        ),
        v,
    )
}

/// A 3 × 7 grid of flags in row-major order.
pub open spec fn flat(g: [[bool; 7]; 3]) -> Seq<bool> {
    Seq::new(PAD_COUNT as nat, |p: int| g@[p / 7]@[p % 7])
}

/// The voiced notes of the selected pads among the first `n`, in order.
pub open spec fn pads_notes(kb: &ChordKbState, sel: Seq<bool>, v: VoicingType, n: int) -> Seq<u8>
    decreases n,
{
    if n <= 0 {
        seq![]
    } else {
        let rest = pads_notes(kb, sel, v, n - 1);
        if sel[n - 1] {
            rest + pad_voiced(kb, n - 1, v)
        } else {
            rest
        }
    }
}

/// Re-sounding the selected pads among the first `n` in a new voicing:
/// each pad's old notes off, then its new notes on.
pub open spec fn retrigger_events(
    kb: &ChordKbState,
    sel: Seq<bool>,
    old_v: VoicingType,
    new_v: VoicingType,
    n: int,
) -> Seq<NoteEvent>
    decreases n,
{
    if n <= 0 {
        seq![]
    } else {
        let rest = retrigger_events(kb, sel, old_v, new_v, n - 1);
        if sel[n - 1] {
            rest + offs(pad_voiced(kb, n - 1, old_v)) + ons(pad_voiced(kb, n - 1, new_v))
        } else {
            rest
        }
    }
}

/// The first pad from `p` on whose notes in voicing `v` include `note`.
pub open spec fn first_pad_with(kb: &ChordKbState, v: VoicingType, note: u8, p: int) -> Option<int>
    decreases PAD_COUNT - p,
{
    if p < 0 || p >= PAD_COUNT {
        None
    } else if pad_voiced(kb, p, v).contains(note) {
        Some(p)
    } else {
        first_pad_with(kb, v, note, p + 1)
    }
}

/// For each note of `ms`: `note` off, then that note on.
pub open spec fn swap_events(note: u8, ms: Seq<u8>) -> Seq<NoteEvent>
    decreases ms.len(),
{
    if ms.len() == 0 {
        seq![]
    } else {
        swap_events(note, ms.drop_last()) + seq![NoteEvent::Off(note), NoteEvent::On(ms.last())]
    }
}

/// Moving frozen notes to a new voicing: a frozen note that belongs to a
/// pad (the first pad, row-major, whose old-voiced notes include it) is
/// replaced by that pad's new-voiced notes; any other frozen note stays.
/// Gives the new frozen set and the events.
pub open spec fn remap_frozen_spec(
    kb: &ChordKbState,
    frozen: Seq<u8>,
    old_v: VoicingType,
    new_v: VoicingType,
) -> (Seq<u8>, Seq<NoteEvent>)
    decreases frozen.len(),
{
    if frozen.len() == 0 {
        (seq![], seq![])
    } else {
        let (set, ev) = remap_frozen_spec(kb, frozen.drop_last(), old_v, new_v);
        let n = frozen.last();
        match first_pad_with(kb, old_v, n, 0) {
            Some(p) => (
                insert_all(set, pad_voiced(kb, p, new_v)),
                ev + swap_events(n, pad_voiced(kb, p, new_v)),
            ),
            None => (insert_all(set, seq![n]), ev),
        }
    }
}

/// The selection of pads that are set in `a` and not in `b`.
pub open spec fn sel_minus(a: Seq<bool>, b: Seq<bool>) -> Seq<bool> {
    Seq::new(PAD_COUNT as nat, |p: int| a[p] && !b[p])
}

/// The notes of the mouse-held pad, re-sounded in a new voicing.
pub open spec fn mouse_retrigger(kb: &ChordKbState, old_v: VoicingType, new_v: VoicingType) -> Seq<
    NoteEvent,
> {
    match kb.held_pad {
        Some((row, col)) => offs(pad_voiced(kb, row * 7 + col, old_v)) + ons(
            pad_voiced(kb, row * 7 + col, new_v),
        ),
        None => seq![],
    }
}

/// When the momentary voicing differs from the applied one: held pads are
/// re-sounded and the frozen notes moved to the new voicing. Gives the
/// frozen set and the events.
pub open spec fn retrigger_spec(
    kb: &ChordKbState,
    held: Seq<bool>,
    voicing: VoicingType,
    applied: VoicingType,
    frozen: Seq<u8>,
) -> (Seq<u8>, Seq<NoteEvent>) {
    if voicing != applied {
        let (fz, ev) = remap_frozen_spec(kb, frozen, applied, voicing);
        (
            fz,
            retrigger_events(kb, held, applied, voicing, PAD_COUNT as int) + mouse_retrigger(
                kb,
                applied,
                voicing,
            ) + ev,
        )
    } else {
        (frozen, seq![])
    }
}

/// Pads pressed and released between `held` and `down`, played in voicing
/// `v`: new pads sound their chords (with freeze on, the frozen notes are
/// released first when any pad is new); released pads' notes go off, or
/// into the frozen set while freeze is on. Gives the frozen set and the
/// events.
pub open spec fn press_spec(
    kb: &ChordKbState,
    held: Seq<bool>,
    down: Seq<bool>,
    v: VoicingType,
    freeze: bool,
    frozen: Seq<u8>,
) -> (Seq<u8>, Seq<NoteEvent>) {
    let fresh = sel_minus(down, held);
    let any_new = exists|p: int| 0 <= p < PAD_COUNT && fresh[p];
    let on_part = ons(pads_notes(kb, fresh, v, PAD_COUNT as int));
    let rel_notes = pads_notes(kb, sel_minus(held, down), v, PAD_COUNT as int);
    if freeze && any_new {
        (insert_all(seq![], rel_notes), offs(frozen) + on_part)
    } else if freeze {
        (insert_all(frozen, rel_notes), on_part)
    } else {
        (frozen, on_part + offs(rel_notes))
    }
}

/// One frame of the chord pads, as a function of the previous frame: the
/// freeze flag, frozen set and events (see `chord_pads_frame`).
pub open spec fn chord_pads_spec(
    kb: &ChordKbState,
    held: Seq<bool>,
    down: Seq<bool>,
    voicing: VoicingType,
    applied: VoicingType,
    arrow: VoicingType,
    freeze: bool,
    frozen: Seq<u8>,
    space: bool,
    piano_held: Seq<u8>,
) -> (bool, Seq<u8>, Seq<NoteEvent>) {
    let t = toggle_spec(freeze, frozen, space);
    let r1 = retrigger_spec(kb, held, voicing, applied, t.1);
    let r2 = press_spec(kb, held, down, arrow, t.0, r1.0);
    (t.0, r2.0, t.2 + r1.1 + r2.1 + offs(piano_held))
}

/// Outcome of one frame of the chord pads.
pub struct ChordPadFrame {
    /// Pads held by keys after the frame.
    pub held: [[bool; 7]; 3],
    pub freeze: bool,
    pub frozen: Vec<u8>,
    /// The momentary voicing after the frame.
    pub voicing: VoicingType,
    /// The voicing the sounding pads were last played in.
    pub voicing_applied: VoicingType,
    /// Events to send, in order.
    pub events: Vec<NoteEvent>,
}

proof fn lemma_pad_args(kb: &ChordKbState, p: int)
    requires
        pads_ok(kb),
        0 <= p < PAD_COUNT,
    ensures
        0 <= p / 7 < 3,
        0 <= p % 7 < 7,
        pitch_args_ok(kb.root, (p % 7) as usize, kb.octave),
{
}

fn pad_notes(kb: &ChordKbState, p: usize, v: VoicingType) -> (r: Vec<u8>)
    requires
        pads_ok(kb),
        p < PAD_COUNT,
    ensures
        r@ == pad_voiced(kb, p as int, v),
{
    proof {
        lemma_pad_args(kb, p as int);
    }
    apply_voicing(kb.chord_notes_for(p / 7, p % 7), v)
}

fn flat_grid(g: &[[bool; 7]; 3]) -> (r: Vec<bool>)
    ensures
        r@ == flat(*g),
{
    let mut r: Vec<bool> = Vec::new();
    let mut p: usize = 0;
    while p < PAD_COUNT
        invariant
            p <= PAD_COUNT,
            r@.len() == p,
            forall|q: int| 0 <= q < p ==> r@[q] == g@[q / 7]@[q % 7],
        decreases PAD_COUNT - p,
    {
        r.push(g[p / 7][p % 7]);
        p += 1;
    }
    assert(r@ =~= flat(*g));
    r
}

fn select_minus(a: &Vec<bool>, b: &Vec<bool>) -> (r: Vec<bool>)
    requires
        a@.len() == PAD_COUNT,
        b@.len() == PAD_COUNT,
    ensures
        r@ == sel_minus(a@, b@),
{
    let mut r: Vec<bool> = Vec::new();
    let mut p: usize = 0;
    while p < PAD_COUNT
        invariant
            p <= PAD_COUNT,
            a@.len() == PAD_COUNT,
            b@.len() == PAD_COUNT,
            r@.len() == p,
            forall|q: int| 0 <= q < p ==> r@[q] == (a@[q] && !b@[q]),
        decreases PAD_COUNT - p,
    {
        r.push(a[p] && !b[p]);
        p += 1;
    }
    assert(r@ =~= sel_minus(a@, b@));
    r
}

fn selected_notes(kb: &ChordKbState, sel: &Vec<bool>, v: VoicingType) -> (r: Vec<u8>)
    requires
        pads_ok(kb),
        sel@.len() == PAD_COUNT,
    ensures
        r@ == pads_notes(kb, sel@, v, PAD_COUNT as int),
        r@.len() > 0 ==> exists|p: int| 0 <= p < PAD_COUNT && sel@[p],
{
    let mut r: Vec<u8> = Vec::new();
    let mut p: usize = 0;
    while p < PAD_COUNT
        invariant
            p <= PAD_COUNT,
            pads_ok(kb),
            sel@.len() == PAD_COUNT,
            r@ == pads_notes(kb, sel@, v, p as int),
            r@.len() > 0 ==> exists|q: int| 0 <= q < p && sel@[q],
        decreases PAD_COUNT - p,
    {
        if sel[p] {
            let mut notes = pad_notes(kb, p, v);
            r.append(&mut notes);
        }
        p += 1;
    }
    r
}

fn push_retriggers(
    kb: &ChordKbState,
    sel: &Vec<bool>,
    old_v: VoicingType,
    new_v: VoicingType,
    events: &mut Vec<NoteEvent>,
)
    requires
        pads_ok(kb),
        sel@.len() == PAD_COUNT,
    ensures
        final(events)@ == old(events)@ + retrigger_events(kb, sel@, old_v, new_v, PAD_COUNT as int),
{
    let ghost start = events@;
    let mut p: usize = 0;
    while p < PAD_COUNT
        invariant
            p <= PAD_COUNT,
            pads_ok(kb),
            sel@.len() == PAD_COUNT,
            events@ == start + retrigger_events(kb, sel@, old_v, new_v, p as int),
        decreases PAD_COUNT - p,
    {
        if sel[p] {
            let old_notes = pad_notes(kb, p, old_v);
            let new_notes = pad_notes(kb, p, new_v);
            push_events(events, &old_notes, false);
            push_events(events, &new_notes, true);
            assert(events@ =~= start + retrigger_events(kb, sel@, old_v, new_v, p + 1));
        }
        p += 1;
    }
}

fn find_pad_from(kb: &ChordKbState, v: VoicingType, note: u8, p: usize) -> (r: Option<usize>)
    requires
        pads_ok(kb),
        p <= PAD_COUNT,
    ensures
        match r {
            Some(q) => first_pad_with(kb, v, note, p as int) == Some(q as int) && q < PAD_COUNT,
            None => first_pad_with(kb, v, note, p as int) is None,
        },
    decreases PAD_COUNT - p,
{
    if p >= PAD_COUNT {
        return None;
    }
    let notes = pad_notes(kb, p, v);
    if contains_note(&notes, note) {
        Some(p)
    } else {
        find_pad_from(kb, v, note, p + 1)
    }
}

fn push_swaps(note: u8, ms: &Vec<u8>, events: &mut Vec<NoteEvent>)
    ensures
        final(events)@ == old(events)@ + swap_events(note, ms@),
{
    let ghost start = events@;
    let mut i: usize = 0;
    while i < ms.len()
        invariant
            i <= ms.len(),
            events@ == start + swap_events(note, ms@.take(i as int)),
        decreases ms.len() - i,
    {
        let m = ms[i];
        assert(ms@.take(i + 1).drop_last() =~= ms@.take(i as int));
        events.push(NoteEvent::Off(note));
        events.push(NoteEvent::On(m));
        assert(events@ =~= start + swap_events(note, ms@.take(i + 1)));
        i += 1;
    }
    assert(ms@.take(ms.len() as int) =~= ms@);
}

fn remap_frozen(
    kb: &ChordKbState,
    frozen: &Vec<u8>,
    old_v: VoicingType,
    new_v: VoicingType,
    events: &mut Vec<NoteEvent>,
) -> (r: Vec<u8>)
    requires
        pads_ok(kb),
    ensures
        r@ == remap_frozen_spec(kb, frozen@, old_v, new_v).0,
        final(events)@ == old(events)@ + remap_frozen_spec(kb, frozen@, old_v, new_v).1,
{
    let ghost start = events@;
    let mut set: Vec<u8> = Vec::new();
    let mut i: usize = 0;
    while i < frozen.len()
        invariant
            i <= frozen.len(),
            pads_ok(kb),
            set@ == remap_frozen_spec(kb, frozen@.take(i as int), old_v, new_v).0,
            events@ == start + remap_frozen_spec(kb, frozen@.take(i as int), old_v, new_v).1,
        decreases frozen.len() - i,
    {
        let n = frozen[i];
        assert(frozen@.take(i + 1).drop_last() =~= frozen@.take(i as int));
        let ghost ev_before = events@;
        match find_pad_from(kb, old_v, n, 0) {
            Some(p) => {
                let ms = pad_notes(kb, p, new_v);
                push_swaps(n, &ms, events);
                insert_notes(&mut set, &ms);
                assert(events@ =~= start + remap_frozen_spec(kb, frozen@.take(i + 1), old_v, new_v).1);
            },
            None => {
                let one = vec![n];
                insert_notes(&mut set, &one);
                assert(one@ =~= seq![n]);
            },
        }
        i += 1;
    }
    assert(frozen@.take(frozen.len() as int) =~= frozen@);
    set
}

fn retrigger_phase(
    kb: &ChordKbState,
    held_flat: &Vec<bool>,
    voicing: VoicingType,
    applied: VoicingType,
    frozen: Vec<u8>,
    events: &mut Vec<NoteEvent>,
) -> (r: Vec<u8>)
    requires
        pads_ok(kb),
        held_flat@.len() == PAD_COUNT,
        match kb.held_pad {
            Some((row, col)) => row < 3 && col < 7,
            None => true,
        },
    ensures
        r@ == retrigger_spec(kb, held_flat@, voicing, applied, frozen@).0,
        final(events)@ == old(events)@ + retrigger_spec(kb, held_flat@, voicing, applied, frozen@).1,
{
    if voicing != applied {
        let ghost start = events@;
        push_retriggers(kb, held_flat, applied, voicing, events);
        let ghost mid = events@;
        match kb.held_pad {
            Some((row, col)) => {
                let old_notes = pad_notes(kb, row * 7 + col, applied);
                let new_notes = pad_notes(kb, row * 7 + col, voicing);
                push_events(events, &old_notes, false);
                push_events(events, &new_notes, true);
            },
            None => {},
        }
        assert(events@ =~= mid + mouse_retrigger(kb, applied, voicing));
        let fz = remap_frozen(kb, &frozen, applied, voicing, events);
        assert(events@ =~= start + retrigger_spec(kb, held_flat@, voicing, applied, frozen@).1);
        fz
    } else {
        assert(events@ =~= old(events)@ + Seq::<NoteEvent>::empty());
        frozen
    }
}

fn press_phase(
    kb: &ChordKbState,
    held_flat: &Vec<bool>,
    down_flat: &Vec<bool>,
    v: VoicingType,
    freeze: bool,
    frozen: Vec<u8>,
    events: &mut Vec<NoteEvent>,
) -> (r: Vec<u8>)
    requires
        pads_ok(kb),
        held_flat@.len() == PAD_COUNT,
        down_flat@.len() == PAD_COUNT,
    ensures
        r@ == press_spec(kb, held_flat@, down_flat@, v, freeze, frozen@).0,
        final(events)@ == old(events)@ + press_spec(kb, held_flat@, down_flat@, v, freeze, frozen@).1,
{
    let ghost start = events@;
    let fresh = select_minus(down_flat, held_flat);
    let released = select_minus(held_flat, down_flat);
    let fresh_notes = selected_notes(kb, &fresh, v);
    let rel_notes = selected_notes(kb, &released, v);
    let mut any_new = false;
    let mut p: usize = 0;
    while p < PAD_COUNT
        invariant
            p <= PAD_COUNT,
            fresh@.len() == PAD_COUNT,
            any_new == exists|q: int| 0 <= q < p && fresh@[q],
        decreases PAD_COUNT - p,
    {
        if fresh[p] {
            any_new = true;
        }
        p += 1;
    }
    let ghost spec = press_spec(kb, held_flat@, down_flat@, v, freeze, frozen@);
    if freeze && any_new {
        push_events(events, &frozen, false);
        push_events(events, &fresh_notes, true);
        let mut fz: Vec<u8> = Vec::new();
        insert_notes(&mut fz, &rel_notes);
        assert(events@ =~= start + spec.1);
        fz
    } else if freeze {
        push_events(events, &fresh_notes, true);
        let mut fz = frozen;
        insert_notes(&mut fz, &rel_notes);
        fz
    } else {
        push_events(events, &fresh_notes, true);
        push_events(events, &rel_notes, false);
        assert(events@ =~= start + spec.1);
        frozen
    }
}

/// One frame of the chord pads (rows Q–U, A–J, Z–M; column = scale degree).
/// In order: Space toggles freeze (see `toggle_freeze`); if the momentary
/// `voicing` differs from the one the sounding pads were played in
/// (`applied`), every held pad (keys row-major, then the mouse pad) is
/// re-sounded, old notes off then new notes on, and each frozen note that
/// belongs to a pad is swapped for that pad's notes in the new voicing;
/// the voicing becomes `arrow` (pass `VoicingType::Root` while a text field
/// has focus); each newly pressed pad sounds its chord in that voicing
/// (with freeze on, the frozen notes are released first); each released
/// pad's notes are switched off, or kept in the frozen set while freeze is
/// on; finally every note held on the piano keys is switched off.
pub fn chord_pads_frame(
    kb: &ChordKbState,
    held: &[[bool; 7]; 3],
    pads_down: &[[bool; 7]; 3],
    voicing: VoicingType,
    applied: VoicingType,
    arrow: VoicingType,
    freeze: bool,
    frozen: &Vec<u8>,
    space: bool,
    piano_held: &Vec<u8>,
) -> (r: ChordPadFrame)
    requires
        pads_ok(kb),
        match kb.held_pad {
            Some((row, col)) => row < 3 && col < 7,
            None => true,
        },
    ensures
        ({
            let s = chord_pads_spec(
                kb,
                flat(*held),
                flat(*pads_down),
                voicing,
                applied,
                arrow,
                freeze,
                frozen@,
                space,
                piano_held@,
            );
            &&& r.held == *pads_down
            &&& r.freeze == s.0
            &&& r.frozen@ == s.1
            &&& r.events@ == s.2
            &&& r.voicing == arrow
            &&& r.voicing_applied == voicing
        }),
{
    let t = toggle_freeze(freeze, frozen, space);
    let mut events = t.events;
    let held_flat = flat_grid(held);
    let down_flat = flat_grid(pads_down);
    let fz1 = retrigger_phase(kb, &held_flat, voicing, applied, t.frozen, &mut events);
    let fz2 = press_phase(kb, &held_flat, &down_flat, arrow, t.freeze, fz1, &mut events);
    push_events(&mut events, piano_held, false);
    ChordPadFrame {
        held: *pads_down,
        freeze: t.freeze,
        frozen: fz2,
        voicing: arrow,
        voicing_applied: voicing,
        events,
    }
}

/// The pads held by keys, all switched off when the keyboard leaves chord
/// mode (voiced in `v`, the voicing then in force).
pub fn release_pads(kb: &ChordKbState, held: &[[bool; 7]; 3], v: VoicingType) -> (r: Vec<NoteEvent>)
    requires
        pads_ok(kb),
    ensures
        r@ == offs(pads_notes(kb, flat(*held), v, PAD_COUNT as int)),
{
    let held_flat = flat_grid(held);
    let notes = selected_notes(kb, &held_flat, v);
    let mut events: Vec<NoteEvent> = Vec::new();
    push_events(&mut events, &notes, false);
    assert(events@ =~= offs(notes@));
    events
}

/// The chord-sequencer root after the piano keys pressed this frame: the
/// pitch class (semitone mod 12) of the last pressed key among the first
/// `n`, or `root` when none was pressed.
pub open spec fn transposed_root(pressed: Seq<bool>, root: u8, n: int) -> u8
    decreases n,
{
    if n <= 0 {
        root
    } else if pressed[n - 1] {
        ((n - 1) % 12) as u8
    } else {
        transposed_root(pressed, root, n - 1)
    }
}

/// Live transposition while the chord sequencer plays in piano mode: the
/// last piano key pressed this frame (in key order A … ') sets the root to
/// its pitch class, and every note held on the piano keys is switched off.
pub fn live_transpose(pressed: &[bool; 18], root: u8, piano_held: &Vec<u8>) -> (r: (u8, Vec<NoteEvent>))
    ensures
        r.0 == transposed_root(pressed@, root, PIANO_KEYS as int),
        r.0 < 12 || r.0 == root,
        r.1@ == offs(piano_held@),
{
    let mut new_root = root;
    let mut k: usize = 0;
    while k < PIANO_KEYS
        invariant
            k <= PIANO_KEYS,
            new_root == transposed_root(pressed@, root, k as int),
            new_root < 12 || new_root == root,
        decreases PIANO_KEYS - k,
    {
        if pressed[k] {
            new_root = (k % 12) as u8;
        }
        k += 1;
    }
    let mut events: Vec<NoteEvent> = Vec::new();
    push_events(&mut events, piano_held, false);
    assert(events@ =~= offs(piano_held@));
    (new_root, events)
}

/// The laws of one piano frame, for held and frozen sets without repeats:
/// the new held set is exactly the notes of the keys down (each once);
/// every newly pressed note gets exactly one note-on and nothing else is
/// switched on; every released note is switched off exactly once, or, while
/// freeze is on, kept in the frozen set; freeze flips exactly when Space is
/// pressed, and turning it off releases the whole frozen set.
pub proof fn lemma_piano_frame_laws(
    held: Seq<u8>,
    keys: Seq<bool>,
    octave: i32,
    freeze: bool,
    frozen: Seq<u8>,
    space: bool,
)
    requires
        octave_ok(octave),
        keys.len() == PIANO_KEYS,
        held.no_duplicates(),
        frozen.no_duplicates(),
    ensures
        ({
            let t = toggle_spec(freeze, frozen, space);
            let cur = key_notes(keys, octave);
            let (fz, ev0) = piano_keys_spec(held, cur, t.0, t.1);
            let ev = t.2 + ev0;
            let fresh = minus(cur, held);
            let released = minus(held, cur);
            &&& cur.no_duplicates()
            &&& forall|x: u8| #[trigger] cur.contains(x) <==> exists|k: int|
                0 <= k < PIANO_KEYS && keys[k] && x == piano_key_note(octave, k)
            &&& on_notes(ev) == fresh
            &&& fresh.no_duplicates()
            &&& forall|x: u8| #[trigger] fresh.contains(x) <==> cur.contains(x) && !held.contains(x)
            &&& released.no_duplicates()
            &&& forall|x: u8| #[trigger] released.contains(x) <==> held.contains(x) && !cur.contains(x)
            &&& t.0 == (freeze != space)
            &&& (!t.0 ==> off_notes(ev) == (if space && freeze { frozen } else { seq![] }) + released)
            &&& (t.0 ==> off_notes(ev) == (if fresh.len() > 0 { frozen } else { seq![] }))
            &&& (t.0 ==> forall|x: u8| released.contains(x) ==> #[trigger] fz.contains(x))
            &&& fz.no_duplicates()
        }),
{
    let t = toggle_spec(freeze, frozen, space);
    let cur = key_notes(keys, octave);
    let fresh = minus(cur, held);
    let released = minus(held, cur);
    lemma_key_notes(keys, octave, PIANO_KEYS as int);
    lemma_minus(cur, held);
    lemma_minus(held, cur);
    lemma_event_notes_of(frozen);
    lemma_event_notes_of(fresh);
    lemma_event_notes_of(released);
    lemma_event_notes_of(t.1);
    lemma_event_notes_concat(ons(fresh), offs(released));
    lemma_event_notes_concat(offs(t.1), ons(fresh));
    let (fz, ev0) = piano_keys_spec(held, cur, t.0, t.1);
    lemma_event_notes_concat(t.2, ev0);
    lemma_insert_all(seq![], released);
    lemma_insert_all(t.1, released);
    assert(Seq::<u8>::empty().no_duplicates());
    assert(on_notes(Seq::<NoteEvent>::empty()) =~= Seq::<u8>::empty());
    assert(off_notes(Seq::<NoteEvent>::empty()) =~= Seq::<u8>::empty());
    assert(Seq::<u8>::empty() + fresh =~= fresh);
    assert(fresh + Seq::<u8>::empty() =~= fresh);
    assert(Seq::<u8>::empty() + released =~= released);
    assert(Seq::<u8>::empty() + Seq::<u8>::empty() =~= Seq::<u8>::empty());
    assert(frozen + Seq::<u8>::empty() =~= frozen);
}

/// The laws of one chord-pad frame while the voicing stays as applied:
/// freeze flips exactly when Space is pressed; the notes switched on are
/// exactly the chords of the newly pressed pads, in order; with freeze off,
/// the notes switched off are the frozen notes released by Space, the
/// chords of the released pads and the notes held on the piano keys; with
/// freeze on, every note of a released pad stays in the frozen set.
pub proof fn lemma_chord_pads_frame_laws(
    kb: &ChordKbState,
    held: Seq<bool>,
    down: Seq<bool>,
    voicing: VoicingType,
    arrow: VoicingType,
    freeze: bool,
    frozen: Seq<u8>,
    space: bool,
    piano_held: Seq<u8>,
)
    ensures
        ({
            let s = chord_pads_spec(kb, held, down, voicing, voicing, arrow, freeze, frozen, space, piano_held);
            let fresh = pads_notes(kb, sel_minus(down, held), arrow, PAD_COUNT as int);
            let released = pads_notes(kb, sel_minus(held, down), arrow, PAD_COUNT as int);
            &&& s.0 == (freeze != space)
            &&& on_notes(s.2) == fresh
            &&& (!s.0 ==> off_notes(s.2) == (if space && freeze { frozen } else { seq![] }) + released
                + piano_held)
            &&& (s.0 ==> forall|x: u8| released.contains(x) ==> #[trigger] s.1.contains(x))
        }),
{
    let t = toggle_spec(freeze, frozen, space);
    let r1 = retrigger_spec(kb, held, voicing, voicing, t.1);
    let r2 = press_spec(kb, held, down, arrow, t.0, r1.0);
    let fresh = pads_notes(kb, sel_minus(down, held), arrow, PAD_COUNT as int);
    let released = pads_notes(kb, sel_minus(held, down), arrow, PAD_COUNT as int);
    lemma_event_notes_of(frozen);
    lemma_event_notes_of(t.1);
    lemma_event_notes_of(fresh);
    lemma_event_notes_of(released);
    lemma_event_notes_of(piano_held);
    lemma_event_notes_concat(ons(fresh), offs(released));
    lemma_event_notes_concat(offs(t.1), ons(fresh));
    lemma_event_notes_concat(t.2, r1.1);
    lemma_event_notes_concat(t.2 + r1.1, r2.1);
    lemma_event_notes_concat(t.2 + r1.1 + r2.1, offs(piano_held));
    lemma_insert_all(seq![], released);
    lemma_insert_all(t.1, released);
    assert(on_notes(Seq::<NoteEvent>::empty()) =~= Seq::<u8>::empty());
    assert(off_notes(Seq::<NoteEvent>::empty()) =~= Seq::<u8>::empty());
    assert(t.2 + r1.1 =~= t.2);
    assert(Seq::<u8>::empty() + fresh =~= fresh);
    assert(fresh + Seq::<u8>::empty() =~= fresh);
    assert(Seq::<u8>::empty() + released =~= released);
    assert(Seq::<u8>::empty() + Seq::<u8>::empty() =~= Seq::<u8>::empty());
    assert(released + Seq::<u8>::empty() =~= released);
    assert(frozen + Seq::<u8>::empty() =~= frozen);
    assert(Seq::<u8>::empty() + released + piano_held =~= released + piano_held);
}


/// With freeze on after the frame's Space (and the voicing as applied): if
/// some pad is newly pressed, the frame first switches off exactly the
/// notes frozen before it, then sounds the new pads' chords, then releases
/// the piano keys' notes, and afterwards only the notes of the pads
/// released in this frame are frozen; if no pad is new, nothing sounds or
/// stops but the piano keys' notes, and the frozen set gains the released
/// pads' notes and keeps its own.
pub proof fn lemma_chord_pads_freeze_laws(
    kb: &ChordKbState,
    held: Seq<bool>,
    down: Seq<bool>,
    voicing: VoicingType,
    arrow: VoicingType,
    freeze: bool,
    frozen: Seq<u8>,
    space: bool,
    piano_held: Seq<u8>,
)
    requires
        freeze != space,
    ensures
        ({
            let s = chord_pads_spec(kb, held, down, voicing, voicing, arrow, freeze, frozen, space, piano_held);
            let fresh_sel = sel_minus(down, held);
            let fresh = pads_notes(kb, fresh_sel, arrow, PAD_COUNT as int);
            let released = pads_notes(kb, sel_minus(held, down), arrow, PAD_COUNT as int);
            &&& s.0
            &&& (exists|p: int| 0 <= p < PAD_COUNT && down[p] && !held[p]) ==> {
                &&& s.2 == offs(frozen) + ons(fresh) + offs(piano_held)
                &&& off_notes(s.2) == frozen + piano_held
                &&& on_notes(s.2) == fresh
                &&& forall|x: u8| #[trigger] s.1.contains(x) <==> released.contains(x)
            }
            &&& !(exists|p: int| 0 <= p < PAD_COUNT && down[p] && !held[p]) ==> {
                &&& s.2 == offs(piano_held)
                &&& forall|x: u8| #[trigger] s.1.contains(x) <==> frozen.contains(x) || released.contains(x)
            }
        }),
{
    let t = toggle_spec(freeze, frozen, space);
    assert(t.0 && t.1 == frozen && t.2 == Seq::<NoteEvent>::empty());
    let fresh_sel = sel_minus(down, held);
    let fresh = pads_notes(kb, fresh_sel, arrow, PAD_COUNT as int);
    let released = pads_notes(kb, sel_minus(held, down), arrow, PAD_COUNT as int);
    let any_new = exists|p: int| 0 <= p < PAD_COUNT && fresh_sel[p];
    assert(any_new == exists|p: int| 0 <= p < PAD_COUNT && down[p] && !held[p]) by {
        if any_new {
            let p = choose|p: int| 0 <= p < PAD_COUNT && fresh_sel[p];
            assert(down[p] && !held[p]);
        }
        if exists|p: int| 0 <= p < PAD_COUNT && down[p] && !held[p] {
            let p = choose|p: int| 0 <= p < PAD_COUNT && down[p] && !held[p];
            assert(fresh_sel[p]);
        }
    }
    lemma_insert_all(seq![], released);
    lemma_insert_all(frozen, released);
    lemma_event_notes_of(frozen);
    lemma_event_notes_of(fresh);
    lemma_event_notes_of(piano_held);
    lemma_event_notes_concat(offs(frozen), ons(fresh));
    lemma_event_notes_concat(offs(frozen) + ons(fresh), offs(piano_held));
    let s = chord_pads_spec(kb, held, down, voicing, voicing, arrow, freeze, frozen, space, piano_held);
    if any_new {
        assert(s.2 =~= offs(frozen) + ons(fresh) + offs(piano_held));
        assert(frozen + Seq::<u8>::empty() + piano_held =~= frozen + piano_held);
        assert(Seq::<u8>::empty() + fresh + Seq::<u8>::empty() =~= fresh);
    } else {
        assert(fresh =~= Seq::<u8>::empty()) by {
            lemma_pads_notes_none(kb, fresh_sel, arrow, PAD_COUNT as int);
        }
        assert(ons(fresh) =~= Seq::<NoteEvent>::empty());
        assert(s.2 =~= offs(piano_held));
    }
}

proof fn lemma_pads_notes_none(kb: &ChordKbState, sel: Seq<bool>, v: VoicingType, n: int)
    requires
        n <= PAD_COUNT,
        forall|p: int| 0 <= p < PAD_COUNT ==> !sel[p],
    ensures
        pads_notes(kb, sel, v, n) == Seq::<u8>::empty(),
    decreases n,
{
    if n > 0 {
        lemma_pads_notes_none(kb, sel, v, n - 1);
    }
}

} // verus!
