//! Two-layer patch history: rolling auto-snapshots + named manual pins.
//!
//! The history does not look inside a patch, so the patch type is a
//! parameter: the application stores its own patch values here.

use vstd::prelude::*;
use crate::text::{decimal, decimal_spec};

verus! {

/// How many auto snapshots to keep before evicting the oldest.
pub const AUTO_CAPACITY: usize = 30;

/// Seconds since the Unix epoch by the system clock.
///
/// Calls `std::time::SystemTime::now` and `duration_since(UNIX_EPOCH)`,
/// reading 0 when the clock stands before the epoch. The value depends on
/// the clock, so nothing is stated of it.
#[verifier::external_body]
fn now_secs() -> u64 {
    std::time::SystemTime::now()
        .duration_since(std::time::UNIX_EPOCH)
        .map(|d| d.as_secs())
        .unwrap_or(0)
}

/// One entry of the history.
#[derive(Debug)]
pub struct PatchSnapshot<P> {
    /// Unix timestamp (seconds) — used for display only.
    pub timestamp: u64,
    /// None = auto, Some = manual pin.
    pub label: Option<String>,
    pub patch: P,
}

/// Display text for an age of `secs` seconds.
pub open spec fn age_text(secs: nat) -> Seq<char> {
    if secs < 10 {
        "just now"@
    } else if secs < 60 {
        decimal_spec(secs) + "s ago"@
    } else if secs < 3600 {
        decimal_spec(secs / 60) + " min ago"@
    } else {
        decimal_spec(secs / 3600) + " h ago"@
    }
}

impl<P> PatchSnapshot<P> {
    pub open spec fn manual(&self) -> bool {
        self.label.is_some()
    }

    /// Whether the entry is a named pin (as opposed to an auto snapshot).
    pub fn is_manual(&self) -> (r: bool)
        ensures
            r == self.manual(),
    {
        self.label.is_some()
    }

    /// Seconds between the snapshot and `now`, 0 if `now` is earlier.
    pub open spec fn age_secs(&self, now: u64) -> nat {
        if now >= self.timestamp {
            (now - self.timestamp) as nat
        } else {
            0
        }
    }

    /// Human-readable age string: "just now", "42s ago", "2 min ago", "1 h ago".
    pub fn age_str(&self, now: u64) -> (r: String)
        ensures
            r@ == age_text(self.age_secs(now)),
    {
        let secs = now.saturating_sub(self.timestamp);
        if secs < 10 {
            String::from_str("just now")
        } else if secs < 60 {
            decimal(secs).concat("s ago")
        } else if secs < 3600 {
            decimal(secs / 60).concat(" min ago")
        } else {
            decimal(secs / 3600).concat(" h ago")
        }
    }
}

/// `s` with every manual pin kept and only the first `budget` auto
/// snapshots (the newest ones, as entries are newest first).
pub open spec fn keep_recent_autos<P>(s: Seq<PatchSnapshot<P>>, budget: nat) -> Seq<PatchSnapshot<P>>
    decreases s.len(),
{
    if s.len() == 0 {
        s
    } else if s[0].label.is_some() {
        seq![s[0]] + keep_recent_autos(s.drop_first(), budget)
    } else if budget > 0 {
        seq![s[0]] + keep_recent_autos(s.drop_first(), (budget - 1) as nat)
    } else {
        keep_recent_autos(s.drop_first(), budget)
    }
}

/// The manual pins of `s`, in order.
pub open spec fn manual_pins<P>(s: Seq<PatchSnapshot<P>>) -> Seq<PatchSnapshot<P>>
    decreases s.len(),
{
    if s.len() == 0 {
        s
    } else if s[0].label.is_some() {
        seq![s[0]] + manual_pins(s.drop_first())
    } else {
        manual_pins(s.drop_first())
    }
}

/// How many auto snapshots `s` holds.
pub open spec fn auto_count<P>(s: Seq<PatchSnapshot<P>>) -> nat
    decreases s.len(),
{
    if s.len() == 0 {
        0
    } else if s[0].label.is_some() {
        auto_count(s.drop_first())
    } else {
        1 + auto_count(s.drop_first())
    }
}

/// The full history store: manual pins + rolling auto-snapshots, newest first.
#[derive(Debug)]
pub struct PatchHistory<P> {
    pub entries: Vec<PatchSnapshot<P>>,
}

impl<P> Default for PatchHistory<P> {
    fn default() -> (r: Self)
        ensures
            r.entries@ == Seq::<PatchSnapshot<P>>::empty(),
    {
        PatchHistory { entries: Vec::new() }
    }
}

impl<P> PatchHistory<P> {
    /// Add an auto-snapshot. Evicts oldest auto entries beyond `AUTO_CAPACITY`.
    /// The snapshot is stamped with the current time.
    pub fn push_auto(&mut self, patch: P)
        ensures
            exists|t: u64|
                final(self).entries@ == keep_recent_autos(
                    seq![PatchSnapshot { timestamp: t, label: None, patch }] + old(self).entries@,
                    AUTO_CAPACITY as nat,
                ),
    {
        let t = now_secs();
        self.push_auto_at(patch, t);
    }

    /// Add an auto-snapshot stamped `timestamp`, then keep every manual pin
    /// and the newest `AUTO_CAPACITY` auto snapshots.
    pub fn push_auto_at(&mut self, patch: P, timestamp: u64)
        ensures
            final(self).entries@ == keep_recent_autos(
                seq![PatchSnapshot { timestamp, label: None, patch }] + old(self).entries@,
                AUTO_CAPACITY as nat,
            ),
    {
        let mut rest: Vec<PatchSnapshot<P>> = Vec::new();
        std::mem::swap(&mut rest, &mut self.entries);
        rest.insert(0, PatchSnapshot { timestamp, label: None, patch });
        assert(rest@ =~= seq![PatchSnapshot { timestamp, label: None, patch }] + old(self).entries@);
        let ghost target = keep_recent_autos(rest@, AUTO_CAPACITY as nat);
        let mut kept: Vec<PatchSnapshot<P>> = Vec::new();
        let mut auto_seen: usize = 0;
        assert(kept@ + keep_recent_autos(rest@, (AUTO_CAPACITY - auto_seen) as nat) =~= target);
        while rest.len() > 0
            invariant
                auto_seen <= AUTO_CAPACITY,
                kept@ + keep_recent_autos(rest@, (AUTO_CAPACITY - auto_seen) as nat) == target,
            decreases rest@.len(),
        {
            let ghost before = rest@;
            let e = rest.remove(0);
            assert(rest@ =~= before.drop_first());
            if e.is_manual() {
                kept.push(e);
                assert(kept@ + keep_recent_autos(rest@, (AUTO_CAPACITY - auto_seen) as nat) =~= target);
            } else if auto_seen < AUTO_CAPACITY {
                kept.push(e);
                auto_seen += 1;
                assert(kept@ + keep_recent_autos(rest@, (AUTO_CAPACITY - auto_seen) as nat) =~= target);
            }
        }
        assert(kept@ =~= target);
        self.entries = kept;
    }

    /// Add a manual pin with a user-supplied label, stamped with the current
    /// time.
    pub fn push_manual(&mut self, patch: P, label: String)
        ensures
            exists|t: u64|
                final(self).entries@ == seq![PatchSnapshot { timestamp: t, label: Some(label), patch }]
                    + old(self).entries@,
    {
        let t = now_secs();
        self.push_manual_at(patch, label, t);
    }

    /// Add a manual pin stamped `timestamp` in front of all entries.
    pub fn push_manual_at(&mut self, patch: P, label: String, timestamp: u64)
        ensures
            final(self).entries@ == seq![PatchSnapshot { timestamp, label: Some(label), patch }]
                + old(self).entries@,
    {
        self.entries.insert(0, PatchSnapshot { timestamp, label: Some(label), patch });
        assert(self.entries@ =~= seq![PatchSnapshot { timestamp, label: Some(label), patch }]
            + old(self).entries@);
    }

    /// Replace the label of the entry at `index`; out of range, nothing
    /// changes.
    pub fn rename(&mut self, index: usize, label: String)
        ensures
            index < old(self).entries@.len() ==> final(self).entries@ == old(self).entries@.update(
                index as int,
                PatchSnapshot { label: Some(label), ..old(self).entries@[index as int] },
            ),
            index >= old(self).entries@.len() ==> final(self).entries@ == old(self).entries@,
    {
        if index < self.entries.len() {
            let mut e = self.entries.remove(index);
            e.label = Some(label);
            self.entries.insert(index, e);
            assert(self.entries@ =~= old(self).entries@.update(
                index as int,
                PatchSnapshot { label: Some(label), ..old(self).entries@[index as int] },
            ));
        }
    }

    /// Delete an entry by index; out of range, nothing changes.
    pub fn remove(&mut self, index: usize)
        ensures
            index < old(self).entries@.len() ==> final(self).entries@ == old(self).entries@.remove(
                index as int,
            ),
            index >= old(self).entries@.len() ==> final(self).entries@ == old(self).entries@,
    {
        if index < self.entries.len() {
            self.entries.remove(index);
        }
    }
}

/// Evicting auto snapshots never drops a manual pin, and keeps the pins in
/// order.
pub proof fn lemma_eviction_keeps_pins<P>(s: Seq<PatchSnapshot<P>>, budget: nat)
    ensures
        manual_pins(keep_recent_autos(s, budget)) == manual_pins(s),
    decreases s.len(),
{
    if s.len() > 0 {
        let b2 = if s[0].label.is_some() || budget == 0 {
            budget
        } else {
            (budget - 1) as nat
        };
        lemma_eviction_keeps_pins(s.drop_first(), b2);
        if s[0].label.is_some() || budget > 0 {
            let k = keep_recent_autos(s, budget);
            assert(k.drop_first() =~= keep_recent_autos(s.drop_first(), b2));
        }
    }
}

/// After eviction at most `budget` auto snapshots remain.
pub proof fn lemma_eviction_bounds_autos<P>(s: Seq<PatchSnapshot<P>>, budget: nat)
    ensures
        auto_count(keep_recent_autos(s, budget)) <= budget,
    decreases s.len(),
{
    if s.len() > 0 {
        let b2 = if s[0].label.is_some() || budget == 0 {
            budget
        } else {
            (budget - 1) as nat
        };
        lemma_eviction_bounds_autos(s.drop_first(), b2);
        if s[0].label.is_some() || budget > 0 {
            let k = keep_recent_autos(s, budget);
            assert(k.drop_first() =~= keep_recent_autos(s.drop_first(), b2));
        }
    }
}

/// A history within the budget loses nothing to eviction.
pub proof fn lemma_eviction_within_budget<P>(s: Seq<PatchSnapshot<P>>, budget: nat)
    requires
        auto_count(s) <= budget,
    ensures
        keep_recent_autos(s, budget) == s,
    decreases s.len(),
{
    if s.len() > 0 {
        let b2 = if s[0].label.is_some() {
            budget
        } else {
            (budget - 1) as nat
        };
        lemma_eviction_within_budget(s.drop_first(), b2);
        assert(keep_recent_autos(s, budget) =~= s);
    }
}

/// An auto snapshot just pushed stands first in the history, and every pin
/// and at most `AUTO_CAPACITY` autos remain.
pub proof fn lemma_push_auto_laws<P>(old_entries: Seq<PatchSnapshot<P>>, snap: PatchSnapshot<P>)
    requires
        snap.label.is_none(),
    ensures
        keep_recent_autos(seq![snap] + old_entries, AUTO_CAPACITY as nat)[0] == snap,
        manual_pins(keep_recent_autos(seq![snap] + old_entries, AUTO_CAPACITY as nat))
            == manual_pins(old_entries),
        auto_count(keep_recent_autos(seq![snap] + old_entries, AUTO_CAPACITY as nat))
            <= AUTO_CAPACITY,
        auto_count(old_entries) < AUTO_CAPACITY ==> keep_recent_autos(
            seq![snap] + old_entries,
            AUTO_CAPACITY as nat,
        ) == seq![snap] + old_entries,
{
    let s = seq![snap] + old_entries;
    assert(s.drop_first() =~= old_entries);
    lemma_eviction_keeps_pins(s, AUTO_CAPACITY as nat);
    lemma_eviction_bounds_autos(s, AUTO_CAPACITY as nat);
    if auto_count(old_entries) < AUTO_CAPACITY {
        lemma_eviction_within_budget(s, AUTO_CAPACITY as nat);
    }
}

proof fn lemma_auto_count_pin<P>(s: Seq<PatchSnapshot<P>>, i: int, e: PatchSnapshot<P>)
    requires
        0 <= i < s.len(),
        e.label.is_some(),
    ensures
        auto_count(s.update(i, e)) <= auto_count(s),
    decreases s.len(),
{
    if i > 0 {
        lemma_auto_count_pin(s.drop_first(), i - 1, e);
        assert(s.update(i, e).drop_first() =~= s.drop_first().update(i - 1, e));
    } else {
        assert(s.update(0, e).drop_first() =~= s.drop_first());
    }
}

proof fn lemma_auto_count_remove<P>(s: Seq<PatchSnapshot<P>>, i: int)
    requires
        0 <= i < s.len(),
    ensures
        auto_count(s.remove(i)) <= auto_count(s),
    decreases s.len(),
{
    if i > 0 {
        lemma_auto_count_remove(s.drop_first(), i - 1);
        assert(s.remove(i).drop_first() =~= s.drop_first().remove(i - 1));
    } else {
        assert(s.remove(0) =~= s.drop_first());
    }
}

/// Every operation keeps the history within `AUTO_CAPACITY` auto
/// snapshots: pushing a pin, renaming or removing never adds an auto
/// snapshot, and pushing one evicts down to the capacity.
pub proof fn lemma_history_capacity_kept<P>(
    s: Seq<PatchSnapshot<P>>,
    snap: PatchSnapshot<P>,
    pin: PatchSnapshot<P>,
    i: int,
)
    requires
        auto_count(s) <= AUTO_CAPACITY,
        snap.label.is_none(),
        pin.label.is_some(),
    ensures
        auto_count(keep_recent_autos(seq![snap] + s, AUTO_CAPACITY as nat)) <= AUTO_CAPACITY,
        auto_count(seq![pin] + s) <= AUTO_CAPACITY,
        0 <= i < s.len() ==> auto_count(s.update(i, pin)) <= AUTO_CAPACITY,
        0 <= i < s.len() ==> auto_count(s.remove(i)) <= AUTO_CAPACITY,
{
    lemma_eviction_bounds_autos(seq![snap] + s, AUTO_CAPACITY as nat);
    assert((seq![pin] + s).drop_first() =~= s);
    if 0 <= i < s.len() {
        lemma_auto_count_pin(s, i, pin);
        lemma_auto_count_remove(s, i);
    }
}

} // verus!
