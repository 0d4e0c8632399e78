//! Defaults of the per-track fields of a saved scene, where a saved scene
//! goes in the library, and the scene chain that steps through saved
//! scenes bar by bar.

use vstd::prelude::*;
use crate::text::str_equal;

verus! {

/// Number of synth tracks in the live rig.
pub const TRACK_COUNT: usize = 4;

/// Keyboard split default: every track starts at the lowest MIDI note.
pub fn default_key_lo() -> (r: [u8; 4])
    ensures
        forall|t: int| 0 <= t < 4 ==> r@[t] == 0,
{
    [0u8; 4]
}

/// Keyboard split default: every track ends at the highest MIDI note.
pub fn default_key_hi() -> (r: [u8; 4])
    ensures
        forall|t: int| 0 <= t < 4 ==> r@[t] == 127,
{
    [127u8; 4]
}

/// `steps` after scene `deleted` left the library: its entries are dropped
/// and the indices above it move down by one.
pub open spec fn reindex_after_delete(steps: Seq<usize>, deleted: usize) -> Seq<usize>
    decreases steps.len(),
{
    if steps.len() == 0 {
        steps
    } else {
        let rest = reindex_after_delete(steps.drop_last(), deleted);
        let x = steps.last();
        if x == deleted {
            rest
        } else if x > deleted {
            rest.push((x - 1) as usize)
        } else {
            rest.push(x)
        }
    }
}

/// An ordered list of scene indices played one after another, and the
/// position of the step now playing.
pub struct SceneChain {
    pub steps: Vec<usize>,
    pub pos: usize,
}

impl SceneChain {
    /// Append scene `scene` to the chain.
    pub fn push(&mut self, scene: usize)
        ensures
            final(self).steps@ == old(self).steps@.push(scene),
            final(self).pos == old(self).pos,
    {
        self.steps.push(scene);
    }

    /// Forget scene `deleted`, which left the library.
    pub fn on_scene_deleted(&mut self, deleted: usize)
        ensures
            final(self).steps@ == reindex_after_delete(old(self).steps@, deleted),
            final(self).pos == old(self).pos,
    {
        let mut out: Vec<usize> = Vec::new();
        let mut k: usize = 0;
        while k < self.steps.len()
            invariant
                k <= self.steps@.len(),
                self.steps@ == old(self).steps@,
                out@ == reindex_after_delete(self.steps@.take(k as int), deleted),
            decreases self.steps@.len() - k,
        {
            let x = self.steps[k];
            assert(self.steps@.take(k + 1).drop_last() =~= self.steps@.take(k as int));
            if x != deleted {
                if x > deleted {
                    out.push(x - 1);
                } else {
                    out.push(x);
                }
            }
            k += 1;
        }
        assert(self.steps@.take(self.steps@.len() as int) =~= self.steps@);
        self.steps = out;
    }

    /// Remove step `i` of the chain; a position past the end moves to the
    /// last step (or 0 for an empty chain).
    pub fn remove_step(&mut self, i: usize)
        requires
            i < old(self).steps@.len(),
        ensures
            final(self).steps@ == old(self).steps@.remove(i as int),
            final(self).pos == if old(self).pos >= final(self).steps@.len() {
                if final(self).steps@.len() == 0 {
                    0
                } else {
                    (final(self).steps@.len() - 1) as usize
                }
            } else {
                old(self).pos
            },
    {
        self.steps.remove(i);
        if self.pos >= self.steps.len() {
            self.pos = self.steps.len().saturating_sub(1);
        }
    }

    /// Move step `i` one place earlier.
    pub fn move_step_up(&mut self, i: usize)
        requires
            1 <= i < old(self).steps@.len(),
        ensures
            final(self).steps@ == old(self).steps@.update(i - 1, old(self).steps@[i as int]).update(
                i as int,
                old(self).steps@[i - 1],
            ),
            final(self).pos == old(self).pos,
    {
        let a = self.steps[i - 1];
        let b = self.steps[i];
        self.steps.set(i - 1, b);
        self.steps.set(i, a);
    }

    /// Move to the next step, wrapping at the end, and name the scene to load
    /// there when it is in the library (`None` otherwise).
    pub fn advance(&mut self, library_len: usize) -> (r: Option<usize>)
        requires
            old(self).steps@.len() > 0,
            old(self).pos < usize::MAX,
        ensures
            final(self).steps@ == old(self).steps@,
            final(self).pos == (old(self).pos + 1) % (old(self).steps@.len() as int),
            r == if final(self).steps@[final(self).pos as int] < library_len {
                Some(final(self).steps@[final(self).pos as int])
            } else {
                None::<usize>
            },
    {
        self.pos = (self.pos + 1) % self.steps.len();
        let idx = self.steps[self.pos];
        if idx < library_len {
            Some(idx)
        } else {
            None
        }
    }
}

/// After a scene is deleted, a chain that pointed into the library (of
/// `n` scenes) points into the shrunk library and never at a deleted scene.
pub proof fn lemma_reindex_stays_in_library(steps: Seq<usize>, deleted: usize, n: usize)
    requires
        deleted < n,
        forall|k: int| 0 <= k < steps.len() ==> steps[k] < n,
    ensures
        forall|k: int|
            0 <= k < reindex_after_delete(steps, deleted).len() ==> reindex_after_delete(steps, deleted)[k] < n - 1,
        reindex_after_delete(steps, deleted).len() <= steps.len(),
    decreases steps.len(),
{
    if steps.len() > 0 {
        lemma_reindex_stays_in_library(steps.drop_last(), deleted, n);
    }
}


/// Where saving a scene called `name` puts it in a library whose scenes are
/// called `names`: `Some(i)` replaces scene `i`, the first one with the same
/// name; `None` appends it (no scene has that name).
pub fn save_slot(names: &Vec<String>, name: &String) -> (r: Option<usize>)
    ensures
        match r {
            Some(i) => i < names@.len() && names@[i as int]@ == name@ && forall|j: int|
                0 <= j < i ==> #[trigger] names@[j]@ != name@,
            None => forall|j: int| 0 <= j < names@.len() ==> #[trigger] names@[j]@ != name@,
        },
        (r is None) == !names@.map_values(|s: String| s@).contains(name@),
{
    let ghost mapped = names@.map_values(|s: String| s@);
    let mut i: usize = 0;
    while i < names.len()
        invariant
            i <= names@.len(),
            mapped == names@.map_values(|s: String| s@),
            forall|j: int| 0 <= j < i ==> #[trigger] names@[j]@ != name@,
        decreases names.len() - i,
    {
        if str_equal(names[i].as_str(), name.as_str()) {
            assert(mapped[i as int] == name@);
            return Some(i);
        }
        i += 1;
    }
    assert(!mapped.contains(name@));
    None
}

/// The library's scene names after saving a scene called `name`.
pub open spec fn names_after_save(names: Seq<Seq<char>>, name: Seq<char>) -> Seq<Seq<char>> {
    if names.contains(name) {
        names
    } else {
        names.push(name)
    }
}

/// Saving keeps one scene per name: replacing the scene `save_slot` finds
/// (which has the same name) leaves the names as they were, and appending
/// happens only for a new name, so the names after a save are
/// `names_after_save`; they stay without repeats, and saving the same name
/// again adds nothing.
pub proof fn lemma_save_keeps_names_unique(names: Seq<Seq<char>>, name: Seq<char>)
    requires
        names.no_duplicates(),
    ensures
        names_after_save(names, name).no_duplicates(),
        names_after_save(names, name).contains(name),
        names_after_save(names_after_save(names, name), name) == names_after_save(names, name),
        forall|i: int| 0 <= i < names.len() && names[i] == name ==> #[trigger] names.update(i, name) == names,
{
    assert forall|i: int| 0 <= i < names.len() && names[i] == name implies #[trigger] names.update(i, name) == names by {
        assert(names.update(i, name) =~= names);
    }
    let after = names.push(name);
    if !names.contains(name) {
        assert forall|i: int, j: int| 0 <= i < j < after.len() implies after[i] != after[j] by {
            if j == names.len() {
                assert(names[i] == after[i]);
            }
        }
        assert(after[names.len() as int] == name);
    } else {
        let i = choose|i: int| 0 <= i < names.len() && names[i] == name;
        assert(names[i] == name);
    }
}

} // verus!
