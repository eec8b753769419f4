//! The table of outstanding fetch requests, keyed by batch digest.

use crate::digest::BatchDigest;
use crate::slots::distinct_keys;
use crate::slots::key_index;
use crate::slots::has_key;
use crate::slots::lemma_push_slot;
use crate::slots::lemma_remove_slot;
use crate::slots::lemma_same_keys_update;
use crate::slots::lemma_slot_lookup;
use crate::slots::lemma_slots_finite;
use crate::slots::slots_map;
use vstd::prelude::*;

verus! {

/// What is remembered of one outstanding request.
#[derive(Clone, Copy, Debug, PartialEq, Eq, Structural)]
pub struct PendingEntry {
    /// The round in which the request was first made.
    pub round: u64,
    /// Milliseconds since the epoch at which the request was last issued.
    pub last_issued: u128,
}

/// True when a request last issued at `entry.last_issued` is due again at `now`.
pub open spec fn is_due(entry: PendingEntry, now: u128, delay: u128) -> bool {
    entry.last_issued + delay <= now
}

/// The entries of `m` that outlive a collection up to round `gc_round`.
pub open spec fn retained(m: Map<BatchDigest, PendingEntry>, gc_round: u64) -> Map<
    BatchDigest,
    PendingEntry,
> {
    Map::new(|d: BatchDigest| m.contains_key(d) && m[d].round > gc_round, |d: BatchDigest| m[d])
}

/// `m` with the time stamp of every due entry set to `now`.
pub open spec fn refreshed(m: Map<BatchDigest, PendingEntry>, now: u128, delay: u128) -> Map<
    BatchDigest,
    PendingEntry,
> {
    Map::new(
        |d: BatchDigest| m.contains_key(d),
        |d: BatchDigest| touched(m[d], now, delay),
    )
}

/// `m` with `entry` for each of `digests`, in place of what it had.
pub open spec fn with_entries(
    m: Map<BatchDigest, PendingEntry>,
    digests: Seq<BatchDigest>,
    entry: PendingEntry,
) -> Map<BatchDigest, PendingEntry> {
    Map::new(
        |d: BatchDigest| m.contains_key(d) || digests.contains(d),
        |d: BatchDigest|
            if digests.contains(d) {
                entry
            } else {
                m[d]
            },
    )
}

/// The entry after a tick at `now`: its time stamp is `now` if it was due.
pub open spec fn touched(entry: PendingEntry, now: u128, delay: u128) -> PendingEntry {
    if is_due(entry, now, delay) {
        PendingEntry { round: entry.round, last_issued: now }
    } else {
        entry
    }
}

/// The digests of the entries of `m` that are due at `now`.
pub open spec fn due_digests(m: Map<BatchDigest, PendingEntry>, now: u128, delay: u128) -> Set<
    BatchDigest,
> {
    Set::new(|d: BatchDigest| m.contains_key(d) && is_due(m[d], now, delay))
}

/// The outstanding requests: at most one entry for a digest.
#[derive(Debug)]
pub struct PendingTable {
    slots: Vec<(BatchDigest, PendingEntry)>,
}

impl View for PendingTable {
    type V = Map<BatchDigest, PendingEntry>;

    closed spec fn view(&self) -> Map<BatchDigest, PendingEntry> {
        slots_map(self.slots@)
    }
}

impl PendingTable {
    /// No digest has two entries.
    pub closed spec fn wf(&self) -> bool {
        distinct_keys(self.slots@)
    }

    /// An empty table.
    pub fn new() -> (t: PendingTable)
        ensures
            t.wf(),
            t@ == Map::<BatchDigest, PendingEntry>::empty(),
    {
        let t = PendingTable { slots: Vec::new() };
        assert(t@ =~= Map::<BatchDigest, PendingEntry>::empty());
        t
    }

    /// The number of entries.
    pub fn len(&self) -> (n: usize)
        requires
            self.wf(),
        ensures
            self@.dom().finite(),
            n == self@.dom().len(),
    {
        proof {
            lemma_slots_finite(self.slots@);
        }
        self.slots.len()
    }

    /// Whether the table has no entry.
    pub fn is_empty(&self) -> (r: bool)
        requires
            self.wf(),
        ensures
            r == (self@ == Map::<BatchDigest, PendingEntry>::empty()),
    {
        proof {
            if self.slots@.len() == 0 {
                assert(self@ =~= Map::<BatchDigest, PendingEntry>::empty());
            } else {
                lemma_slot_lookup(self.slots@, 0);
            }
        }
        self.slots.len() == 0
    }

    fn position(&self, digest: &BatchDigest) -> (r: Option<usize>)
        requires
            self.wf(),
        ensures
            match r {
                Some(i) => i < self.slots@.len() && self.slots@[i as int].0 == *digest
                    && self@.contains_key(*digest) && self@[*digest] == self.slots@[i as int].1,
                None => !self@.contains_key(*digest) && forall|i: int|
                    0 <= i < self.slots@.len() ==> self.slots@[i].0 != *digest,
            },
    {
        let mut i: usize = 0;
        while i < self.slots.len()
            invariant
                i <= self.slots.len(),
                self.wf(),
                forall|j: int| 0 <= j < i ==> self.slots@[j].0 != *digest,
            decreases self.slots.len() - i,
        {
            if self.slots[i].0.same(digest) {
                proof {
                    lemma_slot_lookup(self.slots@, i as int);
                }
                return Some(i);
            }
            i += 1;
        }
        None
    }

    /// Whether `digest` has an entry.
    pub fn contains(&self, digest: &BatchDigest) -> (r: bool)
        requires
            self.wf(),
        ensures
            r == self@.contains_key(*digest),
    {
        self.position(digest).is_some()
    }

    /// The entry of `digest`, if it has one.
    pub fn get(&self, digest: &BatchDigest) -> (r: Option<PendingEntry>)
        requires
            self.wf(),
        ensures
            r == if self@.contains_key(*digest) {
                Some(self@[*digest])
            } else {
                None
            },
    {
        match self.position(digest) {
            Some(i) => Some(self.slots[i].1),
            None => None,
        }
    }

    /// Gives `digest` the entry `entry`, in place of the one it had, if any.
    pub fn insert(&mut self, digest: BatchDigest, entry: PendingEntry)
        requires
            old(self).wf(),
        ensures
            final(self).wf(),
            final(self)@ == old(self)@.insert(digest, entry),
    {
        let ghost before = self.slots@;
        match self.position(&digest) {
            Some(i) => {
                self.slots[i] = (digest, entry);
                proof {
                    let after = self.slots@;
                    assert(distinct_keys(after)) by {
                        assert forall|a: int, b: int| 0 <= a < b < after.len() implies after[a].0
                            != after[b].0 by {
                            assert(before[a].0 != before[b].0);
                        }
                    }
                    lemma_same_keys_update(before, i as int, entry);
                }
            },
            None => {
                self.slots.push((digest, entry));
                proof {
                    lemma_push_slot(before, digest, entry);
                }
            },
        }
    }

    /// Removes the entry of `digest` and returns it, if there was one.
    pub fn remove(&mut self, digest: &BatchDigest) -> (r: Option<PendingEntry>)
        requires
            old(self).wf(),
        ensures
            final(self).wf(),
            final(self)@ == old(self)@.remove(*digest),
            r == if old(self)@.contains_key(*digest) {
                Some(old(self)@[*digest])
            } else {
                None
            },
    {
        let ghost before = self.slots@;
        match self.position(digest) {
            Some(i) => {
                let slot = self.slots.remove(i);
                proof {
                    lemma_remove_slot(before, i as int);
                }
                Some(slot.1)
            },
            None => {
                assert(self@ =~= self@.remove(*digest));
                None
            },
        }
    }

    /// Removes every entry.
    pub fn clear(&mut self)
        ensures
            final(self).wf(),
            final(self)@ == Map::<BatchDigest, PendingEntry>::empty(),
    {
        self.slots.clear();
        assert(self@ =~= Map::<BatchDigest, PendingEntry>::empty());
    }

    /// Drops every entry whose round is `gc_round` or earlier.
    pub fn retain_after(&mut self, gc_round: u64)
        requires
            old(self).wf(),
        ensures
            final(self).wf(),
            final(self)@ == retained(old(self)@, gc_round),
    {
        let ghost start = self@;
        let mut i: usize = 0;
        while i < self.slots.len()
            invariant
                i <= self.slots.len(),
                distinct_keys(self.slots@),
                forall|j: int| 0 <= j < i ==> (#[trigger] self.slots@[j]).1.round > gc_round,
                forall|d: BatchDigest|
                    #![trigger self@.contains_key(d)]
                    self@.contains_key(d) ==> start.contains_key(d) && self@[d] == start[d],
                forall|d: BatchDigest|
                    #![trigger start.contains_key(d)]
                    start.contains_key(d) && start[d].round > gc_round ==> self@.contains_key(d),
            decreases self.slots.len() - i,
        {
            let ghost before = self.slots@;
            let ghost current = self@;
            proof {
                lemma_slot_lookup(before, i as int);
            }
            if self.slots[i].1.round > gc_round {
                i += 1;
            } else {
                self.slots.remove(i);
                proof {
                    lemma_remove_slot(before, i as int);
                    assert(self@ == current.remove(before[i as int].0));
                    assert forall|d: BatchDigest| #[trigger]
                        self@.contains_key(d) implies start.contains_key(d) && self@[d]
                        == start[d] by {
                        assert(current.contains_key(d));
                    }
                }
            }
        }
        proof {
            let after = self.slots@;
            assert forall|d: BatchDigest| #[trigger]
                self@.contains_key(d) implies start[d].round > gc_round by {
                let k = key_index(after, d);
                lemma_slot_lookup(after, k);
            }
            assert(self@ =~= retained(start, gc_round));
        }
    }

    /// Gives each of `digests` the entry `entry`, in place of the one it had,
    /// if any.
    pub fn insert_all(&mut self, digests: &Vec<BatchDigest>, entry: PendingEntry)
        requires
            old(self).wf(),
        ensures
            final(self).wf(),
            final(self)@ == with_entries(old(self)@, digests@, entry),
    {
        let ghost start = self@;
        let mut i: usize = 0;
        assert(self@ =~= with_entries(start, digests@.take(0), entry));
        while i < digests.len()
            invariant
                i <= digests.len(),
                self.wf(),
                self@ == with_entries(start, digests@.take(i as int), entry),
            decreases digests.len() - i,
        {
            let ghost current = self@;
            self.insert(digests[i], entry);
            proof {
                let done = digests@.take(i as int);
                let next = digests@.take(i + 1);
                assert(next =~= done.push(digests@[i as int]));
                assert forall|d: BatchDigest| next.contains(d) == (done.contains(d) || d
                    == digests@[i as int]) by {
                    if done.contains(d) {
                        let k = choose|k: int| 0 <= k < done.len() && done[k] == d;
                        assert(next[k] == d);
                    }
                    if d == digests@[i as int] {
                        assert(next[i as int] == d);
                    }
                }
                assert(self@ =~= with_entries(start, next, entry));
            }
            i += 1;
        }
        assert(digests@.take(digests@.len() as int) =~= digests@);
    }

    /// Finds the entries that are due at `now`, sets their time stamp to `now`
    /// and returns their digests, each once.
    pub fn refresh_due(&mut self, now: u128, delay: u128) -> (due: Vec<BatchDigest>)
        requires
            old(self).wf(),
        ensures
            final(self).wf(),
            final(self)@ == refreshed(old(self)@, now, delay),
            due@.no_duplicates(),
            due@.to_set() == due_digests(old(self)@, now, delay),
    {
        let ghost start = self.slots@;
        let mut due: Vec<BatchDigest> = Vec::new();
        let ghost mut source: Seq<int> = Seq::empty();
        let mut i: usize = 0;
        while i < self.slots.len()
            invariant
                i <= self.slots.len(),
                distinct_keys(start),
                self.slots@.len() == start.len(),
                forall|j: int| 0 <= j < start.len() ==> (#[trigger] self.slots@[j]).0 == start[j].0,
                forall|j: int| i <= j < start.len() ==> #[trigger] self.slots@[j] == start[j],
                forall|j: int|
                    0 <= j < i ==> (#[trigger] self.slots@[j]).1 == touched(start[j].1, now, delay),
                source.len() == due@.len(),
                forall|k: int|
                    0 <= k < source.len() ==> 0 <= #[trigger] source[k] < i && due@[k]
                        == start[source[k]].0 && is_due(start[source[k]].1, now, delay),
                forall|a: int, b: int| 0 <= a < b < source.len() ==> source[a] < source[b],
                forall|j: int|
                    0 <= j < i && is_due((#[trigger] start[j]).1, now, delay) ==> due@.contains(
                        start[j].0,
                    ),
            decreases self.slots.len() - i,
        {
            let slot = self.slots[i];
            if now >= slot.1.last_issued && now - slot.1.last_issued >= delay {
                let ghost prev = due@;
                due.push(slot.0);
                self.slots[i] = (slot.0, PendingEntry { round: slot.1.round, last_issued: now });
                proof {
                    source = source.push(i as int);
                    assert forall|j: int|
                        0 <= j < i + 1 && is_due((#[trigger] start[j]).1, now, delay) implies due@.contains(
                        start[j].0,
                    ) by {
                        if j == i {
                            assert(due@[prev.len() as int] == start[j].0);
                        } else {
                            let k = choose|k: int| 0 <= k < prev.len() && prev[k] == start[j].0;
                            assert(due@[k] == start[j].0);
                        }
                    }
                }
            }
            i += 1;
        }
        proof {
            let after = self.slots@;
            assert(distinct_keys(after)) by {
                assert forall|a: int, b: int| 0 <= a < b < after.len() implies after[a].0
                    != after[b].0 by {
                    assert(start[a].0 != start[b].0);
                }
            }
            assert forall|a: int, b: int| 0 <= a < b < due@.len() implies due@[a] != due@[b] by {
                assert(source[a] < source[b]);
                assert(start[source[a]].0 != start[source[b]].0);
            }
            assert forall|d: BatchDigest| has_key(after, d) == has_key(start, d) by {
                if has_key(after, d) {
                    let k = key_index(after, d);
                    assert(start[k].0 == d);
                }
                if has_key(start, d) {
                    let k = key_index(start, d);
                    assert(after[k].0 == d);
                }
            }
            assert forall|d: BatchDigest| has_key(after, d) implies #[trigger] slots_map(after)[d]
                == refreshed(slots_map(start), now, delay)[d] by {
                let k = key_index(after, d);
                lemma_slot_lookup(after, k);
                lemma_slot_lookup(start, k);
            }
            assert(slots_map(after) =~= refreshed(slots_map(start), now, delay));
            assert forall|d: BatchDigest|
                due@.to_set().contains(d) == due_digests(slots_map(start), now, delay).contains(
                    d,
                ) by {
                if due@.to_set().contains(d) {
                    let k = choose|k: int| 0 <= k < due@.len() && due@[k] == d;
                    lemma_slot_lookup(start, source[k]);
                }
                if due_digests(slots_map(start), now, delay).contains(d) {
                    let j = key_index(start, d);
                    lemma_slot_lookup(start, j);
                    assert(is_due(start[j].1, now, delay));
                    assert(due@.contains(start[j].0));
                }
            }
            assert(due@.to_set() =~= due_digests(slots_map(start), now, delay));
        }
        due
    }
}

} // verus!
