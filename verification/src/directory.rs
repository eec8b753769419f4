//! The peer directory: the authorities of a committee, and the network name
//! under which each of them runs each of its workers.

use crate::slots::distinct_keys;
use crate::slots::has_key;
use crate::slots::key_index;
use crate::slots::lemma_push_slot;
use crate::slots::lemma_same_keys_update;
use crate::slots::lemma_slot_lookup;
use crate::slots::slots_map;
use vstd::prelude::*;

verus! {

/// Index of a worker within its authority.
pub type WorkerId = u32;

/// The public identity key of an authority, as bytes.
#[derive(Clone, Debug, PartialEq, Eq, Hash)]
pub struct AuthorityId {
    pub key: Vec<u8>,
}

impl View for AuthorityId {
    type V = Seq<u8>;

    open spec fn view(&self) -> Seq<u8> {
        self.key@
    }
}

impl AuthorityId {
    /// The identity with the given key bytes.
    pub fn new(key: Vec<u8>) -> (a: AuthorityId)
        ensures
            a@ == key@,
    {
        AuthorityId { key }
    }

    /// Bytewise equality of the keys.
    pub fn same(&self, other: &AuthorityId) -> (r: bool)
        ensures
            r == (self@ == other@),
    {
        if self.key.len() != other.key.len() {
            return false;
        }
        let mut i: usize = 0;
        while i < self.key.len()
            invariant
                i <= self.key.len(),
                self.key.len() == other.key.len(),
                forall|j: int| 0 <= j < i ==> self.key@[j] == other.key@[j],
            decreases self.key.len() - i,
        {
            if self.key[i] != other.key[i] {
                return false;
            }
            i += 1;
        }
        assert(self.key@ =~= other.key@);
        true
    }

    /// A second value with the same key bytes.
    pub fn copy(&self) -> (c: AuthorityId)
        ensures
            c@ == self@,
    {
        let mut key: Vec<u8> = Vec::new();
        let mut i: usize = 0;
        while i < self.key.len()
            invariant
                i <= self.key.len(),
                key@ == self.key@.take(i as int),
            decreases self.key.len() - i,
        {
            key.push(self.key[i]);
            assert(self.key@.take(i + 1) =~= self.key@.take(i as int).push(self.key@[i as int]));
            i += 1;
        }
        assert(self.key@.take(self.key@.len() as int) =~= self.key@);
        AuthorityId { key }
    }
}

/// The name under which a worker is reached on the network: 32 bytes,
/// compared bytewise.
#[derive(Clone, Copy, Debug, PartialEq, Eq, Hash)]
pub struct NetworkName {
    pub bytes: [u8; 32],
}

impl NetworkName {
    /// Wraps the given bytes.
    pub fn new(bytes: [u8; 32]) -> (n: NetworkName)
        ensures
            n.bytes == bytes,
    {
        NetworkName { bytes }
    }

    /// Bytewise equality: true exactly when the two names are the same value.
    pub fn same(&self, other: &NetworkName) -> (r: bool)
        ensures
            r == (*self == *other),
    {
        let mut i: usize = 0;
        while i < 32
            invariant
                i <= 32,
                forall|j: int| 0 <= j < i ==> self.bytes@[j] == other.bytes@[j],
            decreases 32 - i,
        {
            if self.bytes[i] != other.bytes[i] {
                return false;
            }
            i += 1;
        }
        assert(self.bytes =~= other.bytes);
        true
    }
}

/// The workers of one authority: at most one network name for a worker id.
#[derive(Clone, Debug)]
pub struct WorkerIndex {
    workers: Vec<(WorkerId, NetworkName)>,
}

impl View for WorkerIndex {
    type V = Map<WorkerId, NetworkName>;

    closed spec fn view(&self) -> Map<WorkerId, NetworkName> {
        slots_map(self.workers@)
    }
}

impl WorkerIndex {
    /// No worker id has two names.
    pub closed spec fn wf(&self) -> bool {
        distinct_keys(self.workers@)
    }

    /// An index without workers.
    pub fn new() -> (w: WorkerIndex)
        ensures
            w.wf(),
            w@ == Map::<WorkerId, NetworkName>::empty(),
    {
        let w = WorkerIndex { workers: Vec::new() };
        assert(w@ =~= Map::<WorkerId, NetworkName>::empty());
        w
    }

    fn position(&self, id: WorkerId) -> (r: Option<usize>)
        requires
            self.wf(),
        ensures
            match r {
                Some(i) => i < self.workers@.len() && self.workers@[i as int].0 == id
                    && self@.contains_key(id) && self@[id] == self.workers@[i as int].1,
                None => !self@.contains_key(id) && forall|i: int|
                    0 <= i < self.workers@.len() ==> self.workers@[i].0 != id,
            },
    {
        let mut i: usize = 0;
        while i < self.workers.len()
            invariant
                i <= self.workers.len(),
                self.wf(),
                forall|j: int| 0 <= j < i ==> self.workers@[j].0 != id,
            decreases self.workers.len() - i,
        {
            if self.workers[i].0 == id {
                proof {
                    lemma_slot_lookup(self.workers@, i as int);
                }
                return Some(i);
            }
            i += 1;
        }
        None
    }

    /// The network name of worker `id`, if the authority runs one.
    pub fn get(&self, id: WorkerId) -> (r: Option<NetworkName>)
        requires
            self.wf(),
        ensures
            r == if self@.contains_key(id) {
                Some(self@[id])
            } else {
                None
            },
    {
        match self.position(id) {
            Some(i) => Some(self.workers[i].1),
            None => None,
        }
    }

    /// Gives worker `id` the name `name`, in place of the one it had, if any.
    pub fn insert(&mut self, id: WorkerId, name: NetworkName)
        requires
            old(self).wf(),
        ensures
            final(self).wf(),
            final(self)@ == old(self)@.insert(id, name),
    {
        let ghost before = self.workers@;
        match self.position(id) {
            Some(i) => {
                self.workers[i] = (id, name);
                proof {
                    let after = self.workers@;
                    assert(distinct_keys(after)) by {
                        assert forall|a: int, b: int| 0 <= a < b < after.len() implies after[a].0
                            != after[b].0 by {
                            assert(before[a].0 != before[b].0);
                        }
                    }
                    lemma_same_keys_update(before, i as int, name);
                }
            },
            None => {
                self.workers.push((id, name));
                proof {
                    lemma_push_slot(before, id, name);
                }
            },
        }
    }

    /// A second index with the same workers.
    pub fn copy(&self) -> (c: WorkerIndex)
        requires
            self.wf(),
        ensures
            c.wf(),
            c@ == self@,
    {
        let mut workers: Vec<(WorkerId, NetworkName)> = Vec::new();
        let mut i: usize = 0;
        while i < self.workers.len()
            invariant
                i <= self.workers.len(),
                workers@ == self.workers@.take(i as int),
            decreases self.workers.len() - i,
        {
            workers.push(self.workers[i]);
            assert(self.workers@.take(i + 1) =~= self.workers@.take(i as int).push(
                self.workers@[i as int],
            ));
            i += 1;
        }
        assert(self.workers@.take(self.workers@.len() as int) =~= self.workers@);
        WorkerIndex { workers }
    }
}

/// The keys of a list of authorities.
pub open spec fn keys_of(authorities: Seq<AuthorityId>) -> Seq<Seq<u8>> {
    Seq::new(authorities.len(), |i: int| authorities[i]@)
}

/// The authorities of one epoch: no key occurs twice.
#[derive(Clone, Debug)]
pub struct Committee {
    epoch: u64,
    authorities: Vec<AuthorityId>,
}

impl Committee {
    /// The number of the epoch.
    pub closed spec fn spec_epoch(&self) -> u64 {
        self.epoch
    }

    /// The keys of the authorities, in the order in which they were added.
    pub closed spec fn keys(&self) -> Seq<Seq<u8>> {
        keys_of(self.authorities@)
    }

    /// No key occurs twice.
    pub closed spec fn wf(&self) -> bool {
        self.keys().no_duplicates()
    }

    /// A committee without authorities.
    pub fn new(epoch: u64) -> (c: Committee)
        ensures
            c.wf(),
            c.spec_epoch() == epoch,
            c.keys() == Seq::<Seq<u8>>::empty(),
    {
        let c = Committee { epoch, authorities: Vec::new() };
        assert(c.keys() =~= Seq::<Seq<u8>>::empty());
        c
    }

    /// The number of the epoch.
    pub fn epoch(&self) -> (e: u64)
        ensures
            e == self.spec_epoch(),
    {
        self.epoch
    }

    /// The number of authorities.
    pub fn size(&self) -> (n: usize)
        ensures
            n == self.keys().len(),
    {
        self.authorities.len()
    }

    /// The key of the authority at `i`.
    pub fn key_at(&self, i: usize) -> (a: &AuthorityId)
        requires
            i < self.keys().len(),
        ensures
            a@ == self.keys()[i as int],
    {
        &self.authorities[i]
    }

    /// Whether `authority` is a member.
    pub fn contains(&self, authority: &AuthorityId) -> (r: bool)
        ensures
            r == self.keys().contains(authority@),
    {
        let mut i: usize = 0;
        while i < self.authorities.len()
            invariant
                i <= self.authorities.len(),
                forall|j: int| 0 <= j < i ==> self.keys()[j] != authority@,
            decreases self.authorities.len() - i,
        {
            if self.authorities[i].same(authority) {
                assert(self.keys()[i as int] == authority@);
                return true;
            }
            i += 1;
        }
        false
    }

    /// Adds `authority` unless it is a member already; returns whether it was
    /// added.
    pub fn insert(&mut self, authority: AuthorityId) -> (added: bool)
        requires
            old(self).wf(),
        ensures
            final(self).wf(),
            final(self).spec_epoch() == old(self).spec_epoch(),
            added == !old(self).keys().contains(authority@),
            final(self).keys() == if added {
                old(self).keys().push(authority@)
            } else {
                old(self).keys()
            },
    {
        if self.contains(&authority) {
            return false;
        }
        let ghost before = self.keys();
        self.authorities.push(authority);
        assert(self.keys() =~= before.push(authority@));
        true
    }
}

/// One authority in the directory: its key, and the name of each of its workers.
pub type Entry = (Seq<u8>, Map<WorkerId, NetworkName>);

/// The name of worker `id` of `authority`, if the directory knows one.
pub open spec fn worker_name(entries: Seq<Entry>, authority: Seq<u8>, id: WorkerId) -> Option<
    NetworkName,
> {
    if has_key(entries, authority) && entries[key_index(entries, authority)].1.contains_key(id) {
        Some(entries[key_index(entries, authority)].1[id])
    } else {
        None
    }
}

/// Picks the name of worker `id` from the entry of an authority other than
/// `myself`.
pub open spec fn other_worker(myself: Seq<u8>, id: WorkerId) -> spec_fn(Entry) -> Option<
    NetworkName,
> {
    |e: Entry|
        if e.0 != myself && e.1.contains_key(id) {
            Some(e.1[id])
        } else {
            None
        }
}

/// The names of the workers `id` of all authorities but `myself`, in the
/// directory's order.
pub open spec fn other_names(entries: Seq<Entry>, myself: Seq<u8>, id: WorkerId) -> Seq<
    NetworkName,
> {
    entries.filter_map(other_worker(myself, id))
}

/// Picks the key of an entry whose authority is not among `keys`.
pub open spec fn left_out(keys: Seq<Seq<u8>>) -> spec_fn(Entry) -> Option<Seq<u8>> {
    |e: Entry|
        if keys.contains(e.0) {
            None
        } else {
            Some(e.0)
        }
}

/// The keys of the directory that are not among `keys`, in the directory's
/// order.
pub open spec fn departed(entries: Seq<Entry>, keys: Seq<Seq<u8>>) -> Seq<Seq<u8>> {
    entries.filter_map(left_out(keys))
}

/// The workers that the directory knows of `key`: none if it has no entry.
pub open spec fn index_of(entries: Seq<Entry>, key: Seq<u8>) -> Map<WorkerId, NetworkName> {
    if has_key(entries, key) {
        entries[key_index(entries, key)].1
    } else {
        Map::empty()
    }
}

/// The directory for the authorities `keys`: each with the workers that
/// `entries` knows of it.
pub open spec fn rebuilt_entries(entries: Seq<Entry>, keys: Seq<Seq<u8>>) -> Seq<Entry> {
    Seq::new(keys.len(), |i: int| (keys[i], index_of(entries, keys[i])))
}

/// The worker directory of one epoch: at most one entry for an authority.
#[derive(Clone, Debug)]
pub struct WorkerCache {
    epoch: u64,
    authorities: Vec<(AuthorityId, WorkerIndex)>,
}

impl WorkerCache {
    /// The number of the epoch.
    pub closed spec fn spec_epoch(&self) -> u64 {
        self.epoch
    }

    /// The entries, in the order in which they were made.
    pub closed spec fn entries(&self) -> Seq<Entry> {
        Seq::new(
            self.authorities@.len(),
            |i: int| (self.authorities@[i].0@, self.authorities@[i].1@),
        )
    }

    /// No authority has two entries, and every index is well formed.
    pub closed spec fn wf(&self) -> bool {
        &&& distinct_keys(self.entries())
        &&& forall|i: int| 0 <= i < self.authorities@.len() ==> (#[trigger] self.authorities@[i]).1.wf()
    }

    /// A directory without entries.
    pub fn new(epoch: u64) -> (c: WorkerCache)
        ensures
            c.wf(),
            c.spec_epoch() == epoch,
            c.entries() == Seq::<Entry>::empty(),
    {
        let c = WorkerCache { epoch, authorities: Vec::new() };
        assert(c.entries() =~= Seq::<Entry>::empty());
        c
    }

    /// The number of the epoch.
    pub fn epoch(&self) -> (e: u64)
        ensures
            e == self.spec_epoch(),
    {
        self.epoch
    }

    fn position(&self, authority: &AuthorityId) -> (r: Option<usize>)
        requires
            self.wf(),
        ensures
            match r {
                Some(i) => i < self.authorities@.len() && has_key(self.entries(), authority@)
                    && key_index(self.entries(), authority@) == i,
                None => !has_key(self.entries(), authority@),
            },
    {
        let mut i: usize = 0;
        while i < self.authorities.len()
            invariant
                i <= self.authorities.len(),
                self.wf(),
                forall|j: int| 0 <= j < i ==> (#[trigger] self.entries()[j]).0 != authority@,
            decreases self.authorities.len() - i,
        {
            if self.authorities[i].0.same(authority) {
                proof {
                    let e = self.entries();
                    assert(e[i as int].0 == authority@);
                    let k = key_index(e, authority@);
                    if k < i {
                        assert(e[k].0 != e[i as int].0);
                    } else if i < k {
                        assert(e[i as int].0 != e[k].0);
                    }
                }
                return Some(i);
            }
            i += 1;
        }
        None
    }

    /// Gives `authority` the workers `index`, in place of those it had, if any.
    pub fn insert(&mut self, authority: AuthorityId, index: WorkerIndex)
        requires
            old(self).wf(),
            index.wf(),
        ensures
            final(self).wf(),
            final(self).spec_epoch() == old(self).spec_epoch(),
            final(self).entries() == if has_key(old(self).entries(), authority@) {
                old(self).entries().update(
                    key_index(old(self).entries(), authority@),
                    (authority@, index@),
                )
            } else {
                old(self).entries().push((authority@, index@))
            },
    {
        let ghost before = self.entries();
        let ghost key = authority@;
        let ghost workers = index@;
        match self.position(&authority) {
            Some(i) => {
                self.authorities[i] = (authority, index);
                proof {
                    let after = self.entries();
                    assert(after =~= before.update(i as int, (key, workers)));
                    assert forall|a: int, b: int| 0 <= a < b < after.len() implies after[a].0
                        != after[b].0 by {
                        assert(before[a].0 != before[b].0);
                    }
                }
            },
            None => {
                self.authorities.push((authority, index));
                proof {
                    let after = self.entries();
                    assert(after =~= before.push((key, workers)));
                    lemma_push_slot(before, key, workers);
                }
            },
        }
    }

    /// The network name of worker `id` of `authority`, if the directory knows
    /// one.
    pub fn worker(&self, authority: &AuthorityId, id: WorkerId) -> (r: Option<NetworkName>)
        requires
            self.wf(),
        ensures
            r == worker_name(self.entries(), authority@, id),
    {
        match self.position(authority) {
            Some(i) => self.authorities[i].1.get(id),
            None => None,
        }
    }

    /// The network names of the workers `id` of all authorities but `myself`.
    pub fn others_workers(&self, myself: &AuthorityId, id: WorkerId) -> (names: Vec<NetworkName>)
        requires
            self.wf(),
        ensures
            names@ == other_names(self.entries(), myself@, id),
    {
        let mut names: Vec<NetworkName> = Vec::new();
        let mut i: usize = 0;
        assert(self.entries().take(0) =~= Seq::<Entry>::empty());
        while i < self.authorities.len()
            invariant
                i <= self.authorities.len(),
                self.wf(),
                names@ == other_names(self.entries().take(i as int), myself@, id),
            decreases self.authorities.len() - i,
        {
            proof {
                self.entries().lemma_filter_map_take_succ(other_worker(myself@, id), i as int);
            }
            if !self.authorities[i].0.same(myself) {
                match self.authorities[i].1.get(id) {
                    Some(name) => {
                        names.push(name);
                    },
                    None => {},
                }
            }
            i += 1;
        }
        assert(self.entries().take(self.entries().len() as int) =~= self.entries());
        names
    }

    /// The authorities of the directory that are not members of `committee`.
    pub fn network_diff(&self, committee: &Committee) -> (gone: Vec<AuthorityId>)
        requires
            self.wf(),
        ensures
            keys_of(gone@) == departed(self.entries(), committee.keys()),
    {
        let mut gone: Vec<AuthorityId> = Vec::new();
        let mut i: usize = 0;
        assert(self.entries().take(0) =~= Seq::<Entry>::empty());
        assert(keys_of(gone@) =~= Seq::<Seq<u8>>::empty());
        while i < self.authorities.len()
            invariant
                i <= self.authorities.len(),
                self.wf(),
                keys_of(gone@) == departed(self.entries().take(i as int), committee.keys()),
            decreases self.authorities.len() - i,
        {
            proof {
                self.entries().lemma_filter_map_take_succ(left_out(committee.keys()), i as int);
            }
            if !committee.contains(&self.authorities[i].0) {
                let ghost before = keys_of(gone@);
                let key = self.authorities[i].0.copy();
                gone.push(key);
                assert(keys_of(gone@) =~= before + seq![self.entries()[i as int].0]);
            }
            i += 1;
        }
        assert(self.entries().take(self.entries().len() as int) =~= self.entries());
        gone
    }

    /// The directory of `committee`: its epoch and its authorities, each with
    /// the workers that this directory knows of it, or none.
    pub fn rebuilt(&self, committee: &Committee) -> (next: WorkerCache)
        requires
            self.wf(),
            committee.wf(),
        ensures
            next.wf(),
            next.spec_epoch() == committee.spec_epoch(),
            next.entries() == rebuilt_entries(self.entries(), committee.keys()),
    {
        let mut authorities: Vec<(AuthorityId, WorkerIndex)> = Vec::new();
        let mut i: usize = 0;
        while i < committee.size()
            invariant
                i <= committee.keys().len(),
                self.wf(),
                authorities@.len() == i,
                forall|j: int|
                    0 <= j < i ==> (#[trigger] authorities@[j]).0@ == committee.keys()[j]
                        && authorities@[j].1@ == index_of(self.entries(), committee.keys()[j])
                        && authorities@[j].1.wf(),
            decreases committee.keys().len() - i,
        {
            let key = committee.key_at(i);
            let index = match self.position(key) {
                Some(k) => self.authorities[k].1.copy(),
                None => WorkerIndex::new(),
            };
            authorities.push((key.copy(), index));
            i += 1;
        }
        let next = WorkerCache { epoch: committee.epoch(), authorities };
        proof {
            let e = next.entries();
            assert(e =~= rebuilt_entries(self.entries(), committee.keys()));
            assert forall|a: int, b: int| 0 <= a < b < e.len() implies e[a].0 != e[b].0 by {
                assert(committee.keys()[a] != committee.keys()[b]);
            }
        }
        next
    }
}

} // verus!
