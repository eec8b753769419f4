//! The synchronizer's state and its handlers: one for each command of the
//! primary, one for a peer's response and one for the retry timer. A handler
//! takes what the store or the clock said, changes the state and returns what
//! is to be sent.

use crate::digest::contains_digest;
use crate::digest::Batch;
use crate::digest::BatchDigest;
use crate::directory::departed;
use crate::directory::other_names;
use crate::directory::keys_of;
use crate::directory::rebuilt_entries;
use crate::directory::worker_name;
use crate::directory::AuthorityId;
use crate::directory::Committee;
use crate::directory::Entry;
use crate::directory::NetworkName;
use crate::directory::WorkerCache;
use crate::directory::WorkerId;
use crate::lucky::lucky_select;
use crate::lucky::picked_len;
use crate::messages::Fetch;
use crate::messages::Lookup;
use crate::messages::ReconfigureNotification;
use crate::messages::Round;
use crate::messages::StoreFailure;
use crate::messages::WorkerBatchRequest;
use crate::messages::WorkerPrimaryError;
use crate::messages::WorkerPrimaryMessage;
use crate::pending::due_digests;
use crate::pending::refreshed;
use crate::pending::retained;
use crate::pending::PendingEntry;
use crate::pending::PendingTable;
use rand::rngs::SmallRng;
use vstd::prelude::*;

verus! {

/// Where the synchronizer stands between start and stop.
#[derive(Clone, Copy, Debug, PartialEq, Eq, Structural)]
pub enum Phase {
    /// Commands are handled.
    Running,
    /// The order to stop was forwarded; its readers have not all let go yet.
    ShuttingDown,
    /// The loop has ended.
    Stopped,
}

/// The synchronizer's state as plain values.
pub struct SynchronizerView {
    /// The key of this authority.
    pub name: Seq<u8>,
    /// The id of this worker.
    pub id: WorkerId,
    /// The epoch of the committee.
    pub committee_epoch: u64,
    /// The keys of the committee's members.
    pub committee: Seq<Seq<u8>>,
    /// The epoch of the worker directory.
    pub cache_epoch: u64,
    /// The worker directory.
    pub directory: Seq<Entry>,
    /// How many rounds an outstanding request is kept.
    pub gc_depth: Round,
    /// After how many milliseconds an unanswered request is sent again.
    pub sync_retry_delay: u128,
    /// To how many peers a request is sent again.
    pub sync_retry_nodes: usize,
    /// The last round that the primary told of.
    pub round: Round,
    /// The outstanding requests.
    pub pending: Map<BatchDigest, PendingEntry>,
    /// Whether the synchronizer runs.
    pub phase: Phase,
}

/// The outstanding requests after the primary has reached `round`: those
/// made in a round later than `round - gc_depth`.
pub open spec fn collected(pending: Map<BatchDigest, PendingEntry>, round: Round, gc_depth: Round) -> Map<
    BatchDigest,
    PendingEntry,
> {
    if round < gc_depth {
        pending
    } else {
        retained(pending, (round - gc_depth) as u64)
    }
}

/// The state after a change to the committee `c`: the committee is `c`, and
/// the directory lists the members of `c`, each with the workers that were
/// known of it.
pub open spec fn with_committee(v: SynchronizerView, c: Committee) -> SynchronizerView {
    SynchronizerView {
        committee_epoch: c.spec_epoch(),
        committee: c.keys(),
        cache_epoch: c.spec_epoch(),
        directory: rebuilt_entries(v.directory, c.keys()),
        ..v
    }
}

/// The state after a notification.
pub open spec fn reconfigured(v: SynchronizerView, n: ReconfigureNotification) -> SynchronizerView {
    match n {
        ReconfigureNotification::NewEpoch(c) => SynchronizerView {
            pending: Map::empty(),
            round: 0,
            ..with_committee(v, c)
        },
        ReconfigureNotification::UpdateCommittee(c) => with_committee(v, c),
        ReconfigureNotification::Shutdown => SynchronizerView { phase: Phase::ShuttingDown, ..v },
    }
}

/// The keys of the authorities whose connections are dropped on a
/// notification: those of the directory that the new committee lacks.
pub open spec fn disconnected(v: SynchronizerView, n: ReconfigureNotification) -> Seq<Seq<u8>> {
    match n {
        ReconfigureNotification::NewEpoch(c) => departed(v.directory, c.keys()),
        ReconfigureNotification::UpdateCommittee(c) => departed(v.directory, c.keys()),
        ReconfigureNotification::Shutdown => Seq::empty(),
    }
}

/// What is to be done after a notification, besides forwarding it.
#[derive(Debug)]
pub struct Reconfigured {
    /// The authorities whose connections are dropped.
    pub disconnect: Vec<AuthorityId>,
    /// Whether the requests in flight are abandoned.
    pub drop_in_flight: bool,
    /// Whether the loop ends once the notification's readers have let go.
    pub shutdown: bool,
}

/// Tells whether a digest is not outstanding.
pub open spec fn not_pending(pending: Map<BatchDigest, PendingEntry>) -> spec_fn(
    BatchDigest,
) -> bool {
    |d: BatchDigest| !pending.contains_key(d)
}

/// The digests that a command to synchronize makes outstanding: those that
/// were not outstanding and that the store said it lacks.
pub open spec fn missing_digests(
    pending: Map<BatchDigest, PendingEntry>,
    lookups: Seq<(BatchDigest, Lookup)>,
) -> Set<BatchDigest> {
    Set::new(
        |d: BatchDigest| !pending.contains_key(d) && lookups.contains((d, Lookup::Absent)),
    )
}

/// The digests that a command to synchronize finds in the store: those that
/// were not outstanding and that the store said it holds.
pub open spec fn available_digests(
    pending: Map<BatchDigest, PendingEntry>,
    lookups: Seq<(BatchDigest, Lookup)>,
) -> Set<BatchDigest> {
    Set::new(
        |d: BatchDigest| !pending.contains_key(d) && lookups.contains((d, Lookup::Present)),
    )
}

/// The outstanding requests after a command to synchronize at `now` in round
/// `round`: what was outstanding stays as it was, and each missing digest has
/// a new entry.
pub open spec fn requested(
    pending: Map<BatchDigest, PendingEntry>,
    lookups: Seq<(BatchDigest, Lookup)>,
    round: Round,
    now: u128,
) -> Map<BatchDigest, PendingEntry> {
    Map::new(
        |d: BatchDigest| pending.contains_key(d) || missing_digests(pending, lookups).contains(d),
        |d: BatchDigest|
            if pending.contains_key(d) {
                pending[d]
            } else {
                PendingEntry { round, last_issued: now }
            },
    )
}

/// The digests for which the store gave the answer `answer` and that are not
/// outstanding: each once, in the order in which they first occur in
/// `lookups`.
pub open spec fn digests_with(
    pending: Map<BatchDigest, PendingEntry>,
    lookups: Seq<(BatchDigest, Lookup)>,
    answer: Lookup,
) -> Seq<BatchDigest>
    decreases lookups.len(),
{
    if lookups.len() == 0 {
        Seq::empty()
    } else {
        let rest = digests_with(pending, lookups.drop_last(), answer);
        let last = lookups.last();
        if last.1 == answer && !pending.contains_key(last.0) && !rest.contains(last.0) {
            rest.push(last.0)
        } else {
            rest
        }
    }
}

/// A digest is in the list of the digests with one answer exactly when it is
/// not outstanding and got that answer.
pub proof fn lemma_digests_with_member(
    pending: Map<BatchDigest, PendingEntry>,
    lookups: Seq<(BatchDigest, Lookup)>,
    answer: Lookup,
    d: BatchDigest,
)
    ensures
        digests_with(pending, lookups, answer).contains(d) == (!pending.contains_key(d)
            && lookups.contains((d, answer))),
    decreases lookups.len(),
{
    let all = digests_with(pending, lookups, answer);
    if lookups.len() > 0 {
        let shorter = lookups.drop_last();
        let rest = digests_with(pending, shorter, answer);
        let last = lookups.last();
        lemma_digests_with_member(pending, shorter, answer, d);
        lemma_digests_with_member(pending, shorter, answer, last.0);
        assert(shorter =~= lookups.take(lookups.len() - 1));
        assert(lookups.take(lookups.len() as int) =~= lookups);
        lemma_take_contains(lookups, lookups.len() - 1, (d, answer));
        lemma_pushed_contains(rest, all, last.0, d);
        assert((last == (d, answer)) == (last.0 == d && last.1 == answer));
    }
}

/// The list of the digests with one answer holds no digest twice, and holds
/// exactly the digests that are not outstanding and got that answer.
pub proof fn lemma_digests_with(
    pending: Map<BatchDigest, PendingEntry>,
    lookups: Seq<(BatchDigest, Lookup)>,
    answer: Lookup,
)
    ensures
        digests_with(pending, lookups, answer).no_duplicates(),
        answer == Lookup::Absent ==> digests_with(pending, lookups, answer).to_set()
            == missing_digests(pending, lookups),
        answer == Lookup::Present ==> digests_with(pending, lookups, answer).to_set()
            == available_digests(pending, lookups),
    decreases lookups.len(),
{
    let all = digests_with(pending, lookups, answer);
    if lookups.len() > 0 {
        lemma_digests_with(pending, lookups.drop_last(), answer);
    }
    assert forall|d: BatchDigest| #[trigger]
        all.to_set().contains(d) == (!pending.contains_key(d) && lookups.contains(
            (d, answer),
        )) by {
        lemma_digests_with_member(pending, lookups, answer, d);
    }
    if answer == Lookup::Absent {
        assert(all.to_set() =~= missing_digests(pending, lookups));
    }
    if answer == Lookup::Present {
        assert(all.to_set() =~= available_digests(pending, lookups));
    }
}

/// The replies that tell the primary that worker `id` holds the batches with
/// these digests.
pub open spec fn announcements(digests: Seq<BatchDigest>, id: WorkerId) -> Seq<
    WorkerPrimaryMessage,
> {
    Seq::new(digests.len(), |k: int| WorkerPrimaryMessage::OthersBatch(digests[k], id))
}

/// The digests that a list of such replies tells of.
pub open spec fn announced(replies: Seq<WorkerPrimaryMessage>) -> Seq<BatchDigest> {
    Seq::new(replies.len(), |k: int| replies[k]->OthersBatch_0)
}

/// What is to be sent after a command to synchronize.
#[derive(Debug)]
pub struct Synchronized {
    /// The replies to the primary, one for each digest found in the store.
    pub replies: Vec<WorkerPrimaryMessage>,
    /// The request to the target's worker, if anything is missing.
    pub fetch: Fetch,
}

/// An item is among the first `i + 1` of `s` when it is among the first `i`
/// or is the one at `i`.
pub proof fn lemma_take_contains<T>(s: Seq<T>, i: int, x: T)
    requires
        0 <= i < s.len(),
    ensures
        s.take(i + 1).contains(x) == (s.take(i).contains(x) || s[i] == x),
{
    let shorter = s.take(i);
    let longer = s.take(i + 1);
    if shorter.contains(x) {
        let k = choose|k: int| 0 <= k < shorter.len() && shorter[k] == x;
        assert(longer[k] == x);
    }
    if s[i] == x {
        assert(longer[i] == x);
    }
    if longer.contains(x) {
        let k = choose|k: int| 0 <= k < longer.len() && longer[k] == x;
        if k < i {
            assert(shorter[k] == x);
        }
    }
}

/// Sorts the digests that the store was asked for: first those that it
/// lacks, then those that it holds, each digest once in the order of
/// `lookups`, and none that is outstanding already.
pub fn classify(pending: &PendingTable, lookups: &Vec<(BatchDigest, Lookup)>) -> (out: (
    Vec<BatchDigest>,
    Vec<BatchDigest>,
))
    requires
        pending.wf(),
    ensures
        out.0@ == digests_with(pending@, lookups@, Lookup::Absent),
        out.1@ == digests_with(pending@, lookups@, Lookup::Present),
{
    let mut missing: Vec<BatchDigest> = Vec::new();
    let mut available: Vec<BatchDigest> = Vec::new();
    let mut i: usize = 0;
    while i < lookups.len()
        invariant
            i <= lookups.len(),
            pending.wf(),
            missing@ == digests_with(pending@, lookups@.take(i as int), Lookup::Absent),
            available@ == digests_with(pending@, lookups@.take(i as int), Lookup::Present),
        decreases lookups.len() - i,
    {
        let digest = lookups[i].0;
        let lookup = lookups[i].1;
        proof {
            assert(lookups@.take(i + 1).drop_last() =~= lookups@.take(i as int));
            assert(lookups@.take(i + 1).last() == lookups@[i as int]);
        }
        if !pending.contains(&digest) {
            match lookup {
                Lookup::Absent => {
                    if !contains_digest(&missing, &digest) {
                        missing.push(digest);
                    }
                },
                Lookup::Present => {
                    if !contains_digest(&available, &digest) {
                        available.push(digest);
                    }
                },
                Lookup::Failed => {},
            }
        }
        i += 1;
    }
    assert(lookups@.take(lookups@.len() as int) =~= lookups@);
    (missing, available)
}

/// What a list holds after an item was pushed to it, or after nothing was
/// done to it.
proof fn lemma_pushed_contains<T>(before: Seq<T>, after: Seq<T>, item: T, x: T)
    requires
        after == before || after == before.push(item),
    ensures
        after == before ==> after.contains(x) == before.contains(x),
        after == before.push(item) ==> after.contains(x) == (before.contains(x) || x == item),
{
    if after == before.push(item) {
        if before.contains(x) {
            let k = choose|k: int| 0 <= k < before.len() && before[k] == x;
            assert(after[k] == x);
        }
        if x == item {
            assert(after[before.len() as int] == x);
        }
    }
}

/// The replies that tell the primary that worker `id` holds the batches with
/// these digests, in their order.
pub fn announce(digests: &Vec<BatchDigest>, id: WorkerId) -> (replies: Vec<WorkerPrimaryMessage>)
    ensures
        replies@ == announcements(digests@, id),
        announced(replies@) == digests@,
{
    let mut replies: Vec<WorkerPrimaryMessage> = Vec::new();
    let mut i: usize = 0;
    while i < digests.len()
        invariant
            i <= digests.len(),
            replies@ == announcements(digests@.take(i as int), id),
        decreases digests.len() - i,
    {
        replies.push(WorkerPrimaryMessage::OthersBatch(digests[i], id));
        assert(replies@ =~= announcements(digests@.take(i + 1), id));
        i += 1;
    }
    assert(digests@.take(digests@.len() as int) =~= digests@);
    assert(announced(replies@) =~= digests@);
    replies
}

/// The digests of the batches of a response, in its order.
pub open spec fn response_keys(batches: Seq<Batch>) -> Seq<BatchDigest> {
    Seq::new(batches.len(), |i: int| batches[i].spec_digest())
}

/// Whether the batch at `i` of a response is handed on: its digest is
/// outstanding, and no batch before it has the same digest.
pub open spec fn is_delivered(
    pending: Map<BatchDigest, PendingEntry>,
    keys: Seq<BatchDigest>,
    i: int,
) -> bool {
    pending.contains_key(keys[i]) && !keys.take(i).contains(keys[i])
}

/// The batches of a response that are handed on, in the response's order.
pub open spec fn delivered(pending: Map<BatchDigest, PendingEntry>, batches: Seq<Batch>) -> Seq<
    Batch,
>
    decreases batches.len(),
{
    if batches.len() == 0 {
        Seq::empty()
    } else {
        let rest = delivered(pending, batches.drop_last());
        if is_delivered(pending, response_keys(batches), batches.len() - 1) {
            rest.push(batches.last())
        } else {
            rest
        }
    }
}

/// The outstanding requests after a response: those whose digest is not that
/// of one of its batches.
pub open spec fn answered(pending: Map<BatchDigest, PendingEntry>, batches: Seq<Batch>) -> Map<
    BatchDigest,
    PendingEntry,
> {
    pending.remove_keys(response_keys(batches).to_set())
}

/// Every batch that is handed on has a digest that was outstanding, and that
/// the response answers.
pub proof fn lemma_delivered_were_pending(
    pending: Map<BatchDigest, PendingEntry>,
    batches: Seq<Batch>,
    k: int,
)
    requires
        0 <= k < delivered(pending, batches).len(),
    ensures
        pending.contains_key(delivered(pending, batches)[k].spec_digest()),
        response_keys(batches).contains(delivered(pending, batches)[k].spec_digest()),
        !answered(pending, batches).contains_key(delivered(pending, batches)[k].spec_digest()),
    decreases batches.len(),
{
    let keys = response_keys(batches);
    let last = batches.len() - 1;
    let shorter = batches.drop_last();
    let rest = delivered(pending, shorter);
    if k < rest.len() {
        lemma_delivered_were_pending(pending, shorter, k);
        let d = rest[k].spec_digest();
        let j = choose|j: int| 0 <= j < shorter.len() && response_keys(shorter)[j] == d;
        assert(keys[j] == d);
    } else {
        assert(keys[last] == batches.last().spec_digest());
    }
}

/// What is to be sent when requests are retried: one request, to each of
/// these peers.
#[derive(Debug)]
pub struct Retry {
    /// The peers that were picked.
    pub peers: Vec<NetworkName>,
    /// The request for the batches that are due.
    pub request: WorkerBatchRequest,
}

/// Keeps a worker in step with the workers of the other authorities.
#[derive(Debug)]
pub struct Synchronizer {
    name: AuthorityId,
    id: WorkerId,
    committee: Committee,
    worker_cache: WorkerCache,
    gc_depth: Round,
    sync_retry_delay: u128,
    sync_retry_nodes: usize,
    round: Round,
    pending: PendingTable,
    phase: Phase,
}

impl View for Synchronizer {
    type V = SynchronizerView;

    closed spec fn view(&self) -> SynchronizerView {
        SynchronizerView {
            name: self.name@,
            id: self.id,
            committee_epoch: self.committee.spec_epoch(),
            committee: self.committee.keys(),
            cache_epoch: self.worker_cache.spec_epoch(),
            directory: self.worker_cache.entries(),
            gc_depth: self.gc_depth,
            sync_retry_delay: self.sync_retry_delay,
            sync_retry_nodes: self.sync_retry_nodes,
            round: self.round,
            pending: self.pending@,
            phase: self.phase,
        }
    }
}

impl Synchronizer {
    /// The committee, the directory and the table of requests are well formed.
    pub closed spec fn wf(&self) -> bool {
        &&& self.committee.wf()
        &&& self.worker_cache.wf()
        &&& self.pending.wf()
    }

    /// A synchronizer at round 0 with nothing outstanding. The delay is in
    /// milliseconds.
    pub fn new(
        name: AuthorityId,
        id: WorkerId,
        committee: Committee,
        worker_cache: WorkerCache,
        gc_depth: Round,
        sync_retry_delay: u128,
        sync_retry_nodes: usize,
    ) -> (s: Synchronizer)
        requires
            committee.wf(),
            worker_cache.wf(),
        ensures
            s.wf(),
            s@ == (SynchronizerView {
                name: name@,
                id,
                committee_epoch: committee.spec_epoch(),
                committee: committee.keys(),
                cache_epoch: worker_cache.spec_epoch(),
                directory: worker_cache.entries(),
                gc_depth,
                sync_retry_delay,
                sync_retry_nodes,
                round: 0,
                pending: Map::empty(),
                phase: Phase::Running,
            }),
    {
        Synchronizer {
            name,
            id,
            committee,
            worker_cache,
            gc_depth,
            sync_retry_delay,
            sync_retry_nodes,
            round: 0,
            pending: PendingTable::new(),
            phase: Phase::Running,
        }
    }

    /// The key of this authority.
    pub fn name(&self) -> (name: &AuthorityId)
        ensures
            name@ == self@.name,
    {
        &self.name
    }

    /// The id of this worker.
    pub fn id(&self) -> (id: WorkerId)
        ensures
            id == self@.id,
    {
        self.id
    }

    /// The committee.
    pub fn committee(&self) -> (committee: &Committee)
        requires
            self.wf(),
        ensures
            committee.wf(),
            committee.spec_epoch() == self@.committee_epoch,
            committee.keys() == self@.committee,
    {
        &self.committee
    }

    /// The worker directory.
    pub fn worker_cache(&self) -> (cache: &WorkerCache)
        requires
            self.wf(),
        ensures
            cache.wf(),
            cache.spec_epoch() == self@.cache_epoch,
            cache.entries() == self@.directory,
    {
        &self.worker_cache
    }

    /// The epoch of the committee.
    pub fn epoch(&self) -> (epoch: u64)
        ensures
            epoch == self@.committee_epoch,
    {
        self.committee.epoch()
    }

    /// How many rounds an outstanding request is kept.
    pub fn gc_depth(&self) -> (depth: Round)
        ensures
            depth == self@.gc_depth,
    {
        self.gc_depth
    }

    /// After how many milliseconds an unanswered request is sent again.
    pub fn sync_retry_delay(&self) -> (delay: u128)
        ensures
            delay == self@.sync_retry_delay,
    {
        self.sync_retry_delay
    }

    /// To how many peers a request is sent again.
    pub fn sync_retry_nodes(&self) -> (nodes: usize)
        ensures
            nodes == self@.sync_retry_nodes,
    {
        self.sync_retry_nodes
    }

    /// The last round that the primary told of.
    pub fn round(&self) -> (round: Round)
        ensures
            round == self@.round,
    {
        self.round
    }

    /// Where the synchronizer stands between start and stop.
    pub fn phase(&self) -> (phase: Phase)
        ensures
            phase == self@.phase,
    {
        self.phase
    }

    /// Whether commands are handled.
    pub fn is_running(&self) -> (r: bool)
        ensures
            r == (self@.phase == Phase::Running),
    {
        match self.phase {
            Phase::Running => true,
            _ => false,
        }
    }

    /// The number of outstanding requests.
    pub fn pending_len(&self) -> (n: usize)
        requires
            self.wf(),
        ensures
            self@.pending.dom().finite(),
            n == self@.pending.dom().len(),
    {
        self.pending.len()
    }

    /// Whether the batch with this digest is outstanding.
    pub fn is_pending(&self, digest: &BatchDigest) -> (r: bool)
        requires
            self.wf(),
        ensures
            r == self@.pending.contains_key(*digest),
    {
        self.pending.contains(digest)
    }

    /// What is remembered of the request for this digest, if it is
    /// outstanding.
    pub fn pending_entry(&self, digest: &BatchDigest) -> (r: Option<PendingEntry>)
        requires
            self.wf(),
        ensures
            r == if self@.pending.contains_key(*digest) {
                Some(self@.pending[*digest])
            } else {
                None
            },
    {
        self.pending.get(digest)
    }

    /// Those of `digests` that are not outstanding, in their order: the
    /// digests that the store is to be asked for on a command to synchronize.
    pub fn not_outstanding(&self, digests: &Vec<BatchDigest>) -> (out: Vec<BatchDigest>)
        requires
            self.wf(),
        ensures
            out@ == digests@.filter(not_pending(self@.pending)),
    {
        let mut out: Vec<BatchDigest> = Vec::new();
        let mut i: usize = 0;
        proof {
            assert(digests@.take(0) =~= Seq::<BatchDigest>::empty());
            reveal(Seq::filter);
        }
        while i < digests.len()
            invariant
                i <= digests.len(),
                self.wf(),
                out@ == digests@.take(i as int).filter(not_pending(self@.pending)),
            decreases digests.len() - i,
        {
            proof {
                assert(digests@.take(i + 1) =~= digests@.take(i as int).push(digests@[i as int]));
                digests@.take(i as int).lemma_filter_push(
                    digests@[i as int],
                    not_pending(self@.pending),
                );
            }
            if !self.pending.contains(&digests[i]) {
                out.push(digests[i]);
            }
            i += 1;
        }
        assert(digests@.take(digests@.len() as int) =~= digests@);
        out
    }

    /// The primary asks for batches. `lookups` holds what the store said of
    /// each digest that was asked for. The digests that the store holds are
    /// announced to the primary. Those that it lacks, and that are not
    /// outstanding already, become outstanding, and one request for all of them
    /// goes to the worker of `target`, if the directory knows it.
    pub fn handle_synchronize(
        &mut self,
        lookups: &Vec<(BatchDigest, Lookup)>,
        target: &AuthorityId,
        now: u128,
    ) -> (out: Synchronized)
        requires
            old(self).wf(),
        ensures
            final(self).wf(),
            final(self)@ == (SynchronizerView {
                pending: requested(old(self)@.pending, lookups@, old(self)@.round, now),
                ..old(self)@
            }),
            forall|d: BatchDigest|
                #![trigger final(self)@.pending.contains_key(d)]
                final(self)@.pending.contains_key(d) && !old(self)@.pending.contains_key(d)
                    ==> lookups@.contains((d, Lookup::Absent)),
            out.replies@ == announcements(
                digests_with(old(self)@.pending, lookups@, Lookup::Present),
                old(self)@.id,
            ),
            announced(out.replies@) == digests_with(old(self)@.pending, lookups@, Lookup::Present),
            announced(out.replies@).no_duplicates(),
            announced(out.replies@).to_set() == available_digests(old(self)@.pending, lookups@),
            match out.fetch {
                Fetch::Nothing => missing_digests(old(self)@.pending, lookups@)
                    == Set::<BatchDigest>::empty(),
                Fetch::Send(peer, request) => {
                    &&& worker_name(old(self)@.directory, target@, old(self)@.id) == Some(peer)
                    &&& request.digests@ == digests_with(
                        old(self)@.pending,
                        lookups@,
                        Lookup::Absent,
                    )
                    &&& request.digests@.len() > 0
                    &&& request.digests@.no_duplicates()
                    &&& request.digests@.to_set() == missing_digests(
                        old(self)@.pending,
                        lookups@,
                    )
                },
                Fetch::UnknownTarget(digests) => {
                    &&& worker_name(old(self)@.directory, target@, old(self)@.id) is None
                    &&& digests@ == digests_with(old(self)@.pending, lookups@, Lookup::Absent)
                    &&& digests@.len() > 0
                    &&& digests@.no_duplicates()
                    &&& digests@.to_set() == missing_digests(old(self)@.pending, lookups@)
                },
            },
    {
        let ghost start = self.pending@;
        let (missing, available) = classify(&self.pending, lookups);
        proof {
            lemma_digests_with(start, lookups@, Lookup::Absent);
            lemma_digests_with(start, lookups@, Lookup::Present);
        }
        let replies = announce(&available, self.id);
        if missing.len() == 0 {
            proof {
                assert(missing@.to_set() =~= Set::<BatchDigest>::empty());
                assert(self.pending@ =~= requested(start, lookups@, self.round, now));
            }
            return Synchronized { replies, fetch: Fetch::Nothing };
        }
        let entry = PendingEntry { round: self.round, last_issued: now };
        self.pending.insert_all(&missing, entry);
        proof {
            assert forall|d: BatchDigest| missing@.contains(d) == missing_digests(
                start,
                lookups@,
            ).contains(d) by {
                assert(missing@.to_set().contains(d) == missing@.contains(d));
            }
            assert(self.pending@ =~= requested(start, lookups@, self.round, now));
        }
        let fetch = match self.worker_cache.worker(target, self.id) {
            Some(peer) => Fetch::Send(peer, WorkerBatchRequest { digests: missing }),
            None => Fetch::UnknownTarget(missing),
        };
        Synchronized { replies, fetch }
    }

    /// A batch came from a peer: if its digest is outstanding, the request is
    /// settled and the batch is to be handed on. Returns whether it is.
    pub fn accept_batch(&mut self, batch: &Batch) -> (accepted: bool)
        requires
            old(self).wf(),
        ensures
            final(self).wf(),
            final(self)@ == (SynchronizerView {
                pending: old(self)@.pending.remove(batch.spec_digest()),
                ..old(self)@
            }),
            accepted == old(self)@.pending.contains_key(batch.spec_digest()),
            !final(self)@.pending.contains_key(batch.spec_digest()),
    {
        let digest = batch.digest();
        self.pending.remove(&digest).is_some()
    }

    /// A peer's response came: settles the outstanding requests that its
    /// batches answer, and returns the batches to hand on, in the response's
    /// order: for each outstanding digest the first batch that has it.
    pub fn handle_response(&mut self, batches: Vec<Batch>) -> (forwarded: Vec<Batch>)
        requires
            old(self).wf(),
        ensures
            final(self).wf(),
            final(self)@ == (SynchronizerView {
                pending: answered(old(self)@.pending, batches@),
                ..old(self)@
            }),
            forwarded@ == delivered(old(self)@.pending, batches@),
            forall|k: int|
                0 <= k < forwarded@.len() ==> old(self)@.pending.contains_key(
                    (#[trigger] forwarded@[k]).spec_digest(),
                ) && !final(self)@.pending.contains_key(forwarded@[k].spec_digest()),
    {
        let ghost start = self@;
        let ghost all = batches@;
        let mut forwarded: Vec<Batch> = Vec::new();
        proof {
            assert(all.take(0) =~= Seq::<Batch>::empty());
            assert(response_keys(all.take(0)).to_set() =~= Set::<BatchDigest>::empty());
            assert(self.pending@ =~= answered(start.pending, all.take(0)));
        }
        for batch in it: batches
            invariant
                it.seq() == all,
                self.wf(),
                self@ == (SynchronizerView {
                    pending: answered(start.pending, all.take(it.index())),
                    ..start
                }),
                forwarded@ == delivered(start.pending, all.take(it.index())),
        {
            let ghost i = it.index();
            let ghost before = self.pending@;
            assert(batch == all[i]);
            let accepted = self.accept_batch(&batch);
            proof {
                let done = all.take(i);
                let next = all.take(i + 1);
                let key = batch.spec_digest();
                assert(next.drop_last() =~= done);
                assert(next.last() == batch);
                assert(response_keys(next).take(i) =~= response_keys(done));
                assert(response_keys(next)[i] == key);
                assert(response_keys(done).to_set().contains(key) == response_keys(done).contains(
                    key,
                ));
                assert(accepted == is_delivered(start.pending, response_keys(next), i));
                assert(response_keys(next).to_set() =~= response_keys(done).to_set().insert(key))
                    by {
                    assert forall|d: BatchDigest|
                        response_keys(next).contains(d) == (response_keys(done).contains(d) || d
                            == key) by {
                        assert(response_keys(next).take(i + 1) =~= response_keys(next));
                        lemma_take_contains(response_keys(next), i, d);
                    }
                }
                assert(self.pending@ =~= answered(start.pending, next));
            }
            if accepted {
                forwarded.push(batch);
            }
        }
        proof {
            assert(all.take(all.len() as int) =~= all);
            assert forall|k: int| 0 <= k < forwarded@.len() implies start.pending.contains_key(
                (#[trigger] forwarded@[k]).spec_digest(),
            ) && !self@.pending.contains_key(forwarded@[k].spec_digest()) by {
                lemma_delivered_were_pending(start.pending, all, k);
            }
        }
        forwarded
    }

    /// The retry timer fired at `now`: every outstanding request that was last
    /// issued `sync_retry_delay` milliseconds ago or earlier is issued again.
    /// Its time stamp becomes `now`, and one request for all of them goes to
    /// `sync_retry_nodes` workers with this worker's id of other authorities,
    /// picked at random, or to all of them if there are no more.
    pub fn handle_timer(&mut self, now: u128, rng: &mut SmallRng) -> (out: Option<Retry>)
        requires
            old(self).wf(),
        ensures
            final(self).wf(),
            final(self)@ == (SynchronizerView {
                pending: refreshed(old(self)@.pending, now, old(self)@.sync_retry_delay),
                ..old(self)@
            }),
            match out {
                None => due_digests(old(self)@.pending, now, old(self)@.sync_retry_delay)
                    == Set::<BatchDigest>::empty(),
                Some(retry) => {
                    &&& retry.request.digests@.len() > 0
                    &&& retry.request.digests@.no_duplicates()
                    &&& retry.request.digests@.to_set() == due_digests(
                        old(self)@.pending,
                        now,
                        old(self)@.sync_retry_delay,
                    )
                    &&& retry.peers@.len() == picked_len(
                        other_names(old(self)@.directory, old(self)@.name, old(self)@.id).len(),
                        old(self)@.sync_retry_nodes as nat,
                    )
                    &&& retry.peers@.len() <= old(self)@.sync_retry_nodes
                    &&& retry.peers@.to_multiset().subset_of(
                        other_names(
                            old(self)@.directory,
                            old(self)@.name,
                            old(self)@.id,
                        ).to_multiset(),
                    )
                },
            },
    {
        let due = self.pending.refresh_due(now, self.sync_retry_delay);
        if due.len() == 0 {
            assert(due@.to_set() =~= Set::<BatchDigest>::empty());
            return None;
        }
        let names = self.worker_cache.others_workers(&self.name, self.id);
        let peers = lucky_select(names, rng, self.sync_retry_nodes);
        Some(Retry { peers, request: WorkerBatchRequest { digests: due } })
    }

    /// The primary has reached `round`: remembers it, and drops the requests
    /// made `gc_depth` rounds before it or earlier.
    pub fn handle_cleanup(&mut self, round: Round)
        requires
            old(self).wf(),
        ensures
            final(self).wf(),
            final(self)@ == (SynchronizerView {
                round,
                pending: collected(old(self)@.pending, round, old(self)@.gc_depth),
                ..old(self)@
            }),
            forall|d: BatchDigest| #[trigger]
                final(self)@.pending.contains_key(d) ==> final(self)@.pending[d].round > round
                    - old(self)@.gc_depth,
    {
        self.round = round;
        if self.round < self.gc_depth {
            return ;
        }
        let gc_round: Round = self.round - self.gc_depth;
        self.pending.retain_after(gc_round);
    }

    /// Takes a notification: changes the committee and the directory, and for
    /// a new epoch starts afresh at round 0 with nothing outstanding; or
    /// begins to shut down.
    pub fn handle_reconfigure(&mut self, notification: ReconfigureNotification) -> (out:
        Reconfigured)
        requires
            old(self).wf(),
            notification.wf(),
        ensures
            final(self).wf(),
            final(self)@ == reconfigured(old(self)@, notification),
            keys_of(out.disconnect@) == disconnected(old(self)@, notification),
            out.drop_in_flight == (notification is NewEpoch),
            out.shutdown == (notification is Shutdown),
            notification matches ReconfigureNotification::NewEpoch(c) ==> final(self)@.pending
                == Map::<BatchDigest, PendingEntry>::empty() && final(self)@.round == 0
                && final(self)@.cache_epoch == c.spec_epoch(),
    {
        match notification {
            ReconfigureNotification::NewEpoch(committee) => {
                let disconnect = self.worker_cache.network_diff(&committee);
                self.worker_cache = self.worker_cache.rebuilt(&committee);
                self.committee = committee;
                self.pending.clear();
                self.round = 0;
                Reconfigured { disconnect, drop_in_flight: true, shutdown: false }
            },
            ReconfigureNotification::UpdateCommittee(committee) => {
                let disconnect = self.worker_cache.network_diff(&committee);
                self.worker_cache = self.worker_cache.rebuilt(&committee);
                self.committee = committee;
                Reconfigured { disconnect, drop_in_flight: false, shutdown: false }
            },
            ReconfigureNotification::Shutdown => {
                self.phase = Phase::ShuttingDown;
                let disconnect: Vec<AuthorityId> = Vec::new();
                assert(keys_of(disconnect@) =~= Seq::<Seq<u8>>::empty());
                Reconfigured { disconnect, drop_in_flight: false, shutdown: true }
            },
        }
    }

    /// The readers of the order to stop have all let go: a synchronizer that
    /// is shutting down stops. In any other phase nothing changes.
    pub fn watchers_closed(&mut self)
        requires
            old(self).wf(),
        ensures
            final(self).wf(),
            final(self)@ == (SynchronizerView {
                phase: if old(self)@.phase == Phase::ShuttingDown {
                    Phase::Stopped
                } else {
                    old(self)@.phase
                },
                ..old(self)@
            }),
    {
        match self.phase {
            Phase::ShuttingDown => {
                self.phase = Phase::Stopped;
            },
            _ => {},
        }
    }

    /// The reply to a request for a batch, from what the store said: the batch
    /// if the store holds it, else that it was not found.
    pub fn handle_request_batch(
        &self,
        digest: BatchDigest,
        read: Result<Option<Batch>, StoreFailure>,
    ) -> (reply: WorkerPrimaryMessage)
        ensures
            reply == match read {
                Ok(Some(batch)) => WorkerPrimaryMessage::RequestedBatch(digest, batch),
                _ => WorkerPrimaryMessage::Error(WorkerPrimaryError::RequestedBatchNotFound(digest)),
            },
    {
        match read {
            Ok(Some(batch)) => WorkerPrimaryMessage::RequestedBatch(digest, batch),
            _ => WorkerPrimaryMessage::Error(WorkerPrimaryError::RequestedBatchNotFound(digest)),
        }
    }

    /// The reply to an order to delete batches, from what the store said.
    pub fn handle_delete_batches(
        &self,
        digests: Vec<BatchDigest>,
        removed: Result<(), StoreFailure>,
    ) -> (reply: WorkerPrimaryMessage)
        ensures
            reply == match removed {
                Ok(_) => WorkerPrimaryMessage::DeletedBatches(digests),
                Err(_) => WorkerPrimaryMessage::Error(
                    WorkerPrimaryError::ErrorWhileDeletingBatches(digests),
                ),
            },
    {
        match removed {
            Ok(_) => WorkerPrimaryMessage::DeletedBatches(digests),
            Err(_) => WorkerPrimaryMessage::Error(
                WorkerPrimaryError::ErrorWhileDeletingBatches(digests),
            ),
        }
    }
}

} // verus!
