use batch_synchronizer::digest::Batch;
use batch_synchronizer::digest::BatchDigest;
use batch_synchronizer::directory::AuthorityId;
use batch_synchronizer::directory::Committee;
use batch_synchronizer::directory::NetworkName;
use batch_synchronizer::directory::WorkerCache;
use batch_synchronizer::directory::WorkerIndex;
use batch_synchronizer::messages::Fetch;
use batch_synchronizer::messages::Lookup;
use batch_synchronizer::messages::ReconfigureNotification;
use batch_synchronizer::messages::WorkerBatchRequest;
use batch_synchronizer::messages::WorkerPrimaryMessage;
use batch_synchronizer::pending::PendingEntry;
use batch_synchronizer::synchronizer::Phase;
use batch_synchronizer::synchronizer::Synchronizer;
use rand::rngs::SmallRng;
use rand::SeedableRng;

const WORKER: u32 = 0;
const GC_DEPTH: u64 = 50;
const RETRY_DELAY: u128 = 5_000;
const RETRY_NODES: usize = 2;

fn authority(tag: u8) -> AuthorityId {
    AuthorityId::new(vec![tag; 4])
}

fn name(tag: u8) -> NetworkName {
    NetworkName::new([tag; 32])
}

fn committee(epoch: u64, tags: &[u8]) -> Committee {
    let mut committee = Committee::new(epoch);
    for tag in tags {
        committee.insert(authority(*tag));
    }
    committee
}

fn cache(epoch: u64, tags: &[u8]) -> WorkerCache {
    let mut cache = WorkerCache::new(epoch);
    for tag in tags {
        let mut index = WorkerIndex::new();
        index.insert(WORKER, name(*tag));
        cache.insert(authority(*tag), index);
    }
    cache
}

fn synchronizer() -> Synchronizer {
    Synchronizer::new(
        authority(1),
        WORKER,
        committee(0, &[1, 2, 3, 4]),
        cache(0, &[1, 2, 3, 4]),
        GC_DEPTH,
        RETRY_DELAY,
        RETRY_NODES,
    )
}

fn batch(tag: u8) -> Batch {
    Batch::new(vec![vec![tag; 8], vec![tag, tag]])
}

#[test]
fn cold_fetch() {
    let mut sync = synchronizer();
    let wanted = batch(1);
    let d = wanted.digest();
    let out = sync.handle_synchronize(&vec![(d, Lookup::Absent)], &authority(2), 1_000);
    assert_eq!(out.replies, vec![]);
    assert_eq!(out.fetch, Fetch::Send(name(2), WorkerBatchRequest { digests: vec![d] }));
    assert_eq!(sync.pending_entry(&d), Some(PendingEntry { round: 0, last_issued: 1_000 }));
    assert_eq!(sync.pending_len(), 1);

    let forwarded = sync.handle_response(vec![wanted.clone()]);
    assert_eq!(forwarded, vec![wanted]);
    assert!(!sync.is_pending(&d));
    assert_eq!(sync.pending_len(), 0);
}

#[test]
fn warm_fetch() {
    let mut sync = synchronizer();
    let d = batch(1).digest();
    let out = sync.handle_synchronize(&vec![(d, Lookup::Present)], &authority(2), 1_000);
    assert_eq!(out.replies, vec![WorkerPrimaryMessage::OthersBatch(d, WORKER)]);
    assert_eq!(out.fetch, Fetch::Nothing);
    assert_eq!(sync.pending_len(), 0);
}

#[test]
fn escalation() {
    let mut sync = synchronizer();
    let mut rng = SmallRng::seed_from_u64(11);
    let d = batch(1).digest();
    sync.handle_synchronize(&vec![(d, Lookup::Absent)], &authority(2), 1_000);

    assert!(sync.handle_timer(1_000 + RETRY_DELAY - 1, &mut rng).is_none());
    assert_eq!(sync.pending_entry(&d), Some(PendingEntry { round: 0, last_issued: 1_000 }));

    let now = 1_000 + RETRY_DELAY + 1;
    let retry = sync.handle_timer(now, &mut rng).expect("the request is due");
    assert_eq!(retry.request, WorkerBatchRequest { digests: vec![d] });
    assert_eq!(retry.peers.len(), RETRY_NODES);
    assert_ne!(retry.peers[0], retry.peers[1]);
    for peer in &retry.peers {
        assert!([name(2), name(3), name(4)].contains(peer));
    }
    assert_eq!(sync.pending_entry(&d), Some(PendingEntry { round: 0, last_issued: now }));
}

#[test]
fn escalation_with_few_other_workers() {
    let mut sync = Synchronizer::new(
        authority(1),
        WORKER,
        committee(0, &[1, 2]),
        cache(0, &[1, 2]),
        GC_DEPTH,
        RETRY_DELAY,
        5,
    );
    let mut rng = SmallRng::seed_from_u64(11);
    let d = batch(1).digest();
    sync.handle_synchronize(&vec![(d, Lookup::Absent)], &authority(2), 0);
    let retry = sync.handle_timer(RETRY_DELAY, &mut rng).expect("the request is due");
    assert_eq!(retry.peers, vec![name(2)]);
    assert_eq!(retry.request.digests, vec![d]);
}

#[test]
fn gc() {
    let mut sync = synchronizer();
    let d1 = BatchDigest::new([1; 32]);
    let d2 = BatchDigest::new([2; 32]);
    sync.handle_cleanup(40);
    sync.handle_synchronize(&vec![(d1, Lookup::Absent)], &authority(2), 1);
    sync.handle_cleanup(60);
    sync.handle_synchronize(&vec![(d2, Lookup::Absent)], &authority(2), 2);
    assert_eq!(sync.pending_len(), 2);

    sync.handle_cleanup(100);
    assert_eq!(sync.round(), 100);
    assert_eq!(sync.pending_len(), 1);
    assert!(!sync.is_pending(&d1));
    assert_eq!(sync.pending_entry(&d2), Some(PendingEntry { round: 60, last_issued: 2 }));
}

#[test]
fn epoch_change() {
    let mut sync = synchronizer();
    let d = batch(1).digest();
    sync.handle_cleanup(17);
    sync.handle_synchronize(&vec![(d, Lookup::Absent)], &authority(2), 1_000);
    assert_eq!(sync.round(), 17);
    assert!(sync.is_pending(&d));

    let out = sync.handle_reconfigure(ReconfigureNotification::NewEpoch(committee(1, &[1, 3, 5])));
    assert_eq!(out.disconnect, vec![authority(2), authority(4)]);
    assert!(out.drop_in_flight);
    assert!(!out.shutdown);
    assert_eq!(sync.pending_len(), 0);
    assert_eq!(sync.round(), 0);
    assert_eq!(sync.epoch(), 1);
    assert_eq!(sync.worker_cache().epoch(), 1);
    assert_eq!(sync.worker_cache().worker(&authority(3), WORKER), Some(name(3)));
    assert_eq!(sync.worker_cache().worker(&authority(2), WORKER), None);
    assert_eq!(sync.worker_cache().worker(&authority(5), WORKER), None);
    assert!(sync.committee().contains(&authority(5)));
    assert!(!sync.committee().contains(&authority(2)));
    assert_eq!(sync.phase(), Phase::Running);
}

#[test]
fn shutdown() {
    let mut sync = synchronizer();
    assert!(sync.is_running());
    sync.watchers_closed();
    assert_eq!(sync.phase(), Phase::Running);

    let out = sync.handle_reconfigure(ReconfigureNotification::Shutdown);
    assert!(out.shutdown);
    assert!(!out.drop_in_flight);
    assert_eq!(out.disconnect, vec![]);
    assert_eq!(sync.phase(), Phase::ShuttingDown);
    assert!(!sync.is_running());

    sync.watchers_closed();
    assert_eq!(sync.phase(), Phase::Stopped);
    assert!(!sync.is_running());
    sync.watchers_closed();
    assert_eq!(sync.phase(), Phase::Stopped);
}
