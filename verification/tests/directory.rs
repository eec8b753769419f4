use batch_synchronizer::directory::AuthorityId;
use batch_synchronizer::directory::Committee;
use batch_synchronizer::directory::NetworkName;
use batch_synchronizer::directory::WorkerCache;
use batch_synchronizer::directory::WorkerIndex;

fn authority(tag: u8) -> AuthorityId {
    AuthorityId::new(vec![tag; 4])
}

fn name(tag: u8) -> NetworkName {
    NetworkName::new([tag; 32])
}

fn index(workers: &[(u32, u8)]) -> WorkerIndex {
    let mut index = WorkerIndex::new();
    for (id, tag) in workers {
        index.insert(*id, name(*tag));
    }
    index
}

fn cache() -> WorkerCache {
    let mut cache = WorkerCache::new(1);
    cache.insert(authority(1), index(&[(0, 10), (1, 11)]));
    cache.insert(authority(2), index(&[(0, 20)]));
    cache.insert(authority(3), index(&[(0, 30), (1, 31)]));
    cache
}

fn committee(epoch: u64, tags: &[u8]) -> Committee {
    let mut committee = Committee::new(epoch);
    for tag in tags {
        committee.insert(authority(*tag));
    }
    committee
}

#[test]
fn authority_same_and_copy() {
    let a = AuthorityId::new(vec![1, 2, 3]);
    assert!(a.same(&a.copy()));
    assert_eq!(a.copy(), a);
    assert!(!a.same(&AuthorityId::new(vec![1, 2])));
    assert!(!a.same(&AuthorityId::new(vec![1, 2, 4])));
    assert!(AuthorityId::new(vec![]).same(&AuthorityId::new(vec![])));
}

#[test]
fn network_name_same() {
    let mut bytes = [5u8; 32];
    let a = NetworkName::new(bytes);
    bytes[0] = 6;
    assert!(a.same(&name(5)));
    assert!(!a.same(&NetworkName::new(bytes)));
}

#[test]
fn worker_index_insert_and_get() {
    let mut index = WorkerIndex::new();
    assert_eq!(index.get(0), None);
    index.insert(0, name(1));
    index.insert(2, name(2));
    index.insert(0, name(3));
    assert_eq!(index.get(0), Some(name(3)));
    assert_eq!(index.get(2), Some(name(2)));
    assert_eq!(index.get(1), None);
    let copy = index.copy();
    assert_eq!(copy.get(0), Some(name(3)));
    assert_eq!(copy.get(2), Some(name(2)));
}

#[test]
fn committee_is_a_set() {
    let mut c = Committee::new(4);
    assert_eq!(c.epoch(), 4);
    assert!(c.insert(authority(1)));
    assert!(c.insert(authority(2)));
    assert!(!c.insert(authority(1)));
    assert_eq!(c.size(), 2);
    assert!(c.contains(&authority(2)));
    assert!(!c.contains(&authority(3)));
    assert_eq!(*c.key_at(1), authority(2));
}

#[test]
fn worker_lookup() {
    let cache = cache();
    assert_eq!(cache.epoch(), 1);
    assert_eq!(cache.worker(&authority(1), 1), Some(name(11)));
    assert_eq!(cache.worker(&authority(2), 0), Some(name(20)));
    assert_eq!(cache.worker(&authority(2), 1), None);
    assert_eq!(cache.worker(&authority(9), 0), None);
}

#[test]
fn cache_insert_replaces_an_authority() {
    let mut cache = cache();
    cache.insert(authority(2), index(&[(1, 21)]));
    assert_eq!(cache.worker(&authority(2), 0), None);
    assert_eq!(cache.worker(&authority(2), 1), Some(name(21)));
    assert_eq!(cache.others_workers(&authority(9), 1), vec![name(11), name(21), name(31)]);
}

#[test]
fn others_workers_leaves_out_myself_and_those_without_the_worker() {
    let cache = cache();
    assert_eq!(cache.others_workers(&authority(1), 0), vec![name(20), name(30)]);
    assert_eq!(cache.others_workers(&authority(1), 1), vec![name(31)]);
    assert_eq!(cache.others_workers(&authority(3), 1), vec![name(11)]);
    assert_eq!(cache.others_workers(&authority(9), 0), vec![name(10), name(20), name(30)]);
    assert_eq!(cache.others_workers(&authority(1), 7), vec![]);
}

#[test]
fn network_diff_is_what_the_committee_lacks() {
    let cache = cache();
    assert_eq!(cache.network_diff(&committee(2, &[1, 2, 3])), vec![]);
    assert_eq!(cache.network_diff(&committee(2, &[3, 4])), vec![authority(1), authority(2)]);
    assert_eq!(
        cache.network_diff(&committee(2, &[])),
        vec![authority(1), authority(2), authority(3)]
    );
}

#[test]
fn rebuilt_keeps_known_workers_and_starts_others_empty() {
    let cache = cache();
    let next = cache.rebuilt(&committee(2, &[3, 4, 1]));
    assert_eq!(next.epoch(), 2);
    assert_eq!(next.worker(&authority(3), 1), Some(name(31)));
    assert_eq!(next.worker(&authority(1), 0), Some(name(10)));
    assert_eq!(next.worker(&authority(2), 0), None);
    assert_eq!(next.worker(&authority(4), 0), None);
    assert_eq!(next.others_workers(&authority(9), 0), vec![name(30), name(10)]);
    assert_eq!(next.network_diff(&committee(3, &[])), vec![authority(3), authority(4), authority(1)]);
}
