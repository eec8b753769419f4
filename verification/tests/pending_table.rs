use batch_synchronizer::digest::BatchDigest;
use batch_synchronizer::pending::PendingEntry;
use batch_synchronizer::pending::PendingTable;

fn digest(tag: u8) -> BatchDigest {
    BatchDigest::new([tag; 32])
}

fn entry(round: u64, last_issued: u128) -> PendingEntry {
    PendingEntry { round, last_issued }
}

#[test]
fn insert_then_contains() {
    let mut table = PendingTable::new();
    assert!(table.is_empty());
    table.insert(digest(1), entry(3, 10));
    assert!(table.contains(&digest(1)));
    assert!(!table.contains(&digest(2)));
    assert_eq!(table.len(), 1);
    assert_eq!(table.get(&digest(1)), Some(entry(3, 10)));
    assert_eq!(table.get(&digest(2)), None);
}

#[test]
fn insert_replaces_the_entry() {
    let mut table = PendingTable::new();
    table.insert(digest(1), entry(3, 10));
    table.insert(digest(1), entry(4, 20));
    assert_eq!(table.len(), 1);
    assert_eq!(table.get(&digest(1)), Some(entry(4, 20)));
}

#[test]
fn remove_returns_the_entry_once() {
    let mut table = PendingTable::new();
    table.insert(digest(1), entry(3, 10));
    table.insert(digest(2), entry(5, 11));
    assert_eq!(table.remove(&digest(1)), Some(entry(3, 10)));
    assert_eq!(table.remove(&digest(1)), None);
    assert_eq!(table.len(), 1);
    assert!(table.contains(&digest(2)));
}

#[test]
fn clear_empties_the_table() {
    let mut table = PendingTable::new();
    table.insert(digest(1), entry(3, 10));
    table.insert(digest(2), entry(5, 11));
    table.clear();
    assert!(table.is_empty());
    assert_eq!(table.len(), 0);
}

#[test]
fn retain_after_drops_rounds_up_to_the_bound() {
    let mut table = PendingTable::new();
    table.insert(digest(1), entry(49, 0));
    table.insert(digest(2), entry(50, 0));
    table.insert(digest(3), entry(51, 0));
    table.retain_after(50);
    assert!(!table.contains(&digest(1)));
    assert!(!table.contains(&digest(2)));
    assert_eq!(table.get(&digest(3)), Some(entry(51, 0)));
    assert_eq!(table.len(), 1);
}

#[test]
fn insert_all_gives_each_digest_the_entry() {
    let mut table = PendingTable::new();
    table.insert(digest(1), entry(1, 1));
    table.insert_all(&vec![digest(2), digest(1), digest(3)], entry(7, 9));
    assert_eq!(table.len(), 3);
    assert_eq!(table.get(&digest(1)), Some(entry(7, 9)));
    assert_eq!(table.get(&digest(2)), Some(entry(7, 9)));
    assert_eq!(table.get(&digest(3)), Some(entry(7, 9)));
}

#[test]
fn refresh_due_at_the_exact_delay() {
    let mut table = PendingTable::new();
    table.insert(digest(1), entry(1, 1_000));
    table.insert(digest(2), entry(2, 1_001));
    let due = table.refresh_due(6_000, 5_000);
    assert_eq!(due, vec![digest(1)]);
    assert_eq!(table.get(&digest(1)), Some(entry(1, 6_000)));
    assert_eq!(table.get(&digest(2)), Some(entry(2, 1_001)));
}

#[test]
fn refresh_due_does_not_overflow() {
    let mut table = PendingTable::new();
    table.insert(digest(1), entry(1, u128::MAX));
    table.insert(digest(2), entry(1, 5));
    assert_eq!(table.refresh_due(10, u128::MAX), vec![]);
    assert_eq!(table.refresh_due(u128::MAX, u128::MAX - 5), vec![digest(2)]);
    assert_eq!(table.get(&digest(2)), Some(entry(1, u128::MAX)));
    assert_eq!(table.refresh_due(u128::MAX, 0), vec![digest(1), digest(2)]);
}

#[test]
fn refresh_due_with_a_stamp_in_the_future() {
    let mut table = PendingTable::new();
    table.insert(digest(1), entry(1, 100));
    assert_eq!(table.refresh_due(50, 0), vec![]);
    assert_eq!(table.get(&digest(1)), Some(entry(1, 100)));
}
