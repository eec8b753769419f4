use batch_synchronizer::digest::contains_digest;
use batch_synchronizer::digest::Batch;
use batch_synchronizer::digest::BatchDigest;
use fastcrypto::hash::Blake2b256;
use fastcrypto::hash::HashFunction;

fn hex(bytes: &[u8]) -> String {
    let mut out = String::new();
    for b in bytes {
        out.push_str(&format!("{:02x}", b));
    }
    out
}

#[test]
fn digest_of_empty_batch_is_hash_of_nothing() {
    let batch = Batch::new(vec![]);
    assert_eq!(
        hex(&batch.digest().bytes),
        "0e5751c026e543b2e8ab2eb06099daa1d1e5df47778f7787faab45cdf12fe3a8"
    );
}

#[test]
fn digest_of_abc() {
    let batch = Batch::new(vec![b"abc".to_vec()]);
    assert_eq!(
        hex(&batch.digest().bytes),
        "bddd813c634239723171ef3fee98579b94964e3bb1cb3e427262c8c068d52319"
    );
}

#[test]
fn digest_is_hash_of_transactions_in_order() {
    let batch = Batch::new(vec![b"ab".to_vec(), vec![], b"c".to_vec()]);
    let joined = Batch::new(vec![b"abc".to_vec()]);
    assert_eq!(batch.digest(), joined.digest());
    assert_eq!(batch.digest().bytes, Blake2b256::digest(b"abc").digest);
    let swapped = Batch::new(vec![b"c".to_vec(), b"ab".to_vec()]);
    assert_ne!(batch.digest(), swapped.digest());
}

#[test]
fn digest_is_not_the_input() {
    let data = vec![7u8; 32];
    let batch = Batch::new(vec![data.clone()]);
    assert_ne!(batch.digest().bytes.to_vec(), data);
}

#[test]
fn digest_is_stable() {
    let batch = Batch::new(vec![vec![1, 2, 3], vec![4, 5]]);
    assert_eq!(batch.digest(), batch.digest());
    assert_eq!(batch.digest(), batch.clone().digest());
}

#[test]
fn same_compares_bytes() {
    let a = BatchDigest::new([1; 32]);
    let mut bytes = [1u8; 32];
    let b = BatchDigest::new(bytes);
    bytes[31] = 2;
    let c = BatchDigest::new(bytes);
    assert!(a.same(&b));
    assert!(!a.same(&c));
    assert!(!c.same(&a));
}

#[test]
fn contains_digest_finds_members_only() {
    let list = vec![BatchDigest::new([1; 32]), BatchDigest::new([2; 32])];
    assert!(contains_digest(&list, &BatchDigest::new([2; 32])));
    assert!(!contains_digest(&list, &BatchDigest::new([3; 32])));
    assert!(!contains_digest(&vec![], &BatchDigest::new([1; 32])));
}
