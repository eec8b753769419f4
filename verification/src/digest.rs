//! Batches of transactions and their content digests.

use fastcrypto::hash::Blake2b256;
use fastcrypto::hash::HashFunction;
use vstd::prelude::*;

verus! {

/// Content hash of a batch: 32 bytes, compared bytewise.
#[derive(Clone, Copy, Debug, PartialEq, Eq, Hash)]
pub struct BatchDigest {
    pub bytes: [u8; 32],
}

impl BatchDigest {
    /// Wraps the given bytes.
    pub fn new(bytes: [u8; 32]) -> (d: BatchDigest)
        ensures
            d.bytes == bytes,
    {
        BatchDigest { bytes }
    }

    /// Bytewise equality: true exactly when the two digests are the same value.
    pub fn same(&self, other: &BatchDigest) -> (r: bool)
        ensures
            r == (*self == *other),
    {
        let mut i: usize = 0;
        while i < 32
            invariant
                i <= 32,
                forall|j: int| 0 <= j < i ==> self.bytes@[j] == other.bytes@[j],
            decreases 32 - i,
        {
            if self.bytes[i] != other.bytes[i] {
                return false;
            }
            i += 1;
        }
        assert(self.bytes =~= other.bytes);
        true
    }
}

/// The BLAKE2b hash with 256 bits of output, of a byte string.
pub uninterp spec fn blake2b_256(data: Seq<u8>) -> Seq<u8>;

/// Calls `Blake2b256::digest` of fastcrypto on `data`. Trusted: the bytes that
/// come back are the BLAKE2b-256 hash of `data`, a function of `data` alone.
#[verifier::external_body]
fn hash_bytes(data: &Vec<u8>) -> (d: BatchDigest)
    ensures
        d.bytes@ == blake2b_256(data@),
{
    BatchDigest { bytes: Blake2b256::digest(data).digest }
}

/// A group of transactions that is disseminated as one unit.
#[derive(Clone, Debug, PartialEq, Eq)]
pub struct Batch {
    pub transactions: Vec<Vec<u8>>,
}

impl View for Batch {
    type V = Seq<Seq<u8>>;

    open spec fn view(&self) -> Seq<Seq<u8>> {
        Seq::new(self.transactions@.len(), |i: int| self.transactions@[i]@)
    }
}

/// The bytes that a batch is hashed over: its transactions, one after another.
pub open spec fn batch_bytes(transactions: Seq<Seq<u8>>) -> Seq<u8> {
    transactions.flatten()
}

/// The digest that a batch with these transactions has.
pub open spec fn digest_of(transactions: Seq<Seq<u8>>) -> Seq<u8> {
    blake2b_256(batch_bytes(transactions))
}

/// The digest value of the batch with these transactions.
pub open spec fn digest_key(transactions: Seq<Seq<u8>>) -> BatchDigest {
    choose|d: BatchDigest| d.bytes@ == digest_of(transactions)
}

proof fn flatten_push(prefix: Seq<Seq<u8>>, last: Seq<u8>)
    ensures
        prefix.push(last).flatten() == prefix.flatten() + last,
{
    prefix.lemma_flatten_push(last);
}

impl Batch {
    /// A batch of the given transactions.
    pub fn new(transactions: Vec<Vec<u8>>) -> (b: Batch)
        ensures
            b.transactions == transactions,
    {
        Batch { transactions }
    }

    /// The digest value of this batch.
    pub open spec fn spec_digest(&self) -> BatchDigest {
        digest_key(self@)
    }

    /// The content digest: the hash of all transactions' bytes in order.
    pub fn digest(&self) -> (d: BatchDigest)
        ensures
            d.bytes@ == digest_of(self@),
            d == self.spec_digest(),
    {
        let mut data: Vec<u8> = Vec::new();
        let mut i: usize = 0;
        assert(self@.take(0) =~= Seq::<Seq<u8>>::empty());
        assert(Seq::<Seq<u8>>::empty().flatten() =~= Seq::<u8>::empty());
        while i < self.transactions.len()
            invariant
                i <= self.transactions.len(),
                data@ == self@.take(i as int).flatten(),
            decreases self.transactions.len() - i,
        {
            let tx = &self.transactions[i];
            let mut j: usize = 0;
            let ghost before = data@;
            while j < tx.len()
                invariant
                    j <= tx.len(),
                    data@ == before + tx@.take(j as int),
                decreases tx.len() - j,
            {
                data.push(tx[j]);
                proof {
                    assert(tx@.take(j + 1) =~= tx@.take(j as int).push(tx@[j as int]));
                }
                j += 1;
            }
            proof {
                assert(tx@.take(tx@.len() as int) =~= tx@);
                assert(self@.take(i + 1) =~= self@.take(i as int).push(tx@));
                flatten_push(self@.take(i as int), tx@);
            }
            i += 1;
        }
        assert(self@.take(self@.len() as int) =~= self@);
        let d = hash_bytes(&data);
        assert(d.bytes =~= digest_key(self@).bytes);
        d
    }
}

/// Whether `digest` is one of `list`.
pub fn contains_digest(list: &Vec<BatchDigest>, digest: &BatchDigest) -> (r: bool)
    ensures
        r == list@.contains(*digest),
{
    let mut i: usize = 0;
    while i < list.len()
        invariant
            i <= list.len(),
            forall|j: int| 0 <= j < i ==> list@[j] != *digest,
        decreases list.len() - i,
    {
        if list[i].same(digest) {
            return true;
        }
        i += 1;
    }
    false
}

} // verus!
