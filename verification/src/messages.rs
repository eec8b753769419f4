//! The messages that a worker exchanges with its primary and with its peers,
//! and the results of the store operations that it decides on.

use crate::digest::Batch;
use crate::digest::BatchDigest;
use crate::directory::AuthorityId;
use crate::directory::Committee;
use crate::directory::NetworkName;
use crate::directory::WorkerId;
use vstd::prelude::*;

verus! {

/// Logical time of the consensus protocol.
pub type Round = u64;

/// Period of the retry timer, in milliseconds.
pub const TIMER_RESOLUTION: u64 = 1_000;

/// What the batch store said when it was asked for a digest.
#[derive(Clone, Copy, Debug, PartialEq, Eq, Structural)]
pub enum Lookup {
    /// The store holds the batch.
    Present,
    /// The store does not hold the batch.
    Absent,
    /// The store could not be read.
    Failed,
}

/// A failed store operation.
#[derive(Clone, Copy, Debug, PartialEq, Eq, Structural)]
pub struct StoreFailure {}

/// A committee change, or the order to stop.
#[derive(Clone, Debug)]
pub enum ReconfigureNotification {
    /// A new epoch begins with this committee.
    NewEpoch(Committee),
    /// The committee changes within the epoch.
    UpdateCommittee(Committee),
    /// The worker stops.
    Shutdown,
}

impl ReconfigureNotification {
    /// The committee that comes with the notification is well formed.
    pub open spec fn wf(&self) -> bool {
        match self {
            ReconfigureNotification::NewEpoch(c) => c.wf(),
            ReconfigureNotification::UpdateCommittee(c) => c.wf(),
            ReconfigureNotification::Shutdown => true,
        }
    }
}

/// A command of the primary to its worker.
#[derive(Clone, Debug)]
pub enum PrimaryWorkerMessage {
    /// Fetch these batches; the target authority is believed to hold them.
    Synchronize(Vec<BatchDigest>, AuthorityId),
    /// The primary has reached this round.
    Cleanup(Round),
    /// The committee changes, or the worker stops.
    Reconfigure(ReconfigureNotification),
    /// Hand this batch to the primary.
    RequestBatch(BatchDigest),
    /// Delete these batches from the store.
    DeleteBatches(Vec<BatchDigest>),
}

/// Why a command of the primary could not be carried out.
#[derive(Clone, Debug, PartialEq, Eq)]
pub enum WorkerPrimaryError {
    /// The store does not hold the batch that was asked for.
    RequestedBatchNotFound(BatchDigest),
    /// The store failed to delete these batches.
    ErrorWhileDeletingBatches(Vec<BatchDigest>),
}

/// A reply of the worker to its primary.
#[derive(Clone, Debug, PartialEq, Eq)]
pub enum WorkerPrimaryMessage {
    /// The worker holds this batch, which another authority made.
    OthersBatch(BatchDigest, WorkerId),
    /// The batch that the primary asked for.
    RequestedBatch(BatchDigest, Batch),
    /// These batches were deleted.
    DeletedBatches(Vec<BatchDigest>),
    /// A command failed.
    Error(WorkerPrimaryError),
}

/// The request of a worker to a peer for the batches with these digests.
#[derive(Clone, Debug, PartialEq, Eq)]
pub struct WorkerBatchRequest {
    pub digests: Vec<BatchDigest>,
}

/// The answer of a peer: the batches that it holds of those asked for.
#[derive(Clone, Debug, PartialEq, Eq)]
pub struct WorkerBatchResponse {
    pub batches: Vec<Batch>,
}

/// What is to be sent after a command to synchronize.
#[derive(Clone, Debug, PartialEq, Eq)]
pub enum Fetch {
    /// Nothing is missing.
    Nothing,
    /// One request to this peer.
    Send(NetworkName, WorkerBatchRequest),
    /// These digests are missing, and the target runs no such worker: the
    /// retry timer will ask others.
    UnknownTarget(Vec<BatchDigest>),
}

} // verus!
