//! Decision logic of a worker's batch synchronizer: the pending-request table,
//! the peer directory, random peer selection and the event handlers.

pub mod digest;
pub mod directory;
pub mod laws;
pub mod lucky;
pub mod messages;
pub mod pending;
pub mod slots;
pub mod synchronizer;
