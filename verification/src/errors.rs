//! Error taxonomy of the comment engine.
use vstd::prelude::*;

verus! {

/// The kinds of failure a comment-store operation can report.
///
/// `AlreadyVoted` and `Unauthorized` are expected, recoverable outcomes that
/// callers branch on; the storage and serialization kinds are genuine faults.
/// `PathCheckFailed` is reported by the thread-resolution layer when a
/// submission names a path that is not servable.
#[derive(Clone, Copy, PartialEq, Eq, Structural, Debug)]
pub enum ErrorKind {
    /// A read of the stored rows could not be completed (for instance, a row
    /// with the requested id does not exist).
    StorageRead,
    /// A write of a row could not be completed (for instance, the id space is
    /// exhausted).
    StorageWrite,
    /// The vote-ledger blob of a comment could not be encoded or decoded.
    SerializationFailed,
    /// The voter has already cast a vote on this comment.
    AlreadyVoted,
    /// An edit was rejected: the claimed hash does not match or the edit
    /// window has elapsed.
    Unauthorized,
    /// The submitted path does not correspond to a servable resource.
    PathCheckFailed,
}

} // verus!
