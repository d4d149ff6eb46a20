//! The failures that an operation of the key server reports.

use vstd::prelude::*;
use crate::types::ServerKeyId;

verus! {

/// Why an operation did not succeed. A failure concerns one session or one
/// key; the cluster goes on serving the others.
#[derive(Clone, Debug, PartialEq, Eq)]
pub enum Error {
    /// The requester is neither the key's author nor allowed by the access list.
    AccessDenied,
    /// The key id is already bound to a key of this kind.
    DuplicateKey,
    /// No key is stored under the id.
    NotFound,
    /// Fewer nodes than the threshold plus one took part.
    InsufficientNodes,
    /// The threshold does not fit the servers set or the signing scheme.
    InvalidThreshold,
    /// A requester proof or a servers-set authorization does not verify.
    BadSignature,
    /// A share does not match its dealer's commitments.
    InconsistentShare,
    /// A peer did not answer in time, retries included.
    NetworkTimeout,
    /// The servers set was changed, but these keys could not be moved.
    PartialMigrationFailure(Vec<ServerKeyId>),
}

} // verus!
