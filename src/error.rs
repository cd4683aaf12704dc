use vstd::prelude::*;

use crate::felt::ClassHash;
use crate::query::{BlockHashOrNumber, BlockNumber, Query};

verus! {

/// Why serving a query stopped.
///
/// The variants that wrap a fault of a collaborator (storage, task runtime,
/// transport, class manager) carry that fault's description.
#[derive(Clone, Debug, PartialEq, Eq)]
pub enum P2pSyncServerError {
    DBInternalError(String),
    BlockNumberOutOfRange { query: Query, counter: u64 },
    BlockNotFound { block_hash_or_number: BlockHashOrNumber },
    ClassNotFound { class_hash: ClassHash },
    JoinError(String),
    SignatureNotFound { block_number: BlockNumber },
    SendError(String),
    ClassManagerClientError(String),
    /// A class declared as deprecated resolved to a class of the current kind:
    /// the stored data is corrupt.
    UnexpectedCairo1Class { class_hash: ClassHash },
}

impl P2pSyncServerError {
    /// Faults of this server or of its collaborators; the others say only that the
    /// requested data is not there, which is expected near the chain's tip.
    pub open spec fn is_fault(&self) -> bool {
        match self {
            P2pSyncServerError::BlockNumberOutOfRange { .. }
            | P2pSyncServerError::BlockNotFound { .. }
            | P2pSyncServerError::ClassNotFound { .. } => false,
            _ => true,
        }
    }

    /// Whether a session that ended with this error is logged at error severity.
    pub fn should_log_in_error_level(&self) -> (r: bool)
        ensures
            r == self.is_fault(),
    {
        match self {
            P2pSyncServerError::BlockNumberOutOfRange { .. }
            | P2pSyncServerError::BlockNotFound { .. }
            | P2pSyncServerError::ClassNotFound { .. } => false,
            P2pSyncServerError::DBInternalError(_)
            | P2pSyncServerError::JoinError(_)
            | P2pSyncServerError::SignatureNotFound { .. }
            | P2pSyncServerError::SendError(_)
            | P2pSyncServerError::ClassManagerClientError(_)
            | P2pSyncServerError::UnexpectedCairo1Class { .. } => true,
        }
    }
}

} // verus!
