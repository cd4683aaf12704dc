use vstd::prelude::*;

use crate::error::P2pSyncServerError;

verus! {

/// The kinds of data that the server serves, one inbound channel each.
#[derive(Clone, Copy, Debug, PartialEq, Eq, Structural)]
pub enum DataKind {
    Header,
    StateDiff,
    Transaction,
    Class,
    Event,
}

/// What to do with a query that has just arrived.
#[derive(Debug, PartialEq, Eq)]
pub enum InboundQueryAction<Q, E> {
    /// Serve it in a session of its own.
    StartSession(Q),
    /// It could not be parsed: report the peer that sent it, and serve nothing.
    ReportPeer(E),
}

/// Decides what to do with an inbound query, given the outcome of parsing it.
pub fn register_query<Q, E>(parsed: Result<Q, E>) -> (r: InboundQueryAction<Q, E>)
    ensures
        match parsed {
            Ok(q) => r == InboundQueryAction::<Q, E>::StartSession(q),
            Err(e) => r == InboundQueryAction::<Q, E>::ReportPeer(e),
        },
{
    match parsed {
        Ok(query) => InboundQueryAction::StartSession(query),
        Err(error) => InboundQueryAction::ReportPeer(error),
    }
}

/// Whether the outcome of a finished session is logged at error severity: only a
/// fault is, never a success nor missing data.
pub fn should_log_session_outcome(outcome: &Result<(), P2pSyncServerError>) -> (r: bool)
    ensures
        r == (outcome matches Err(e) && e.is_fault()),
{
    match outcome {
        Ok(()) => false,
        Err(e) => e.should_log_in_error_level(),
    }
}

} // verus!
