use vstd::prelude::*;

verus! {

/// Why a query to the monitoring endpoint failed.
#[derive(Clone, Debug, PartialEq, Eq)]
pub enum MonitoringClientError {
    /// The endpoint could not be reached.
    ConnectionError { connection_error: String },
    /// The endpoint answered with a status other than success.
    ResponseStatusError { status: String },
}

} // verus!
