//! Serving side of peer-to-peer block synchronisation: inbound queries for
//! headers, state diffs, transactions, classes and events are answered from a
//! storage snapshot, one bounded stream per query that always ends with a
//! terminator.
//!
//! `session` holds the decisions of a query session as a state machine, whose
//! surroundings perform the storage reads, class-manager calls and sends it asks
//! for; `fetch`, `classes` and `state_diff` turn what was read for one block into
//! the records of a response. Beside the server, the crate holds the node's
//! deployment descriptions, a few numeric and mapping helpers, the deprecated
//! system-call selectors, and the model of the workspace manifest that its dependency rules read.

pub mod classes;
pub mod deployment;
pub mod dispatch;
pub mod error;
pub mod execution;
pub mod felt;
pub mod fetch;
pub mod manifest;
pub mod monitoring;
pub mod node_runner;
pub mod query;
pub mod session;
pub mod state_diff;
pub mod utils;
