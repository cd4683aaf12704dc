use std::collections::BTreeMap;

use apollo_p2p_sync::dispatch::should_log_session_outcome;
use apollo_p2p_sync::error::P2pSyncServerError;
use apollo_p2p_sync::felt::{BlockHash, Felt};
use apollo_p2p_sync::fetch::{
    fetch_events,
    fetch_signed_header,
    fetch_state_diff_chunks,
    BlockHeader,
    BlockSignature,
    SignedBlockHeader,
};
use apollo_p2p_sync::query::{BlockHashOrNumber, BlockNumber, Direction, Query};
use apollo_p2p_sync::session::{QuerySession, SessionAction, SessionEvent, SessionPhase};
use apollo_p2p_sync::state_diff::{ContractDiff, DeclaredClass, StateDiffChunk, ThinStateDiff};

fn felt(v: u128) -> Felt {
    Felt::from_u128(v)
}

/// What a session handed to the peer: records, then the terminator (`None`).
struct Outcome<T> {
    stream: Vec<Option<T>>,
    result: Result<(), P2pSyncServerError>,
    snapshots_opened: usize,
}

/// Runs a session to its end against the given collaborators.
fn drive<T>(
    query: Query,
    lookup: impl Fn(BlockHash) -> Result<Option<BlockNumber>, P2pSyncServerError>,
    mut fetch: impl FnMut(BlockNumber) -> Result<Vec<T>, P2pSyncServerError>,
    mut send_ok: impl FnMut(&Option<T>) -> bool,
) -> Outcome<T> {
    let (mut session, mut action) = QuerySession::start(query);
    let mut stream = Vec::new();
    let mut snapshots_opened = 0;
    loop {
        let event = match action {
            SessionAction::OpenSnapshot => {
                snapshots_opened += 1;
                SessionEvent::SnapshotOpened(Ok(()))
            },
            SessionAction::LookupBlockHash(h) => SessionEvent::StartBlockResolved(lookup(h)),
            SessionAction::FetchBlock(b) => SessionEvent::BlockFetched(fetch(b)),
            SessionAction::SendData(record) => {
                let item = Some(record);
                let ok = send_ok(&item);
                stream.push(item);
                SessionEvent::ResponseSent(if ok { Ok(()) } else { Err(P2pSyncServerError::SendError("closed".into())) })
            },
            SessionAction::SendFin => {
                let ok = send_ok(&None);
                stream.push(None);
                SessionEvent::ResponseSent(if ok { Ok(()) } else { Err(P2pSyncServerError::SendError("closed".into())) })
            },
            SessionAction::Finished(result) => {
                assert_eq!(session.phase(), SessionPhase::Done);
                return Outcome { stream, result, snapshots_opened };
            },
        };
        action = session.step(event);
    }
}

fn no_hashes(_: BlockHash) -> Result<Option<BlockNumber>, P2pSyncServerError> {
    Ok(None)
}

fn forward(start: u64, limit: u64) -> Query {
    Query { start_block: BlockHashOrNumber::Number(BlockNumber(start)), direction: Direction::Forward, limit, step: 1 }
}

fn header(n: u64) -> BlockHeader {
    BlockHeader {
        block_hash: felt(1000 + n as u128),
        parent_hash: felt(999 + n as u128),
        block_number: BlockNumber(n),
        timestamp: n,
        state_diff_length: Some(0),
    }
}

fn signature(n: u64) -> BlockSignature {
    BlockSignature { r: felt(n as u128), s: felt(n as u128 + 1) }
}

/// A chain of `tip + 1` blocks, each with its header and signature.
fn fetch_header_from_chain(tip: u64) -> impl FnMut(BlockNumber) -> Result<Vec<SignedBlockHeader>, P2pSyncServerError> {
    move |b: BlockNumber| {
        let stored = b.0 <= tip;
        fetch_signed_header(
            b,
            Ok(if stored { Some(header(b.0)) } else { None }),
            Ok(None),
            Ok(if stored { Some(signature(b.0)) } else { None }),
        )
    }
}

#[test]
fn header_query_gives_one_signed_header_per_block_then_fin() {
    let out = drive(forward(1, 3), no_hashes, fetch_header_from_chain(10), |_| true);
    assert_eq!(out.result, Ok(()));
    assert_eq!(out.snapshots_opened, 1);
    assert_eq!(out.stream.len(), 4);
    for (i, n) in [1u64, 2, 3].iter().enumerate() {
        assert_eq!(
            out.stream[i],
            Some(SignedBlockHeader { block_header: header(*n), signatures: vec![signature(*n)] })
        );
    }
    assert_eq!(out.stream[3], None);
}

#[test]
fn header_query_past_the_tip_gives_only_fin() {
    let out = drive(forward(4, 1), no_hashes, fetch_header_from_chain(3), |_| true);
    assert_eq!(out.stream, vec![None]);
    let expected =
        P2pSyncServerError::BlockNotFound { block_hash_or_number: BlockHashOrNumber::Number(BlockNumber(4)) };
    assert_eq!(out.result, Err(expected));
    assert!(!should_log_session_outcome(&out.result));
}

fn chain_state_diffs() -> BTreeMap<u64, ThinStateDiff> {
    let empty = ThinStateDiff {
        deployed_contracts: vec![],
        storage_diffs: vec![],
        declared_classes: vec![],
        deprecated_declared_classes: vec![],
        nonces: vec![],
    };
    let mut diffs = BTreeMap::new();
    diffs.insert(0, ThinStateDiff { deployed_contracts: vec![(felt(1), felt(11))], ..empty.clone() });
    diffs.insert(1, empty.clone());
    diffs.insert(2, ThinStateDiff { declared_classes: vec![(felt(5), felt(55))], nonces: vec![(felt(2), felt(3))], ..empty.clone() });
    diffs.insert(3, ThinStateDiff { deprecated_declared_classes: vec![felt(9)], ..empty });
    diffs
}

#[test]
fn state_diff_query_gives_chunks_in_block_order_then_fin() {
    let diffs = chain_state_diffs();
    let out = drive(
        forward(0, 3),
        no_hashes,
        |b: BlockNumber| fetch_state_diff_chunks(b, Ok(diffs.get(&b.0).cloned())),
        |_| true,
    );
    assert_eq!(out.result, Ok(()));
    assert_eq!(
        out.stream,
        vec![
            Some(StateDiffChunk::ContractDiff(ContractDiff {
                contract_address: felt(1),
                class_hash: Some(felt(11)),
                nonce: None,
                storage_diffs: vec![],
            })),
            Some(StateDiffChunk::ContractDiff(ContractDiff {
                contract_address: felt(2),
                class_hash: None,
                nonce: Some(felt(3)),
                storage_diffs: vec![],
            })),
            Some(StateDiffChunk::DeclaredClass(DeclaredClass { class_hash: felt(5), compiled_class_hash: felt(55) })),
            None,
        ]
    );
}

#[test]
fn event_query_pairs_events_with_the_emitting_transaction() {
    let out = drive(
        forward(7, 1),
        no_hashes,
        |b: BlockNumber| {
            assert_eq!(b, BlockNumber(7));
            fetch_events(b, Ok(Some(vec![vec![], vec!["first", "second"]])), Ok(Some(vec![felt(70), felt(71)])))
        },
        |_| true,
    );
    assert_eq!(out.result, Ok(()));
    assert_eq!(out.stream, vec![Some(("first", felt(71))), Some(("second", felt(71))), None]);
}

#[test]
fn query_by_hash_starts_at_the_block_with_that_hash() {
    let q = Query { start_block: BlockHashOrNumber::Hash(felt(1005)), direction: Direction::Backward, limit: 3, step: 2 };
    let mut fetched = Vec::new();
    let out = drive(
        q,
        |h: BlockHash| Ok(if h == felt(1005) { Some(BlockNumber(5)) } else { None }),
        |b: BlockNumber| {
            fetched.push(b.0);
            Ok(vec![b.0])
        },
        |_| true,
    );
    assert_eq!(out.result, Ok(()));
    assert_eq!(fetched, vec![5, 3, 1]);
    assert_eq!(out.stream, vec![Some(5), Some(3), Some(1), None]);
}

#[test]
fn unknown_start_hash_gives_only_fin() {
    let q = Query { start_block: BlockHashOrNumber::Hash(felt(77)), direction: Direction::Forward, limit: 3, step: 1 };
    let out = drive(q, no_hashes, |_: BlockNumber| -> Result<Vec<u8>, P2pSyncServerError> { panic!("no block to fetch") }, |_| true);
    assert_eq!(out.stream, vec![None]);
    assert_eq!(
        out.result,
        Err(P2pSyncServerError::BlockNotFound { block_hash_or_number: BlockHashOrNumber::Hash(felt(77)) })
    );
}

#[test]
fn storage_fault_mid_stream_still_ends_with_one_fin() {
    let fault = P2pSyncServerError::DBInternalError("corrupt page".to_string());
    let f = fault.clone();
    let out = drive(
        forward(0, 5),
        no_hashes,
        move |b: BlockNumber| if b.0 == 2 { Err(f.clone()) } else { Ok(vec![b.0 * 10, b.0 * 10 + 1]) },
        |_| true,
    );
    assert_eq!(out.stream, vec![Some(0), Some(1), Some(10), Some(11), None]);
    assert_eq!(out.result, Err(fault));
    assert!(should_log_session_outcome(&out.result));
}

#[test]
fn send_fault_stops_the_stream_and_fin_is_still_attempted() {
    let mut sent = 0;
    let out = drive(
        forward(0, 5),
        no_hashes,
        |b: BlockNumber| Ok(vec![b.0]),
        |item: &Option<u64>| {
            sent += 1;
            !(item.is_some() && sent == 2)
        },
    );
    assert_eq!(out.stream, vec![Some(0), Some(1), None]);
    assert_eq!(out.result, Err(P2pSyncServerError::SendError("closed".into())));
}

#[test]
fn failed_fin_does_not_hide_an_earlier_fault() {
    let fault = P2pSyncServerError::SignatureNotFound { block_number: BlockNumber(0) };
    let f = fault.clone();
    let out = drive(forward(0, 2), no_hashes, move |_: BlockNumber| -> Result<Vec<u8>, P2pSyncServerError> { Err(f.clone()) }, |item| item.is_some());
    assert_eq!(out.stream, vec![None]);
    assert_eq!(out.result, Err(fault));
}

#[test]
fn failed_fin_after_success_is_the_outcome() {
    let out = drive(forward(0, 1), no_hashes, |b: BlockNumber| Ok(vec![b.0]), |item| item.is_some());
    assert_eq!(out.stream, vec![Some(0), None]);
    assert_eq!(out.result, Err(P2pSyncServerError::SendError("closed".into())));
}

#[test]
fn empty_query_and_out_of_range_query() {
    let out = drive(forward(3, 0), no_hashes, |_: BlockNumber| -> Result<Vec<u8>, P2pSyncServerError> { panic!("nothing to fetch") }, |_| true);
    assert_eq!(out.stream, vec![None]);
    assert_eq!(out.result, Ok(()));

    let q = Query { start_block: BlockHashOrNumber::Number(BlockNumber(1)), direction: Direction::Backward, limit: 4, step: 1 };
    let out = drive(q, no_hashes, |b: BlockNumber| Ok(vec![b.0]), |_| true);
    assert_eq!(out.stream, vec![Some(1), Some(0), None]);
    assert_eq!(out.result, Err(P2pSyncServerError::BlockNumberOutOfRange { query: q, counter: 2 }));
    assert!(!should_log_session_outcome(&out.result));
}
