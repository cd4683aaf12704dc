use apollo_p2p_sync::error::P2pSyncServerError;
use apollo_p2p_sync::felt::Felt;
use apollo_p2p_sync::fetch::{
    fetch_events,
    fetch_full_transactions,
    fetch_signed_header,
    fetch_state_diff_chunks,
    header_needs_state_diff_length,
    BlockHeader,
    BlockSignature,
    EventIndex,
    FullTransaction,
    SignedBlockHeader,
    TransactionIndex,
};
use apollo_p2p_sync::query::{BlockHashOrNumber, BlockNumber};
use apollo_p2p_sync::state_diff::{DeprecatedDeclaredClass, StateDiffChunk, ThinStateDiff};

fn felt(v: u128) -> Felt {
    Felt::from_u128(v)
}

fn header(n: u64, state_diff_length: Option<usize>) -> BlockHeader {
    BlockHeader {
        block_hash: felt(1000 + n as u128),
        parent_hash: felt(999 + n as u128),
        block_number: BlockNumber(n),
        timestamp: 1_700_000_000 + n,
        state_diff_length,
    }
}

fn signature() -> BlockSignature {
    BlockSignature { r: felt(11), s: felt(12) }
}

fn not_found(n: u64) -> P2pSyncServerError {
    P2pSyncServerError::BlockNotFound { block_hash_or_number: BlockHashOrNumber::Number(BlockNumber(n)) }
}

fn db_fault() -> P2pSyncServerError {
    P2pSyncServerError::DBInternalError("disk read failed".to_string())
}

#[test]
fn header_with_signature_is_one_record() {
    let r = fetch_signed_header(BlockNumber(4), Ok(Some(header(4, Some(7)))), Ok(None), Ok(Some(signature())));
    assert_eq!(
        r,
        Ok(vec![SignedBlockHeader { block_header: header(4, Some(7)), signatures: vec![signature()] }])
    );
}

#[test]
fn header_without_length_takes_it_from_the_state_diff() {
    assert!(header_needs_state_diff_length(&header(2, None)));
    assert!(!header_needs_state_diff_length(&header(2, Some(1))));
    let r = fetch_signed_header(BlockNumber(2), Ok(Some(header(2, None))), Ok(Some(5)), Ok(Some(signature())));
    assert_eq!(
        r,
        Ok(vec![SignedBlockHeader { block_header: header(2, Some(5)), signatures: vec![signature()] }])
    );
}

#[test]
fn header_errors() {
    assert_eq!(fetch_signed_header(BlockNumber(9), Ok(None), Ok(Some(1)), Ok(Some(signature()))), Err(not_found(9)));
    assert_eq!(
        fetch_signed_header(BlockNumber(2), Ok(Some(header(2, None))), Ok(None), Ok(Some(signature()))),
        Err(not_found(2))
    );
    assert_eq!(
        fetch_signed_header(BlockNumber(3), Ok(Some(header(3, Some(0)))), Ok(None), Ok(None)),
        Err(P2pSyncServerError::SignatureNotFound { block_number: BlockNumber(3) })
    );
    assert_eq!(fetch_signed_header(BlockNumber(3), Err(db_fault()), Ok(None), Ok(None)), Err(db_fault()));
    assert_eq!(
        fetch_signed_header(BlockNumber(3), Ok(Some(header(3, Some(0)))), Err(db_fault()), Ok(Some(signature()))),
        Ok(vec![SignedBlockHeader { block_header: header(3, Some(0)), signatures: vec![signature()] }])
    );
}

#[test]
fn state_diff_chunks_of_a_block() {
    let diff = ThinStateDiff {
        deployed_contracts: vec![],
        storage_diffs: vec![],
        declared_classes: vec![],
        deprecated_declared_classes: vec![felt(5)],
        nonces: vec![],
    };
    assert_eq!(
        fetch_state_diff_chunks(BlockNumber(1), Ok(Some(diff))),
        Ok(vec![StateDiffChunk::DeprecatedDeclaredClass(DeprecatedDeclaredClass { class_hash: felt(5) })])
    );
    assert_eq!(fetch_state_diff_chunks(BlockNumber(1), Ok(None)), Err(not_found(1)));
    assert_eq!(fetch_state_diff_chunks(BlockNumber(1), Err(db_fault())), Err(db_fault()));
}

#[test]
fn transactions_are_joined_by_position() {
    let r = fetch_full_transactions(
        BlockNumber(0),
        Ok(Some(vec!["tx0", "tx1", "tx2"])),
        Ok(Some(vec![10u32, 11, 12])),
        Ok(Some(vec![felt(100), felt(101), felt(102)])),
    )
    .unwrap();
    assert_eq!(r.len(), 3);
    assert_eq!(r[1], FullTransaction { transaction: "tx1", transaction_output: 11, transaction_hash: felt(101) });
    assert_eq!(r[2], FullTransaction { transaction: "tx2", transaction_output: 12, transaction_hash: felt(102) });
}

#[test]
fn mismatched_transaction_lengths_keep_the_common_prefix() {
    let r = fetch_full_transactions(
        BlockNumber(0),
        Ok(Some(vec!["tx0", "tx1", "tx2"])),
        Ok(Some(vec![10u32, 11])),
        Ok(Some(vec![felt(100), felt(101), felt(102), felt(103)])),
    )
    .unwrap();
    assert_eq!(
        r,
        vec![
            FullTransaction { transaction: "tx0", transaction_output: 10, transaction_hash: felt(100) },
            FullTransaction { transaction: "tx1", transaction_output: 11, transaction_hash: felt(101) },
        ]
    );
}

#[test]
fn missing_transaction_tables_are_not_found() {
    let hashes = Ok(Some(vec![felt(1)]));
    assert_eq!(
        fetch_full_transactions::<&str, u32>(BlockNumber(6), Ok(Some(vec!["a"])), Ok(None), hashes.clone()),
        Err(not_found(6))
    );
    assert_eq!(
        fetch_full_transactions::<&str, u32>(BlockNumber(6), Ok(None), Err(db_fault()), hashes.clone()),
        Err(not_found(6))
    );
    assert_eq!(
        fetch_full_transactions::<&str, u32>(BlockNumber(6), Ok(Some(vec!["a"])), Ok(Some(vec![1])), Ok(None)),
        Err(not_found(6))
    );
}

#[test]
fn events_are_paired_with_their_transaction_hash() {
    let r = fetch_events(
        BlockNumber(3),
        Ok(Some(vec![vec![], vec!["e0", "e1"]])),
        Ok(Some(vec![felt(500), felt(501)])),
    );
    assert_eq!(r, Ok(vec![("e0", felt(501)), ("e1", felt(501))]));
}

#[test]
fn events_keep_transaction_then_emission_order() {
    let r = fetch_events(
        BlockNumber(3),
        Ok(Some(vec![vec!["a0", "a1"], vec!["b0"], vec!["c0", "c1"]])),
        Ok(Some(vec![felt(1), felt(2), felt(3)])),
    );
    assert_eq!(
        r,
        Ok(vec![("a0", felt(1)), ("a1", felt(1)), ("b0", felt(2)), ("c0", felt(3)), ("c1", felt(3))])
    );
    assert_eq!(fetch_events::<&str>(BlockNumber(3), Ok(None), Ok(Some(vec![]))), Err(not_found(3)));
    assert_eq!(fetch_events::<&str>(BlockNumber(3), Ok(Some(vec![])), Err(db_fault())), Err(db_fault()));
}

#[test]
fn event_index_order_is_block_then_transaction_then_event() {
    let at = |b: u64, t: usize, e: usize| EventIndex(TransactionIndex(BlockNumber(b), t), e);
    assert!(at(1, 0, 0).less_than(&at(1, 0, 1)));
    assert!(at(1, 0, 9).less_than(&at(1, 1, 0)));
    assert!(at(1, 9, 9).less_than(&at(2, 0, 0)));
    assert!(!at(2, 0, 0).less_than(&at(1, 9, 9)));
    assert!(!at(1, 1, 1).less_than(&at(1, 1, 1)));
}
