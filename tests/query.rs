use apollo_p2p_sync::error::P2pSyncServerError;
use apollo_p2p_sync::felt::Felt;
use apollo_p2p_sync::query::{calculate_block_number, BlockHashOrNumber, BlockNumber, Direction, Query};

fn query(direction: Direction, step: u64) -> Query {
    Query { start_block: BlockHashOrNumber::Number(BlockNumber(0)), direction, limit: 10, step }
}

#[test]
fn forward_block_numbers_advance_by_step() {
    let q = query(Direction::Forward, 3);
    assert_eq!(calculate_block_number(&q, 5, 0), Ok(BlockNumber(5)));
    assert_eq!(calculate_block_number(&q, 5, 4), Ok(BlockNumber(17)));
}

#[test]
fn backward_block_numbers_go_down_by_step() {
    let q = query(Direction::Backward, 2);
    assert_eq!(calculate_block_number(&q, 10, 3), Ok(BlockNumber(4)));
    assert_eq!(calculate_block_number(&q, 10, 5), Ok(BlockNumber(0)));
}

#[test]
fn backward_past_genesis_is_out_of_range() {
    let q = query(Direction::Backward, 2);
    assert_eq!(
        calculate_block_number(&q, 10, 6),
        Err(P2pSyncServerError::BlockNumberOutOfRange { query: q, counter: 6 })
    );
}

#[test]
fn forward_past_the_largest_number_is_out_of_range() {
    let q = query(Direction::Forward, u64::MAX);
    assert_eq!(calculate_block_number(&q, u64::MAX, 0), Ok(BlockNumber(u64::MAX)));
    assert_eq!(
        calculate_block_number(&q, 1, 2),
        Err(P2pSyncServerError::BlockNumberOutOfRange { query: q, counter: 2 })
    );
    let by_hash = Query {
        start_block: BlockHashOrNumber::Hash(Felt::from_u128(3)),
        direction: Direction::Forward,
        limit: 1,
        step: 1,
    };
    assert_eq!(
        calculate_block_number(&by_hash, u64::MAX, 1),
        Err(P2pSyncServerError::BlockNumberOutOfRange { query: by_hash, counter: 1 })
    );
}
