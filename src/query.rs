use vstd::prelude::*;

use crate::error::P2pSyncServerError;
use crate::felt::BlockHash;

verus! {

/// Height of a block in the chain, counting from zero.
#[derive(Clone, Copy, Debug, PartialEq, Eq, Structural, Hash)]
pub struct BlockNumber(pub u64);

/// Where a query starts: a block given by its hash or by its number.
#[derive(Clone, Copy, Debug, PartialEq, Eq, Structural)]
pub enum BlockHashOrNumber {
    Hash(BlockHash),
    Number(BlockNumber),
}

#[derive(Clone, Copy, Debug, PartialEq, Eq, Structural)]
pub enum Direction {
    Forward,
    Backward,
}

/// The common part of every inbound query: `limit` blocks from `start_block`,
/// `step` blocks apart, walking in `direction`.
#[derive(Clone, Copy, Debug, PartialEq, Eq, Structural)]
pub struct Query {
    pub start_block: BlockHashOrNumber,
    pub direction: Direction,
    pub limit: u64,
    pub step: u64,
}

/// The height of the block at position `counter` of a query whose first block is
/// `start_block`, as an unbounded integer.
pub open spec fn block_position(query: Query, start_block: u64, counter: u64) -> int {
    match query.direction {
        Direction::Forward => start_block + query.step * counter,
        Direction::Backward => start_block - query.step * counter,
    }
}

/// The position is a block number: neither negative nor past the largest `u64`.
pub open spec fn position_in_range(query: Query, start_block: u64, counter: u64) -> bool {
    0 <= block_position(query, start_block, counter) <= u64::MAX
}

/// The block number at position `counter` of `query`, whose first block is
/// `start_block`; `BlockNumberOutOfRange` when that number is not representable.
pub fn calculate_block_number(query: &Query, start_block: u64, counter: u64) -> (r: Result<
    BlockNumber,
    P2pSyncServerError,
>)
    ensures
        position_in_range(*query, start_block, counter) ==> r == Ok::<BlockNumber, P2pSyncServerError>(
            BlockNumber(block_position(*query, start_block, counter) as u64),
        ),
        !position_in_range(*query, start_block, counter) ==> r == Err::<BlockNumber, P2pSyncServerError>(
            P2pSyncServerError::BlockNumberOutOfRange { query: *query, counter },
        ),
{
    proof {
        assert(query.step * counter <= u64::MAX * u64::MAX) by (nonlinear_arith)
            requires
                query.step <= u64::MAX,
                counter <= u64::MAX,
        ;
    }
    let delta: u128 = (query.step as u128) * (counter as u128);
    match query.direction {
        Direction::Forward => {
            if delta > (u64::MAX - start_block) as u128 {
                Err(P2pSyncServerError::BlockNumberOutOfRange { query: *query, counter })
            } else {
                Ok(BlockNumber(start_block + delta as u64))
            }
        },
        Direction::Backward => {
            if delta > start_block as u128 {
                Err(P2pSyncServerError::BlockNumberOutOfRange { query: *query, counter })
            } else {
                Ok(BlockNumber(start_block - delta as u64))
            }
        },
    }
}

} // verus!
