use vstd::prelude::*;

use crate::error::P2pSyncServerError;
use crate::felt::{BlockHash, Felt, TransactionHash};
use crate::query::{BlockHashOrNumber, BlockNumber};
use crate::state_diff::{chunks_view, is_split_of, split_thin_state_diff, StateDiffChunk, ThinStateDiff};

verus! {

/// What one read of the storage snapshot gave: the value, nothing stored, or a
/// storage fault.
pub type StorageRead<T> = Result<Option<T>, P2pSyncServerError>;

#[derive(Clone, Copy, Debug, PartialEq, Eq, Structural)]
pub struct BlockHeader {
    pub block_hash: BlockHash,
    pub parent_hash: BlockHash,
    pub block_number: BlockNumber,
    pub timestamp: u64,
    /// Older stored headers lack it; it is then read off the stored state diff.
    pub state_diff_length: Option<usize>,
}

#[derive(Clone, Copy, Debug, PartialEq, Eq, Structural)]
pub struct BlockSignature {
    pub r: Felt,
    pub s: Felt,
}

#[derive(Clone, Debug, PartialEq, Eq)]
pub struct SignedBlockHeader {
    pub block_header: BlockHeader,
    pub signatures: Vec<BlockSignature>,
}

/// A transaction together with its output and its hash.
#[derive(Clone, Debug, PartialEq, Eq)]
pub struct FullTransaction<T, O> {
    pub transaction: T,
    pub transaction_output: O,
    pub transaction_hash: TransactionHash,
}

pub open spec fn block_not_found(block_number: BlockNumber) -> P2pSyncServerError {
    P2pSyncServerError::BlockNotFound { block_hash_or_number: BlockHashOrNumber::Number(block_number) }
}

fn not_found(block_number: BlockNumber) -> (r: P2pSyncServerError)
    ensures
        r == block_not_found(block_number),
{
    P2pSyncServerError::BlockNotFound { block_hash_or_number: BlockHashOrNumber::Number(block_number) }
}

/// The header of a header response: the stored one, with its state-diff length
/// filled in from the stored state diff where it lacks it.
pub open spec fn completed_header(
    block_number: BlockNumber,
    header: StorageRead<BlockHeader>,
    state_diff_length: StorageRead<usize>,
) -> Result<BlockHeader, P2pSyncServerError> {
    match header {
        Err(e) => Err(e),
        Ok(None) => Err(block_not_found(block_number)),
        Ok(Some(h)) => if h.state_diff_length.is_some() {
            Ok(h)
        } else {
            match state_diff_length {
                Err(e) => Err(e),
                Ok(None) => Err(block_not_found(block_number)),
                Ok(Some(n)) => Ok(BlockHeader { state_diff_length: Some(n), ..h }),
            }
        },
    }
}

/// Whether serving this header needs the length of the block's stored state diff.
pub fn header_needs_state_diff_length(header: &BlockHeader) -> (r: bool)
    ensures
        r == header.state_diff_length.is_none(),
{
    header.state_diff_length.is_none()
}

/// The records of a header response for one block: the header with its signature.
///
/// `state_diff_length` is the length of the block's stored state diff; it is read
/// only when the stored header lacks that field.
pub fn fetch_signed_header(
    block_number: BlockNumber,
    header: StorageRead<BlockHeader>,
    state_diff_length: StorageRead<usize>,
    signature: StorageRead<BlockSignature>,
) -> (r: Result<Vec<SignedBlockHeader>, P2pSyncServerError>)
    ensures
        match completed_header(block_number, header, state_diff_length) {
            Err(e) => r == Err::<Vec<SignedBlockHeader>, P2pSyncServerError>(e),
            Ok(h) => match signature {
                Err(e) => r == Err::<Vec<SignedBlockHeader>, P2pSyncServerError>(e),
                Ok(None) => r == Err::<Vec<SignedBlockHeader>, P2pSyncServerError>(
                    P2pSyncServerError::SignatureNotFound { block_number },
                ),
                Ok(Some(s)) => r matches Ok(v) && v@.len() == 1 && v@[0].block_header == h
                    && v@[0].signatures@ == seq![s],
            },
        },
{
    let mut h = match header {
        Err(e) => return Err(e),
        Ok(None) => return Err(not_found(block_number)),
        Ok(Some(h)) => h,
    };
    if header_needs_state_diff_length(&h) {
        match state_diff_length {
            Err(e) => return Err(e),
            Ok(None) => return Err(not_found(block_number)),
            Ok(Some(n)) => {
                h.state_diff_length = Some(n);
            },
        }
    }
    let s = match signature {
        Err(e) => return Err(e),
        Ok(None) => return Err(P2pSyncServerError::SignatureNotFound { block_number }),
        Ok(Some(s)) => s,
    };
    let mut signatures: Vec<BlockSignature> = Vec::new();
    signatures.push(s);
    let mut records: Vec<SignedBlockHeader> = Vec::new();
    records.push(SignedBlockHeader { block_header: h, signatures });
    proof {
        assert(records@[0].signatures@ =~= seq![s]);
    }
    Ok(records)
}

/// The records of a state-diff response for one block: the split of its stored
/// state diff.
pub fn fetch_state_diff_chunks(block_number: BlockNumber, state_diff: StorageRead<ThinStateDiff>) -> (r: Result<
    Vec<StateDiffChunk>,
    P2pSyncServerError,
>)
    requires
        state_diff matches Ok(Some(d)) ==> d.well_formed(),
    ensures
        match state_diff {
            Err(e) => r == Err::<Vec<StateDiffChunk>, P2pSyncServerError>(e),
            Ok(None) => r == Err::<Vec<StateDiffChunk>, P2pSyncServerError>(block_not_found(block_number)),
            Ok(Some(d)) => r matches Ok(v) && is_split_of(d, chunks_view(v@)),
        },
{
    match state_diff {
        Err(e) => Err(e),
        Ok(None) => Err(not_found(block_number)),
        Ok(Some(d)) => Ok(split_thin_state_diff(d)),
    }
}

/// The elements of `v` in reverse order, so that popping hands them out front
/// first.
pub(crate) fn reversed<T>(v: Vec<T>) -> (r: Vec<T>)
    ensures
        r@.len() == v@.len(),
        forall|i: int| 0 <= i < v@.len() ==> #[trigger] r@[i] == v@[v@.len() - 1 - i],
{
    let ghost orig = v@;
    let mut v = v;
    let mut r: Vec<T> = Vec::new();
    while v.len() > 0
        invariant
            v@ == orig.take(v@.len() as int),
            v@.len() <= orig.len(),
            r@.len() == orig.len() - v@.len(),
            forall|i: int| 0 <= i < r@.len() ==> #[trigger] r@[i] == orig[orig.len() - 1 - i],
        decreases v@.len(),
    {
        let x = v.pop().unwrap();
        r.push(x);
    }
    r
}

pub open spec fn min3(a: nat, b: nat, c: nat) -> nat {
    if a <= b && a <= c {
        a
    } else if b <= c {
        b
    } else {
        c
    }
}

/// The records of a transaction response for one block: the stored transactions,
/// outputs and hashes, joined by position. Where the three lengths differ, the
/// extra entries of the longer ones are left out.
pub fn fetch_full_transactions<T, O>(
    block_number: BlockNumber,
    transactions: StorageRead<Vec<T>>,
    transaction_outputs: StorageRead<Vec<O>>,
    transaction_hashes: StorageRead<Vec<TransactionHash>>,
) -> (r: Result<Vec<FullTransaction<T, O>>, P2pSyncServerError>)
    ensures
        match (transactions, transaction_outputs, transaction_hashes) {
            (Err(e), _, _) => r == Err::<Vec<FullTransaction<T, O>>, P2pSyncServerError>(e),
            (Ok(None), _, _) => r == Err::<Vec<FullTransaction<T, O>>, P2pSyncServerError>(block_not_found(block_number)),
            (Ok(Some(_)), Err(e), _) => r == Err::<Vec<FullTransaction<T, O>>, P2pSyncServerError>(e),
            (Ok(Some(_)), Ok(None), _) => r == Err::<Vec<FullTransaction<T, O>>, P2pSyncServerError>(
                block_not_found(block_number),
            ),
            (Ok(Some(_)), Ok(Some(_)), Err(e)) => r == Err::<Vec<FullTransaction<T, O>>, P2pSyncServerError>(e),
            (Ok(Some(_)), Ok(Some(_)), Ok(None)) => r == Err::<Vec<FullTransaction<T, O>>, P2pSyncServerError>(
                block_not_found(block_number),
            ),
            (Ok(Some(t)), Ok(Some(o)), Ok(Some(h))) => r matches Ok(v) && v@.len() == min3(
                t@.len(),
                o@.len(),
                h@.len(),
            ) && (t@.len() == o@.len() && o@.len() == h@.len() ==> v@.len() == t@.len()) && forall|i: int| 0 <= i < v@.len() ==> {
                &&& (#[trigger] v@[i]).transaction == t@[i]
                &&& v@[i].transaction_output == o@[i]
                &&& v@[i].transaction_hash == h@[i]
            },
        },
{
    let mut t = match transactions {
        Err(e) => return Err(e),
        Ok(None) => return Err(not_found(block_number)),
        Ok(Some(t)) => t,
    };
    let mut o = match transaction_outputs {
        Err(e) => return Err(e),
        Ok(None) => return Err(not_found(block_number)),
        Ok(Some(o)) => o,
    };
    let mut h = match transaction_hashes {
        Err(e) => return Err(e),
        Ok(None) => return Err(not_found(block_number)),
        Ok(Some(h)) => h,
    };
    let ghost (t0, o0, h0) = (t@, o@, h@);
    let mut n = t.len();
    if o.len() < n {
        n = o.len();
    }
    if h.len() < n {
        n = h.len();
    }
    t.truncate(n);
    o.truncate(n);
    h.truncate(n);
    let mut t = reversed(t);
    let mut o = reversed(o);
    let mut h = reversed(h);
    let mut result: Vec<FullTransaction<T, O>> = Vec::new();
    let mut i: usize = 0;
    while i < n
        invariant
            n == min3(t0.len(), o0.len(), h0.len()),
            i <= n,
            t@.len() == n - i,
            o@.len() == n - i,
            h@.len() == n - i,
            forall|j: int| 0 <= j < n - i ==> #[trigger] t@[j] == t0[n - 1 - j],
            forall|j: int| 0 <= j < n - i ==> #[trigger] o@[j] == o0[n - 1 - j],
            forall|j: int| 0 <= j < n - i ==> #[trigger] h@[j] == h0[n - 1 - j],
            result@.len() == i,
            forall|j: int| 0 <= j < i ==> {
                &&& (#[trigger] result@[j]).transaction == t0[j]
                &&& result@[j].transaction_output == o0[j]
                &&& result@[j].transaction_hash == h0[j]
            },
        decreases n - i,
    {
        let transaction = t.pop().unwrap();
        let transaction_output = o.pop().unwrap();
        let transaction_hash = h.pop().unwrap();
        result.push(FullTransaction { transaction, transaction_output, transaction_hash });
        i = i + 1;
    }
    Ok(result)
}

/// The events of the first `n` transactions of a block, in order, each paired with
/// the hash of the transaction that emitted it.
pub open spec fn paired_events<E>(events: Seq<Seq<E>>, hashes: Seq<TransactionHash>, n: nat) -> Seq<
    (E, TransactionHash),
>
    decreases n,
{
    if n == 0 {
        Seq::empty()
    } else {
        paired_events(events, hashes, (n - 1) as nat) + events[n - 1].map_values(
            |e: E| (e, hashes[n - 1]),
        )
    }
}

/// The records of an event response for one block: every event of every
/// transaction, in transaction order and then in emission order, paired with the
/// hash of its transaction.
///
/// `transaction_events` holds the events of each stored transaction output.
pub fn fetch_events<E>(
    block_number: BlockNumber,
    transaction_events: StorageRead<Vec<Vec<E>>>,
    transaction_hashes: StorageRead<Vec<TransactionHash>>,
) -> (r: Result<Vec<(E, TransactionHash)>, P2pSyncServerError>)
    ensures
        match (transaction_events, transaction_hashes) {
            (Err(e), _) => r == Err::<Vec<(E, TransactionHash)>, P2pSyncServerError>(e),
            (Ok(None), _) => r == Err::<Vec<(E, TransactionHash)>, P2pSyncServerError>(block_not_found(block_number)),
            (Ok(Some(_)), Err(e)) => r == Err::<Vec<(E, TransactionHash)>, P2pSyncServerError>(e),
            (Ok(Some(_)), Ok(None)) => r == Err::<Vec<(E, TransactionHash)>, P2pSyncServerError>(
                block_not_found(block_number),
            ),
            (Ok(Some(ev)), Ok(Some(h))) => r matches Ok(v) && v@ == paired_events(
                ev@.map_values(|x: Vec<E>| x@),
                h@,
                if ev@.len() <= h@.len() { ev@.len() } else { h@.len() },
            ),
        },
{
    let ev = match transaction_events {
        Err(e) => return Err(e),
        Ok(None) => return Err(not_found(block_number)),
        Ok(Some(ev)) => ev,
    };
    let h = match transaction_hashes {
        Err(e) => return Err(e),
        Ok(None) => return Err(not_found(block_number)),
        Ok(Some(h)) => h,
    };
    let ghost views = ev@.map_values(|x: Vec<E>| x@);
    let mut n = ev.len();
    if h.len() < n {
        n = h.len();
    }
    let mut outputs = reversed(ev);
    let mut result: Vec<(E, TransactionHash)> = Vec::new();
    let mut i: usize = 0;
    while i < n
        invariant
            n <= views.len(),
            n <= h@.len(),
            views.len() == outputs@.len() + i,
            i <= n,
            forall|j: int| 0 <= j < outputs@.len() ==> (#[trigger] outputs@[j])@ == views[views.len() - 1 - j],
            result@ == paired_events(views, h@, i as nat),
        decreases n - i,
    {
        let events = outputs.pop().unwrap();
        let transaction_hash = h[i];
        let ghost before = result@;
        let mut events = reversed(events);
        let m = events.len();
        let mut k: usize = 0;
        while k < m
            invariant
                m == views[i as int].len(),
                k <= m,
                events@.len() == m - k,
                forall|j: int| 0 <= j < m - k ==> #[trigger] events@[j] == views[i as int][m - 1 - j],
                transaction_hash == h@[i as int],
                result@ == before + views[i as int].take(k as int).map_values(|e: E| (e, h@[i as int])),
            decreases m - k,
        {
            let e = events.pop().unwrap();
            result.push((e, transaction_hash));
            proof {
                assert(views[i as int].take(k + 1).map_values(|e: E| (e, h@[i as int])) =~= views[i as int].take(
                    k as int,
                ).map_values(|e: E| (e, h@[i as int])).push((e, transaction_hash)));
            }
            k = k + 1;
        }
        proof {
            assert(views[i as int].take(m as int) =~= views[i as int]);
        }
        i = i + 1;
    }
    Ok(result)
}

/// The position of a transaction: its block and its offset in the block.
#[derive(Clone, Copy, Debug, PartialEq, Eq, Structural)]
pub struct TransactionIndex(pub BlockNumber, pub usize);

/// The position of an event: its transaction, and its place in that
/// transaction's output.
#[derive(Clone, Copy, Debug, PartialEq, Eq, Structural)]
pub struct EventIndex(pub TransactionIndex, pub usize);

impl EventIndex {
    /// Events are ordered by block, then by transaction, then by their place in
    /// the transaction's output.
    pub open spec fn spec_lt(self, other: EventIndex) -> bool {
        ||| self.0.0.0 < other.0.0.0
        ||| (self.0.0.0 == other.0.0.0 && self.0.1 < other.0.1)
        ||| (self.0.0.0 == other.0.0.0 && self.0.1 == other.0.1 && self.1 < other.1)
    }

    pub fn less_than(&self, other: &EventIndex) -> (r: bool)
        ensures
            r == self.spec_lt(*other),
    {
        self.0.0.0 < other.0.0.0 || (self.0.0.0 == other.0.0.0 && (self.0.1 < other.0.1 || (self.0.1
            == other.0.1 && self.1 < other.1)))
    }
}

/// The positions of the events of the first `n` transactions of a block, in the
/// order in which an event response hands them over.
pub open spec fn event_indices<E>(block_number: BlockNumber, events: Seq<Seq<E>>, n: nat) -> Seq<EventIndex>
    decreases n,
{
    if n == 0 {
        Seq::empty()
    } else {
        event_indices(block_number, events, (n - 1) as nat) + Seq::new(
            events[n - 1].len(),
            |j: int| EventIndex(TransactionIndex(block_number, (n - 1) as usize), j as usize),
        )
    }
}

/// The records of an event response for one block come in event-index order:
/// the `i`-th record is the event at the `i`-th position, paired with the hash of
/// that position's transaction, and the positions strictly ascend.
pub proof fn lemma_events_in_event_index_order<E>(
    block_number: BlockNumber,
    events: Seq<Seq<E>>,
    hashes: Seq<TransactionHash>,
    n: nat,
)
    requires
        n <= events.len(),
        n <= hashes.len(),
        n <= usize::MAX,
        forall|t: int| 0 <= t < n ==> (#[trigger] events[t]).len() <= usize::MAX,
    ensures
        event_indices(block_number, events, n).len() == paired_events(events, hashes, n).len(),
        forall|i: int| 0 <= i < event_indices(block_number, events, n).len() ==> {
            let x = #[trigger] event_indices(block_number, events, n)[i];
            &&& x.0.0 == block_number
            &&& x.0.1 < n
            &&& x.1 < events[x.0.1 as int].len()
            &&& paired_events(events, hashes, n)[i] == (events[x.0.1 as int][x.1 as int], hashes[x.0.1 as int])
        },
        forall|i: int, j: int| 0 <= i < j < event_indices(block_number, events, n).len() ==> (#[trigger] event_indices(
            block_number,
            events,
            n,
        )[i]).spec_lt(#[trigger] event_indices(block_number, events, n)[j]),
    decreases n,
{
    if n > 0 {
        let m = (n - 1) as nat;
        lemma_events_in_event_index_order(block_number, events, hashes, m);
        let prev = event_indices(block_number, events, m);
        let last = Seq::new(
            events[m as int].len(),
            |j: int| EventIndex(TransactionIndex(block_number, m as usize), j as usize),
        );
        let idx = event_indices(block_number, events, n);
        let recs = paired_events(events, hashes, n);
        let prev_recs = paired_events(events, hashes, m);
        let last_recs = events[m as int].map_values(|e: E| (e, hashes[m as int]));
        assert(idx == prev + last);
        assert(recs == prev_recs + last_recs);
        assert forall|i: int| 0 <= i < idx.len() implies {
            let x = #[trigger] idx[i];
            &&& x.0.0 == block_number
            &&& x.0.1 < n
            &&& x.1 < events[x.0.1 as int].len()
            &&& recs[i] == (events[x.0.1 as int][x.1 as int], hashes[x.0.1 as int])
        } by {
            if i < prev.len() {
                assert(idx[i] == prev[i]);
                assert(recs[i] == prev_recs[i]);
            } else {
                assert(idx[i] == last[i - prev.len()]);
                assert(recs[i] == last_recs[i - prev.len()]);
            }
        }
        assert forall|i: int, j: int| 0 <= i < j < idx.len() implies (#[trigger] idx[i]).spec_lt(#[trigger] idx[j]) by {
            if j < prev.len() {
                assert(idx[i] == prev[i] && idx[j] == prev[j]);
            } else if i < prev.len() {
                assert(idx[i] == prev[i]);
                assert(idx[j] == last[j - prev.len()]);
            } else {
                assert(idx[i] == last[i - prev.len()]);
                assert(idx[j] == last[j - prev.len()]);
            }
        }
    }
}

} // verus!
