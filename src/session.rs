use vstd::prelude::*;

use crate::error::P2pSyncServerError;
use crate::felt::BlockHash;
use crate::query::{block_position, calculate_block_number, position_in_range, BlockHashOrNumber, BlockNumber, Query};

verus! {

/// Where a query session stands.
#[derive(Clone, Copy, Debug, PartialEq, Eq, Structural)]
pub enum SessionPhase {
    /// Waiting for the storage snapshot that the whole session reads from.
    OpeningSnapshot,
    /// Waiting for the number of the block whose hash starts the query.
    ResolvingStart,
    /// Waiting for the records of the next block.
    Fetching,
    /// Waiting for the transport to take the last record handed to it.
    Sending,
    /// Waiting for the transport to take the terminator.
    Finishing,
    /// The session is over.
    Done,
}

/// What the session asks of its surroundings next.
#[derive(Debug, PartialEq, Eq)]
pub enum SessionAction<T> {
    /// Open the read-only storage snapshot for the whole session.
    OpenSnapshot,
    /// Look up the number of the block with this hash.
    LookupBlockHash(BlockHash),
    /// Read the records of this block.
    FetchBlock(BlockNumber),
    /// Hand this record to the peer.
    SendData(T),
    /// Hand the terminator to the peer.
    SendFin,
    /// The session is over, with this outcome.
    Finished(Result<(), P2pSyncServerError>),
}

/// What came back of the last action.
#[derive(Debug, PartialEq, Eq)]
pub enum SessionEvent<T> {
    SnapshotOpened(Result<(), P2pSyncServerError>),
    StartBlockResolved(Result<Option<BlockNumber>, P2pSyncServerError>),
    BlockFetched(Result<Vec<T>, P2pSyncServerError>),
    ResponseSent(Result<(), P2pSyncServerError>),
}

pub enum SessionEventView<T> {
    SnapshotOpened(Result<(), P2pSyncServerError>),
    StartBlockResolved(Result<Option<BlockNumber>, P2pSyncServerError>),
    BlockFetched(Result<Seq<T>, P2pSyncServerError>),
    ResponseSent(Result<(), P2pSyncServerError>),
}

impl<T> View for SessionEvent<T> {
    type V = SessionEventView<T>;

    open spec fn view(&self) -> SessionEventView<T> {
        match self {
            SessionEvent::SnapshotOpened(r) => SessionEventView::SnapshotOpened(*r),
            SessionEvent::StartBlockResolved(r) => SessionEventView::StartBlockResolved(*r),
            SessionEvent::BlockFetched(Ok(v)) => SessionEventView::BlockFetched(Ok(v@)),
            SessionEvent::BlockFetched(Err(e)) => SessionEventView::BlockFetched(Err(*e)),
            SessionEvent::ResponseSent(r) => SessionEventView::ResponseSent(*r),
        }
    }
}

/// The state of a session: its query, the number of its first block once known,
/// how many blocks it has fetched, the records of the last block not sent yet, and
/// the error that stopped it, if one did.
pub struct SessionView<T> {
    pub query: Query,
    pub start_block: u64,
    pub counter: u64,
    pub pending: Seq<T>,
    pub error: Option<P2pSyncServerError>,
    pub phase: SessionPhase,
}

/// One inbound query served end to end: it walks the query's blocks, fetches the
/// records of each, hands them to the peer in order, and always ends by handing
/// over one terminator, also when something failed on the way.
pub struct QuerySession<T> {
    query: Query,
    start_block: u64,
    counter: u64,
    /// The records still to send, last one first.
    to_send: Vec<T>,
    error: Option<P2pSyncServerError>,
    phase: SessionPhase,
}

impl<T> View for QuerySession<T> {
    type V = SessionView<T>;

    closed spec fn view(&self) -> SessionView<T> {
        SessionView {
            query: self.query,
            start_block: self.start_block,
            counter: self.counter,
            pending: Seq::new(self.to_send@.len(), |i: int| self.to_send@[self.to_send@.len() - 1 - i]),
            error: self.error,
            phase: self.phase,
        }
    }
}

/// The terminator has been handed over, or is being handed over.
pub open spec fn fin_requested(phase: SessionPhase) -> bool {
    phase == SessionPhase::Finishing || phase == SessionPhase::Done
}

/// What holds of every state that a session reaches.
pub open spec fn session_inv<T>(s: SessionView<T>) -> bool {
    &&& s.counter <= s.query.limit
    &&& s.phase == SessionPhase::ResolvingStart ==> s.query.start_block is Hash
    &&& s.phase == SessionPhase::Fetching ==> s.counter < s.query.limit
    &&& s.phase != SessionPhase::Sending ==> s.pending.len() == 0
    &&& s.phase == SessionPhase::Done ==> s.error is None
    &&& !fin_requested(s.phase) ==> s.error is None
    &&& s.phase == SessionPhase::Finishing && s.error is None ==> s.counter == s.query.limit
}

/// The event answers the action that the session is waiting on.
pub open spec fn expects<T>(s: SessionView<T>, e: SessionEventView<T>) -> bool {
    match s.phase {
        SessionPhase::OpeningSnapshot => e is SnapshotOpened,
        SessionPhase::ResolvingStart => e is StartBlockResolved,
        SessionPhase::Fetching => e is BlockFetched,
        SessionPhase::Sending | SessionPhase::Finishing => e is ResponseSent,
        SessionPhase::Done => false,
    }
}

/// The session stops on `err`: it keeps the error and asks for the terminator.
pub open spec fn spec_fail<T>(s: SessionView<T>, err: P2pSyncServerError) -> (SessionView<T>, SessionAction<T>) {
    (SessionView { error: Some(err), phase: SessionPhase::Finishing, pending: Seq::empty(), ..s }, SessionAction::SendFin)
}

/// The session moves to its next block, or asks for the terminator after the last.
pub open spec fn spec_advance<T>(s: SessionView<T>) -> (SessionView<T>, SessionAction<T>) {
    if s.counter >= s.query.limit {
        (SessionView { phase: SessionPhase::Finishing, ..s }, SessionAction::SendFin)
    } else if !position_in_range(s.query, s.start_block, s.counter) {
        spec_fail(s, P2pSyncServerError::BlockNumberOutOfRange { query: s.query, counter: s.counter })
    } else {
        (
            SessionView { phase: SessionPhase::Fetching, ..s },
            SessionAction::FetchBlock(BlockNumber(block_position(s.query, s.start_block, s.counter) as u64)),
        )
    }
}

/// The session sends its next pending record, or moves on when none is left.
pub open spec fn spec_drain<T>(s: SessionView<T>) -> (SessionView<T>, SessionAction<T>) {
    if s.pending.len() == 0 {
        spec_advance(s)
    } else {
        (
            SessionView { phase: SessionPhase::Sending, pending: s.pending.drop_first(), ..s },
            SessionAction::SendData(s.pending[0]),
        )
    }
}

/// A session for `query` before anything has happened, and its first action.
pub open spec fn spec_start<T>(query: Query) -> (SessionView<T>, SessionAction<T>) {
    (
        SessionView {
            query,
            start_block: 0,
            counter: 0,
            pending: Seq::empty(),
            error: None,
            phase: SessionPhase::OpeningSnapshot,
        },
        SessionAction::OpenSnapshot,
    )
}

/// How a session moves on an event that answers its last action.
pub open spec fn spec_step<T>(s: SessionView<T>, e: SessionEventView<T>) -> (SessionView<T>, SessionAction<T>) {
    match e {
        SessionEventView::SnapshotOpened(Ok(())) => match s.query.start_block {
            BlockHashOrNumber::Hash(h) => (
                SessionView { phase: SessionPhase::ResolvingStart, ..s },
                SessionAction::LookupBlockHash(h),
            ),
            BlockHashOrNumber::Number(n) => spec_advance(SessionView { start_block: n.0, ..s }),
        },
        SessionEventView::StartBlockResolved(Ok(Some(n))) => spec_advance(SessionView { start_block: n.0, ..s }),
        SessionEventView::StartBlockResolved(Ok(None)) => spec_fail(
            s,
            P2pSyncServerError::BlockNotFound { block_hash_or_number: s.query.start_block },
        ),
        SessionEventView::BlockFetched(Ok(v)) => spec_drain(
            SessionView { counter: (s.counter + 1) as u64, pending: v, ..s },
        ),
        SessionEventView::ResponseSent(r) => if s.phase == SessionPhase::Finishing {
            (
                SessionView { phase: SessionPhase::Done, error: None, ..s },
                SessionAction::Finished(
                    match s.error {
                        Some(err) => Err(err),
                        None => r,
                    },
                ),
            )
        } else {
            match r {
                Ok(()) => spec_drain(s),
                Err(err) => spec_fail(s, err),
            }
        },
        SessionEventView::SnapshotOpened(Err(err)) => spec_fail(s, err),
        SessionEventView::StartBlockResolved(Err(err)) => spec_fail(s, err),
        SessionEventView::BlockFetched(Err(err)) => spec_fail(s, err),
    }
}

/// A session keeps what holds of every state.
pub proof fn lemma_step_keeps_inv<T>(s: SessionView<T>, e: SessionEventView<T>)
    requires
        session_inv(s),
        expects(s, e),
    ensures
        session_inv(spec_step(s, e).0),
{
}

impl<T> QuerySession<T> {
    /// Starts serving `query`; the first action opens the storage snapshot.
    pub fn start(query: Query) -> (r: (QuerySession<T>, SessionAction<T>))
        ensures
            (r.0@, r.1) == spec_start::<T>(query),
            session_inv(r.0@),
    {
        let session = QuerySession {
            query,
            start_block: 0,
            counter: 0,
            to_send: Vec::new(),
            error: None,
            phase: SessionPhase::OpeningSnapshot,
        };
        proof {
            assert(session@.pending =~= Seq::<T>::empty());
        }
        (session, SessionAction::OpenSnapshot)
    }

    pub fn phase(&self) -> (r: SessionPhase)
        ensures
            r == self@.phase,
    {
        self.phase
    }

    fn fail(&mut self, err: P2pSyncServerError) -> (action: SessionAction<T>)
        ensures
            (final(self)@, action) == spec_fail(old(self)@, err),
    {
        self.error = Some(err);
        self.phase = SessionPhase::Finishing;
        self.to_send = Vec::new();
        proof {
            assert(self@.pending =~= Seq::<T>::empty());
        }
        SessionAction::SendFin
    }

    fn advance(&mut self) -> (action: SessionAction<T>)
        ensures
            (final(self)@, action) == spec_advance(old(self)@),
    {
        if self.counter >= self.query.limit {
            self.phase = SessionPhase::Finishing;
            return SessionAction::SendFin;
        }
        match calculate_block_number(&self.query, self.start_block, self.counter) {
            Ok(block_number) => {
                self.phase = SessionPhase::Fetching;
                SessionAction::FetchBlock(block_number)
            },
            Err(err) => self.fail(err),
        }
    }

    fn drain(&mut self) -> (action: SessionAction<T>)
        ensures
            (final(self)@, action) == spec_drain(old(self)@),
    {
        if self.to_send.len() == 0 {
            return self.advance();
        }
        let ghost before = self@;
        let record = self.to_send.pop().unwrap();
        self.phase = SessionPhase::Sending;
        proof {
            assert(self@.pending =~= before.pending.drop_first());
        }
        SessionAction::SendData(record)
    }

    /// Moves the session on the answer to its last action, and returns its next
    /// action.
    pub fn step(&mut self, event: SessionEvent<T>) -> (action: SessionAction<T>)
        requires
            session_inv(old(self)@),
            expects(old(self)@, event@),
        ensures
            (final(self)@, action) == spec_step(old(self)@, event@),
            session_inv(final(self)@),
    {
        proof {
            lemma_step_keeps_inv(self@, event@);
        }
        match event {
            SessionEvent::SnapshotOpened(Ok(())) => match self.query.start_block {
                BlockHashOrNumber::Hash(h) => {
                    self.phase = SessionPhase::ResolvingStart;
                    SessionAction::LookupBlockHash(h)
                },
                BlockHashOrNumber::Number(n) => {
                    self.start_block = n.0;
                    self.advance()
                },
            },
            SessionEvent::StartBlockResolved(Ok(Some(n))) => {
                self.start_block = n.0;
                self.advance()
            },
            SessionEvent::StartBlockResolved(Ok(None)) => {
                let start = self.query.start_block;
                self.fail(P2pSyncServerError::BlockNotFound { block_hash_or_number: start })
            },
            SessionEvent::BlockFetched(Ok(records)) => {
                self.counter = self.counter + 1;
                self.to_send = crate::fetch::reversed(records);
                proof {
                    assert(self@.pending =~= event@->BlockFetched_0->Ok_0);
                }
                self.drain()
            },
            SessionEvent::ResponseSent(r) => {
                if self.phase == SessionPhase::Finishing {
                    self.phase = SessionPhase::Done;
                    let outcome = match self.error.take() {
                        Some(err) => Err(err),
                        None => r,
                    };
                    SessionAction::Finished(outcome)
                } else {
                    match r {
                        Ok(()) => self.drain(),
                        Err(err) => self.fail(err),
                    }
                }
            },
            SessionEvent::SnapshotOpened(Err(err)) => self.fail(err),
            SessionEvent::StartBlockResolved(Err(err)) => self.fail(err),
            SessionEvent::BlockFetched(Err(err)) => self.fail(err),
        }
    }
}

/// The actions of a session from state `s` on, as it is fed `events` in turn.
pub open spec fn run<T>(s: SessionView<T>, events: Seq<SessionEventView<T>>) -> Seq<SessionAction<T>>
    decreases events.len(),
{
    if events.len() == 0 {
        Seq::empty()
    } else {
        seq![spec_step(s, events[0]).1] + run(spec_step(s, events[0]).0, events.drop_first())
    }
}

/// The state of a session from state `s` on after it has been fed `events`.
pub open spec fn state_after<T>(s: SessionView<T>, events: Seq<SessionEventView<T>>) -> SessionView<T>
    decreases events.len(),
{
    if events.len() == 0 {
        s
    } else {
        state_after(spec_step(s, events[0]).0, events.drop_first())
    }
}

/// Each event answers the action that the session was waiting on.
pub open spec fn valid_trace<T>(s: SessionView<T>, events: Seq<SessionEventView<T>>) -> bool
    decreases events.len(),
{
    events.len() == 0 || (expects(s, events[0]) && valid_trace(spec_step(s, events[0]).0, events.drop_first()))
}

/// Every action of a session for `query` that is fed `events`, the first included.
pub open spec fn session_actions<T>(query: Query, events: Seq<SessionEventView<T>>) -> Seq<SessionAction<T>> {
    seq![spec_start::<T>(query).1] + run(spec_start::<T>(query).0, events)
}

pub open spec fn ends_session<T>(a: SessionAction<T>) -> bool {
    a is SendFin || a is Finished
}

/// Either the session is still running and has asked for no terminator, or it
/// has asked for exactly one, as its last action or followed only by the report
/// of its outcome.
pub open spec fn terminated_once<T>(acts: Seq<SessionAction<T>>) -> bool {
    ||| forall|i: int| 0 <= i < acts.len() ==> !ends_session(#[trigger] acts[i])
    ||| exists|k: int| {
        &&& 0 <= k < acts.len()
        &&& #[trigger] acts[k] is SendFin
        &&& forall|i: int| 0 <= i < k ==> !ends_session(#[trigger] acts[i])
        &&& (acts.len() == k + 1 || (acts.len() == k + 2 && acts[k + 1] is Finished))
    }
}

proof fn lemma_run_shape<T>(s: SessionView<T>, events: Seq<SessionEventView<T>>)
    requires
        session_inv(s),
        valid_trace(s, events),
    ensures
        !fin_requested(s.phase) ==> terminated_once(run(s, events)),
        s.phase == SessionPhase::Finishing ==> run(s, events).len() <= 1 && (run(s, events).len() == 1
            ==> run(s, events)[0] is Finished),
        s.phase == SessionPhase::Done ==> run(s, events).len() == 0,
    decreases events.len(),
{
    if events.len() > 0 {
        let (s1, a) = spec_step(s, events[0]);
        let rest = events.drop_first();
        lemma_step_keeps_inv(s, events[0]);
        lemma_run_shape(s1, rest);
        let acts = run(s, events);
        let tail = run(s1, rest);
        assert(acts == seq![a] + tail);
        if !fin_requested(s.phase) {
            if a is SendFin {
                assert(s1.phase == SessionPhase::Finishing);
                assert(acts[0] is SendFin);
            } else {
                assert(!ends_session(a) && !fin_requested(s1.phase));
                if forall|i: int| 0 <= i < tail.len() ==> !ends_session(#[trigger] tail[i]) {
                    assert forall|i: int| 0 <= i < acts.len() implies !ends_session(#[trigger] acts[i]) by {
                        if i > 0 {
                            assert(acts[i] == tail[i - 1]);
                        }
                    }
                } else {
                    let k = choose|k: int| {
                        &&& 0 <= k < tail.len()
                        &&& #[trigger] tail[k] is SendFin
                        &&& forall|i: int| 0 <= i < k ==> !ends_session(#[trigger] tail[i])
                        &&& (tail.len() == k + 1 || (tail.len() == k + 2 && tail[k + 1] is Finished))
                    };
                    assert(acts[k + 1] == tail[k]);
                    assert forall|i: int| 0 <= i < k + 1 implies !ends_session(#[trigger] acts[i]) by {
                        if i > 0 {
                            assert(acts[i] == tail[i - 1]);
                        }
                    }
                    if acts.len() == k + 3 {
                        assert(acts[k + 2] == tail[k + 1]);
                    }
                }
            }
        }
    }
}

/// Whatever happens on the way, faults included, a session asks for the
/// terminator at most once; nothing but the report of its outcome follows it; and
/// a session that reports an outcome has asked for the terminator just before.
pub proof fn lemma_terminator_exactly_once<T>(query: Query, events: Seq<SessionEventView<T>>)
    requires
        valid_trace(spec_start::<T>(query).0, events),
    ensures
        terminated_once(session_actions(query, events)),
        forall|i: int| 0 <= i < session_actions(query, events).len() && #[trigger] session_actions(query, events)[i] is Finished
            ==> i >= 1 && session_actions(query, events)[i - 1] is SendFin,
{
    let s0 = spec_start::<T>(query).0;
    lemma_run_shape(s0, events);
    let tail = run(s0, events);
    let acts = session_actions(query, events);
    assert(acts == seq![SessionAction::<T>::OpenSnapshot] + tail);
    if forall|i: int| 0 <= i < tail.len() ==> !ends_session(#[trigger] tail[i]) {
        assert forall|i: int| 0 <= i < acts.len() implies !ends_session(#[trigger] acts[i]) by {
            if i > 0 {
                assert(acts[i] == tail[i - 1]);
            }
        }
    } else {
        let k = choose|k: int| {
            &&& 0 <= k < tail.len()
            &&& #[trigger] tail[k] is SendFin
            &&& forall|i: int| 0 <= i < k ==> !ends_session(#[trigger] tail[i])
            &&& (tail.len() == k + 1 || (tail.len() == k + 2 && tail[k + 1] is Finished))
        };
        assert(acts[k + 1] == tail[k]);
        assert forall|i: int| 0 <= i < k + 1 implies !ends_session(#[trigger] acts[i]) by {
            if i > 0 {
                assert(acts[i] == tail[i - 1]);
            }
        }
        if acts.len() == k + 3 {
            assert(acts[k + 2] == tail[k + 1]);
        }
    }
}

/// A fault reported while the session runs stops it at once: its next action is
/// the terminator, and the fault is kept as the session's outcome.
pub proof fn lemma_error_requests_terminator<T>(s: SessionView<T>, e: SessionEventView<T>, err: P2pSyncServerError)
    requires
        session_inv(s),
        expects(s, e),
        !fin_requested(s.phase),
        e == SessionEventView::<T>::SnapshotOpened(Err(err)) || e == SessionEventView::<T>::StartBlockResolved(
            Err(err),
        ) || e == SessionEventView::<T>::BlockFetched(Err(err)) || e == SessionEventView::<T>::ResponseSent(
            Err(err),
        ),
    ensures
        spec_step(s, e).1 is SendFin,
        spec_step(s, e).0.phase == SessionPhase::Finishing,
        spec_step(s, e).0.error == Some(err),
        spec_step(spec_step(s, e).0, SessionEventView::ResponseSent(Ok(()))).1 == SessionAction::<T>::Finished(
            Err(err),
        ),
{
}

/// The event carries no fault, and a looked-up start block was found.
pub open spec fn event_ok<T>(e: SessionEventView<T>) -> bool {
    match e {
        SessionEventView::SnapshotOpened(r) => r is Ok,
        SessionEventView::StartBlockResolved(r) => r matches Ok(Some(_)),
        SessionEventView::BlockFetched(r) => r is Ok,
        SessionEventView::ResponseSent(r) => r is Ok,
    }
}

pub open spec fn all_ok<T>(events: Seq<SessionEventView<T>>) -> bool {
    forall|i: int| 0 <= i < events.len() ==> event_ok(#[trigger] events[i])
}

/// The records of all fetched blocks, block after block.
pub open spec fn fetched_records<T>(events: Seq<SessionEventView<T>>) -> Seq<T>
    decreases events.len(),
{
    if events.len() == 0 {
        Seq::empty()
    } else {
        (match events[0] {
            SessionEventView::BlockFetched(Ok(v)) => v,
            _ => Seq::empty(),
        }) + fetched_records(events.drop_first())
    }
}

/// The records handed to the peer, in order.
pub open spec fn sent_records<T>(acts: Seq<SessionAction<T>>) -> Seq<T>
    decreases acts.len(),
{
    if acts.len() == 0 {
        Seq::empty()
    } else {
        (match acts[0] {
            SessionAction::SendData(x) => seq![x],
            _ => Seq::empty(),
        }) + sent_records(acts.drop_first())
    }
}

/// The blocks asked for, in order.
pub open spec fn fetched_blocks<T>(acts: Seq<SessionAction<T>>) -> Seq<BlockNumber>
    decreases acts.len(),
{
    if acts.len() == 0 {
        Seq::empty()
    } else {
        (match acts[0] {
            SessionAction::FetchBlock(b) => seq![b],
            _ => Seq::empty(),
        }) + fetched_blocks(acts.drop_first())
    }
}

/// How many blocks the session has asked for: those fetched, and the one it
/// waits for.
pub open spec fn requested<T>(s: SessionView<T>) -> int {
    s.counter + if s.phase == SessionPhase::Fetching {
        1int
    } else {
        0int
    }
}

/// The blocks at positions `from` up to `to` of a query whose first block is
/// `start_block`.
pub open spec fn blocks_between(query: Query, start_block: u64, from: int, to: int) -> Seq<BlockNumber> {
    Seq::new((to - from) as nat, |i: int| BlockNumber(block_position(query, start_block, (from + i) as u64) as u64))
}

proof fn lemma_run_records<T>(s: SessionView<T>, events: Seq<SessionEventView<T>>)
    requires
        session_inv(s),
        valid_trace(s, events),
        all_ok(events),
    ensures
        s.pending + fetched_records(events) == sent_records(run(s, events)) + state_after(s, events).pending,
    decreases events.len(),
{
    if events.len() > 0 {
        let e = events[0];
        let (s1, a) = spec_step(s, e);
        let rest = events.drop_first();
        assert(event_ok(e));
        assert forall|i: int| 0 <= i < rest.len() implies event_ok(#[trigger] rest[i]) by {
            assert(rest[i] == events[i + 1]);
        }
        lemma_step_keeps_inv(s, e);
        lemma_run_records(s1, rest);
        let acts = run(s, events);
        assert(acts.drop_first() =~= run(s1, rest));
        assert(acts[0] == a);
        let pre = match a {
            SessionAction::SendData(x) => seq![x],
            _ => Seq::<T>::empty(),
        };
        let fetched_now = match e {
            SessionEventView::BlockFetched(Ok(v)) => v,
            _ => Seq::<T>::empty(),
        };
        assert(fetched_records(events) == fetched_now + fetched_records(rest));
        assert(s.pending + fetched_now =~= pre + s1.pending) by {
            match e {
                SessionEventView::BlockFetched(Ok(v)) => {
                    assert(s.pending.len() == 0);
                    if v.len() > 0 {
                        assert(v =~= seq![v[0]] + v.drop_first());
                    }
                },
                _ => {
                    if s.phase == SessionPhase::Sending && s.pending.len() > 0 {
                        assert(s.pending =~= seq![s.pending[0]] + s.pending.drop_first());
                    }
                },
            }
        }
        assert(sent_records(acts) == pre + sent_records(run(s1, rest)));
        assert(s.pending + fetched_records(events) =~= (s.pending + fetched_now) + fetched_records(rest));
        assert(sent_records(acts) + state_after(s, events).pending =~= pre + (sent_records(run(s1, rest))
            + state_after(s1, rest).pending));
        assert((pre + s1.pending) + fetched_records(rest) =~= pre + (s1.pending + fetched_records(rest)));
    }
}

proof fn lemma_run_blocks<T>(s: SessionView<T>, events: Seq<SessionEventView<T>>)
    requires
        session_inv(s),
        valid_trace(s, events),
        all_ok(events),
        s.phase != SessionPhase::OpeningSnapshot && s.phase != SessionPhase::ResolvingStart,
    ensures
        state_after(s, events).start_block == s.start_block,
        requested(s) <= requested(state_after(s, events)),
        fetched_blocks(run(s, events)) == blocks_between(
            s.query,
            s.start_block,
            requested(s),
            requested(state_after(s, events)),
        ),
    decreases events.len(),
{
    if events.len() == 0 {
        assert(blocks_between(s.query, s.start_block, requested(s), requested(s)) =~= Seq::<BlockNumber>::empty());
    } else {
        let e = events[0];
        let (s1, a) = spec_step(s, e);
        let rest = events.drop_first();
        assert(event_ok(e));
        assert forall|i: int| 0 <= i < rest.len() implies event_ok(#[trigger] rest[i]) by {
            assert(rest[i] == events[i + 1]);
        }
        lemma_step_keeps_inv(s, e);
        lemma_run_blocks(s1, rest);
        let acts = run(s, events);
        assert(acts.drop_first() =~= run(s1, rest));
        assert(acts[0] == a);
        let fin = state_after(s, events);
        assert(fetched_blocks(acts) == (match a {
            SessionAction::FetchBlock(b) => seq![b],
            _ => Seq::<BlockNumber>::empty(),
        }) + fetched_blocks(run(s1, rest)));
        if a is FetchBlock {
            assert(requested(s1) == requested(s) + 1);
            assert(blocks_between(s.query, s.start_block, requested(s), requested(fin)) =~= seq![
                BlockNumber(block_position(s.query, s.start_block, requested(s) as u64) as u64),
            ] + blocks_between(s.query, s.start_block, requested(s1), requested(fin)));
        } else {
            assert(requested(s1) == requested(s));
        }
    }
}

/// With no fault on the way, the records handed to the peer are the records of
/// the fetched blocks, in block order and in each block's own order: those not
/// handed over yet are still pending, and none is left once the session is over.
pub proof fn lemma_records_forwarded_in_order<T>(query: Query, events: Seq<SessionEventView<T>>)
    requires
        valid_trace(spec_start::<T>(query).0, events),
        all_ok(events),
    ensures
        sent_records(session_actions(query, events)) + state_after(spec_start::<T>(query).0, events).pending
            == fetched_records(events),
        state_after(spec_start::<T>(query).0, events).phase == SessionPhase::Done ==> sent_records(
            session_actions(query, events),
        ) == fetched_records(events),
{
    let s0 = spec_start::<T>(query).0;
    lemma_run_records(s0, events);
    let acts = session_actions(query, events);
    assert(acts.drop_first() =~= run(s0, events));
    assert(sent_records(acts) == sent_records(run(s0, events)));
    assert(s0.pending + fetched_records(events) =~= fetched_records(events));
    if state_after(s0, events).phase == SessionPhase::Done {
        assert(session_inv(state_after(s0, events))) by {
            lemma_run_inv(s0, events);
        }
        assert(sent_records(acts) + Seq::<T>::empty() =~= sent_records(acts));
    }
}

proof fn lemma_run_inv<T>(s: SessionView<T>, events: Seq<SessionEventView<T>>)
    requires
        session_inv(s),
        valid_trace(s, events),
    ensures
        session_inv(state_after(s, events)),
    decreases events.len(),
{
    if events.len() > 0 {
        lemma_step_keeps_inv(s, events[0]);
        lemma_run_inv(spec_step(s, events[0]).0, events.drop_first());
    }
}

proof fn lemma_fetched_blocks_cons<T>(a: SessionAction<T>, xs: Seq<SessionAction<T>>)
    ensures
        fetched_blocks(seq![a] + xs) == (match a {
            SessionAction::FetchBlock(b) => seq![b],
            _ => Seq::<BlockNumber>::empty(),
        }) + fetched_blocks(xs),
{
    assert((seq![a] + xs).drop_first() =~= xs);
}

/// The blocks from position `from` on are the block at `from` followed by those
/// after it.
proof fn lemma_blocks_between_first(query: Query, start_block: u64, from: int, to: int)
    requires
        from < to,
    ensures
        blocks_between(query, start_block, from, to) == seq![
            BlockNumber(block_position(query, start_block, from as u64) as u64),
        ] + blocks_between(query, start_block, from + 1, to),
{
    assert(blocks_between(query, start_block, from, to) =~= seq![
        BlockNumber(block_position(query, start_block, from as u64) as u64),
    ] + blocks_between(query, start_block, from + 1, to));
}

/// With no fault on the way, the session asks for the query's blocks in order:
/// the first block, then each `step` blocks further in the query's direction.
pub proof fn lemma_blocks_in_query_order<T>(query: Query, events: Seq<SessionEventView<T>>)
    requires
        valid_trace(spec_start::<T>(query).0, events),
        all_ok(events),
    ensures
        fetched_blocks(session_actions(query, events)) == blocks_between(
            query,
            state_after(spec_start::<T>(query).0, events).start_block,
            0,
            requested(state_after(spec_start::<T>(query).0, events)),
        ),
{
    reveal_with_fuel(valid_trace, 2);
    reveal_with_fuel(run, 2);
    reveal_with_fuel(state_after, 2);
    let s0 = spec_start::<T>(query).0;
    let acts = session_actions(query, events);
    lemma_fetched_blocks_cons(SessionAction::<T>::OpenSnapshot, run(s0, events));
    if events.len() == 0 {
        assert(blocks_between(query, 0, 0, 0) =~= Seq::<BlockNumber>::empty());
        return;
    }
    let (s1, a1) = spec_step(s0, events[0]);
    let rest = events.drop_first();
    assert(event_ok(events[0]));
    assert forall|i: int| 0 <= i < rest.len() implies event_ok(#[trigger] rest[i]) by {
        assert(rest[i] == events[i + 1]);
    }
    lemma_step_keeps_inv(s0, events[0]);
    lemma_fetched_blocks_cons(a1, run(s1, rest));
    assert(state_after(s0, events) == state_after(s1, rest));
    if s1.phase == SessionPhase::ResolvingStart {
        if rest.len() == 0 {
            assert(blocks_between(query, 0, 0, 0) =~= Seq::<BlockNumber>::empty());
        } else {
            let (s2, a2) = spec_step(s1, rest[0]);
            let rest2 = rest.drop_first();
            assert(event_ok(rest[0]));
            assert forall|i: int| 0 <= i < rest2.len() implies event_ok(#[trigger] rest2[i]) by {
                assert(rest2[i] == rest[i + 1]);
            }
            lemma_step_keeps_inv(s1, rest[0]);
            lemma_run_blocks(s2, rest2);
            lemma_fetched_blocks_cons(a2, run(s2, rest2));
            assert(state_after(s1, rest) == state_after(s2, rest2));
            let fin = state_after(s2, rest2);
            if a2 is FetchBlock {
                lemma_blocks_between_first(query, s2.start_block, 0, requested(fin));
            }
        }
    } else {
        lemma_run_blocks(s1, rest);
        let fin = state_after(s1, rest);
        if a1 is FetchBlock {
            lemma_blocks_between_first(query, s1.start_block, 0, requested(fin));
        }
    }
}

/// Every fetched block has exactly one record.
pub open spec fn one_record_per_block<T>(events: Seq<SessionEventView<T>>) -> bool {
    forall|i: int| 0 <= i < events.len() ==> match #[trigger] events[i] {
        SessionEventView::BlockFetched(Ok(v)) => v.len() == 1,
        _ => true,
    }
}

proof fn lemma_fetched_count<T>(s: SessionView<T>, events: Seq<SessionEventView<T>>)
    requires
        session_inv(s),
        valid_trace(s, events),
        all_ok(events),
        one_record_per_block(events),
    ensures
        fetched_records(events).len() == state_after(s, events).counter - s.counter,
    decreases events.len(),
{
    if events.len() > 0 {
        let e = events[0];
        let rest = events.drop_first();
        assert(event_ok(e));
        assert forall|i: int| 0 <= i < rest.len() implies event_ok(#[trigger] rest[i]) by {
            assert(rest[i] == events[i + 1]);
        }
        assert forall|i: int| 0 <= i < rest.len() implies match #[trigger] rest[i] {
            SessionEventView::BlockFetched(Ok(v)) => v.len() == 1,
            _ => true,
        } by {
            assert(rest[i] == events[i + 1]);
        }
        assert(match events[0] {
            SessionEventView::BlockFetched(Ok(v)) => v.len() == 1,
            _ => true,
        });
        lemma_step_keeps_inv(s, e);
        lemma_fetched_count(spec_step(s, e).0, rest);
    }
}

proof fn lemma_finished_ok_counter<T>(s: SessionView<T>, events: Seq<SessionEventView<T>>)
    requires
        session_inv(s),
        valid_trace(s, events),
        run(s, events).len() > 0,
        run(s, events).last() == SessionAction::<T>::Finished(Ok(())),
    ensures
        state_after(s, events).counter == s.query.limit,
        state_after(s, events).query == s.query,
    decreases events.len(),
{
    let e = events[0];
    let (s1, a) = spec_step(s, e);
    let rest = events.drop_first();
    lemma_step_keeps_inv(s, e);
    if rest.len() == 0 {
        assert(run(s, events) =~= seq![a]) by {
            reveal_with_fuel(run, 2);
        }
        assert(state_after(s, events) == s1) by {
            reveal_with_fuel(state_after, 2);
        }
    } else {
        assert(run(s1, rest).len() > 0) by {
            reveal_with_fuel(run, 2);
        }
        assert(run(s, events).last() == run(s1, rest).last());
        lemma_finished_ok_counter(s1, rest);
    }
}

/// With no fault on the way and one record in each block, as in a header query
/// over blocks whose headers and signatures are stored: a session that reports
/// success has handed exactly one record per block of the query to the peer, for
/// the query's blocks in order.
pub proof fn lemma_one_record_per_block<T>(query: Query, events: Seq<SessionEventView<T>>)
    requires
        valid_trace(spec_start::<T>(query).0, events),
        all_ok(events),
        one_record_per_block(events),
        session_actions(query, events).last() == SessionAction::<T>::Finished(Ok(())),
    ensures
        sent_records(session_actions(query, events)).len() == query.limit,
        sent_records(session_actions(query, events)) == fetched_records(events),
        fetched_blocks(session_actions(query, events)) == blocks_between(
            query,
            state_after(spec_start::<T>(query).0, events).start_block,
            0,
            query.limit as int,
        ),
{
    let s0 = spec_start::<T>(query).0;
    let acts = session_actions(query, events);
    let fin = state_after(s0, events);
    assert(acts.len() > 1) by {
        if acts.len() == 1 {
            assert(acts[0] == SessionAction::<T>::OpenSnapshot);
        }
    }
    assert(acts.drop_first() =~= run(s0, events));
    assert(run(s0, events).last() == acts.last());
    lemma_finished_ok_counter(s0, events);
    lemma_fetched_count(s0, events);
    lemma_run_inv(s0, events);
    lemma_records_forwarded_in_order(query, events);
    lemma_blocks_in_query_order(query, events);
    lemma_terminator_exactly_once(query, events);
    assert(fin.phase == SessionPhase::Done) by {
        lemma_run_phase_after_finished(s0, events);
    }
}

proof fn lemma_run_phase_after_finished<T>(s: SessionView<T>, events: Seq<SessionEventView<T>>)
    requires
        session_inv(s),
        valid_trace(s, events),
        run(s, events).len() > 0,
        run(s, events).last() is Finished,
    ensures
        state_after(s, events).phase == SessionPhase::Done,
    decreases events.len(),
{
    let e = events[0];
    let (s1, a) = spec_step(s, e);
    let rest = events.drop_first();
    lemma_step_keeps_inv(s, e);
    if rest.len() == 0 {
        assert(run(s, events) =~= seq![a]) by {
            reveal_with_fuel(run, 2);
        }
        assert(state_after(s, events) == s1) by {
            reveal_with_fuel(state_after, 2);
        }
    } else {
        assert(run(s1, rest).len() > 0) by {
            reveal_with_fuel(run, 2);
        }
        assert(run(s, events).last() == run(s1, rest).last());
        lemma_run_phase_after_finished(s1, rest);
    }
}

proof fn lemma_run_opens_no_snapshot<T>(s: SessionView<T>, events: Seq<SessionEventView<T>>)
    ensures
        forall|i: int| 0 <= i < run(s, events).len() ==> !(#[trigger] run(s, events)[i] is OpenSnapshot),
    decreases events.len(),
{
    if events.len() > 0 {
        let (s1, a) = spec_step(s, events[0]);
        let rest = events.drop_first();
        lemma_run_opens_no_snapshot(s1, rest);
        assert forall|i: int| 0 <= i < run(s, events).len() implies !(#[trigger] run(s, events)[i] is OpenSnapshot) by {
            if i > 0 {
                assert(run(s, events)[i] == run(s1, rest)[i - 1]);
            }
        }
    }
}

/// A session reads from a single storage snapshot: it asks to open one as its
/// first action, and never again.
pub proof fn lemma_one_snapshot_per_session<T>(query: Query, events: Seq<SessionEventView<T>>)
    ensures
        session_actions(query, events)[0] is OpenSnapshot,
        forall|i: int| 1 <= i < session_actions(query, events).len() ==> !(
        #[trigger] session_actions(query, events)[i] is OpenSnapshot),
{
    let s0 = spec_start::<T>(query).0;
    lemma_run_opens_no_snapshot(s0, events);
    assert forall|i: int| 1 <= i < session_actions(query, events).len() implies !(
    #[trigger] session_actions(query, events)[i] is OpenSnapshot) by {
        assert(session_actions(query, events)[i] == run(s0, events)[i - 1]);
    }
}

} // verus!
