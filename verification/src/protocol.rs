//! The protocol engine: the state machine that drives one transfer.
//!
//! A session takes one event at a time (a message from the peer, a receive
//! that timed out, or a local failure) and answers with its new state, the
//! change to its chunk directory, and the actions to perform: messages to
//! send and a file to write out. The engine does no input or output; its
//! caller receives, sends and writes.
//!
//! Which chunks a receiver holds is read from the chunk directory at every
//! step and cached nowhere, so a session that starts on a directory left by
//! an earlier run resumes it.

use crate::error::TransferError;
use crate::hash::ContentHash;
use crate::messages::{Message, MessageView};
use crate::storage::{complete, missing_below, reassembled, ChunkStore};
use crate::vectors::reversed;
use vstd::prelude::*;
use vstd::slice::*;

verus! {

/// The state of a session.
#[derive(Clone, Copy, Debug, PartialEq, Eq, Structural)]
pub enum State {
    /// Idle: no direction yet.
    Holding,
    /// Sending: serving the peer's requests for chunks.
    Transmitting,
    /// Receiving: taking in chunks.
    Receiving,
    /// The transfer is satisfied.
    Done,
    /// The transfer failed and will not go on.
    Failed,
}

/// Where a receiver writes the complete file, and with which permission
/// bits.
#[derive(Clone, Debug, PartialEq, Eq)]
pub struct ExportTarget {
    pub dest_path: Vec<u8>,
    pub mode: u32,
}

impl View for ExportTarget {
    type V = (Seq<u8>, u32);

    open spec fn view(&self) -> (Seq<u8>, u32) {
        (self.dest_path@, self.mode)
    }
}

/// What a session is told.
#[derive(Clone, Debug, PartialEq, Eq)]
pub enum Event {
    /// A message from the peer.
    Received(Message),
    /// Nothing arrived within the receive timeout.
    Timeout,
    /// A local failure that the transfer cannot get past.
    Failure(TransferError),
}

/// What an event says.
pub enum EventView {
    Received(MessageView),
    Timeout,
    Failure(TransferError),
}

impl View for Event {
    type V = EventView;

    open spec fn view(&self) -> EventView {
        match *self {
            Event::Received(message) => EventView::Received(message@),
            Event::Timeout => EventView::Timeout,
            Event::Failure(kind) => EventView::Failure(kind),
        }
    }
}

/// What a session asks its caller to do.
#[derive(Clone, Debug, PartialEq, Eq)]
pub enum Action {
    /// Send a message to the peer.
    Send(Message),
    /// Write `content`, the complete and checked file, to `dest_path` with
    /// permission bits `mode`.
    Export { dest_path: Vec<u8>, mode: u32, content: Vec<u8> },
}

/// What an action says.
pub enum ActionView {
    Send(MessageView),
    Export { dest_path: Seq<u8>, mode: u32, content: Seq<u8> },
}

impl View for Action {
    type V = ActionView;

    open spec fn view(&self) -> ActionView {
        match *self {
            Action::Send(message) => ActionView::Send(message@),
            Action::Export { dest_path, mode, content } => ActionView::Export {
                dest_path: dest_path@,
                mode,
                content: content@,
            },
        }
    }
}

/// The views of a vector of actions, in order.
pub open spec fn action_views(actions: Seq<Action>) -> Seq<ActionView> {
    Seq::new(actions.len(), |i: int| actions[i]@)
}

/// One transfer, as one party sees it.
///
/// The set of chunks received so far is not a field: it is what the chunk
/// directory of `hash` holds.
#[derive(Clone, Debug, PartialEq, Eq)]
pub struct Session {
    /// The content hash of the file being transferred.
    pub hash: ContentHash,
    /// The state of the transfer.
    pub state: State,
    /// The number of chunks of the file, once known.
    pub total_chunks: Option<u64>,
    /// Where to write the complete file, once asked.
    pub export: Option<ExportTarget>,
    /// Sender only: the chunks last asked for and not yet acknowledged.
    pub outstanding: Vec<u64>,
    /// Why the session failed, if it did.
    pub failure: Option<TransferError>,
}

/// What a session holds.
pub struct SessionView {
    pub hash: ContentHash,
    pub state: State,
    pub total_chunks: Option<u64>,
    pub export: Option<(Seq<u8>, u32)>,
    pub outstanding: Seq<u64>,
    pub failure: Option<TransferError>,
}

impl View for Session {
    type V = SessionView;

    open spec fn view(&self) -> SessionView {
        SessionView {
            hash: self.hash,
            state: self.state,
            total_chunks: self.total_chunks,
            export: match self.export {
                Some(target) => Some(target@),
                None => None,
            },
            outstanding: self.outstanding@,
            failure: self.failure,
        }
    }
}

/// What one step leaves behind: the session, its chunk directory, and the
/// actions to perform, in order.
pub struct Outcome {
    pub session: SessionView,
    pub dir: Map<u64, Seq<u8>>,
    pub actions: Seq<ActionView>,
}

/// A new session for `hash` that has seen nothing yet.
pub open spec fn fresh(hash: ContentHash) -> SessionView {
    SessionView {
        hash,
        state: State::Holding,
        total_chunks: None,
        export: None,
        outstanding: Seq::empty(),
        failure: None,
    }
}

/// A new session that sends the file `hash` of `total_chunks` chunks.
pub open spec fn sending(
    hash: ContentHash,
    total_chunks: u64,
    export: Option<(Seq<u8>, u32)>,
) -> SessionView {
    SessionView {
        hash,
        state: State::Transmitting,
        total_chunks: Some(total_chunks),
        export,
        outstanding: Seq::empty(),
        failure: None,
    }
}

/// `indices` without every occurrence of `index`.
pub open spec fn without(indices: Seq<u64>, index: u64) -> Seq<u64>
    decreases indices.len(),
{
    if indices.len() == 0 {
        indices
    } else if indices.last() == index {
        without(indices.drop_last(), index)
    } else {
        without(indices.drop_last(), index).push(indices.last())
    }
}

/// `indices` with `index` added at the end, unless it is there already.
pub open spec fn with(indices: Seq<u64>, index: u64) -> Seq<u64> {
    if indices.contains(index) {
        indices
    } else {
        indices.push(index)
    }
}

/// Whether every index in `indices` is below `bound`.
pub open spec fn in_range(indices: Seq<u64>, bound: u64) -> bool {
    forall|k: int| 0 <= k < indices.len() ==> indices[k] < bound
}

/// Whether `dir` holds every chunk listed in `indices`.
pub open spec fn held(dir: Map<u64, Seq<u8>>, indices: Seq<u64>) -> bool {
    forall|k: int| 0 <= k < indices.len() ==> dir.contains_key(#[trigger] indices[k])
}

/// One `ChunkData` message for each index in `indices`, in order, with the
/// payload that `dir` holds.
pub open spec fn chunk_actions(hash: ContentHash, dir: Map<u64, Seq<u8>>, indices: Seq<u64>) -> Seq<
    ActionView,
> {
    Seq::new(
        indices.len(),
        |k: int|
            ActionView::Send(
                MessageView::ChunkData { hash, index: indices[k], payload: dir[indices[k]] },
            ),
    )
}

/// The messages by which a sender announces its transfer: `Metadata`, and
/// `ExportRequest` where a destination is set.
pub open spec fn announcement(s: SessionView) -> Seq<ActionView> {
    match s.total_chunks {
        Some(total_chunks) => {
            let metadata = seq![
                ActionView::Send(MessageView::Metadata { hash: s.hash, total_chunks }),
            ];
            match s.export {
                Some((dest_path, mode)) => metadata.push(
                    ActionView::Send(
                        MessageView::ExportRequest { hash: s.hash, dest_path, mode },
                    ),
                ),
                None => metadata,
            }
        },
        None => Seq::empty(),
    }
}

/// The number of chunks of the session's file; zero while it is unknown.
pub open spec fn bound(s: SessionView) -> u64 {
    match s.total_chunks {
        Some(total_chunks) => total_chunks,
        None => 0,
    }
}

/// Nothing changes and nothing is to be done.
pub open spec fn unchanged(s: SessionView, dir: Map<u64, Seq<u8>>) -> Outcome {
    Outcome { session: s, dir, actions: Seq::empty() }
}

/// The session fails with `kind` and tells the peer.
pub open spec fn failed(s: SessionView, dir: Map<u64, Seq<u8>>, kind: TransferError) -> Outcome {
    Outcome {
        session: SessionView { state: State::Failed, failure: Some(kind), ..s },
        dir,
        actions: seq![ActionView::Send(MessageView::Error { hash: s.hash, reason: kind })],
    }
}

/// The file to write out, where a destination is set.
pub open spec fn export_actions(export: Option<(Seq<u8>, u32)>, content: Seq<u8>) -> Seq<
    ActionView,
> {
    match export {
        Some((dest_path, mode)) => seq![ActionView::Export { dest_path, mode, content }],
        None => Seq::empty(),
    }
}

/// The file of `total` chunks is put together and checked against the
/// session's hash. Where it is sound the session is `Done`: the file is
/// written out, if a destination is set, and then the peer is told. Where it
/// is not, the session fails.
pub open spec fn finished(s: SessionView, dir: Map<u64, Seq<u8>>, total: u64) -> Outcome {
    match reassembled(dir, s.hash, total as nat) {
        Ok(content) => Outcome {
            session: SessionView { state: State::Done, ..s },
            dir,
            actions: export_actions(s.export, content).push(
                ActionView::Send(MessageView::Done { hash: s.hash }),
            ),
        },
        Err(kind) => failed(s, dir, kind),
    }
}

/// A receiver looks at its directory: where the number of chunks is known
/// and all are present it finishes, otherwise it goes on receiving.
pub open spec fn advanced(s: SessionView, dir: Map<u64, Seq<u8>>) -> Outcome {
    if s.total_chunks is Some && complete(dir, bound(s) as nat) {
        finished(s, dir, bound(s))
    } else {
        Outcome {
            session: SessionView { state: State::Receiving, ..s },
            dir,
            actions: Seq::empty(),
        }
    }
}

/// A receiver that knows the number of chunks finishes where all are
/// present, and otherwise asks for those that are absent.
pub open spec fn requested(s: SessionView, dir: Map<u64, Seq<u8>>) -> Outcome {
    if complete(dir, bound(s) as nat) {
        finished(s, dir, bound(s))
    } else {
        Outcome {
            session: SessionView { state: State::Receiving, ..s },
            dir,
            actions: seq![
                ActionView::Send(
                    MessageView::SyncRequest {
                        hash: s.hash,
                        missing: missing_below(dir, bound(s) as nat),
                    },
                ),
            ],
        }
    }
}

/// A session that is not sending takes a message of its own transfer.
pub open spec fn received(s: SessionView, dir: Map<u64, Seq<u8>>, message: MessageView) -> Outcome {
    match message {
        MessageView::Metadata { total_chunks, .. } => {
            if s.total_chunks is Some && s.total_chunks != Some(total_chunks) {
                failed(s, dir, TransferError::ProtocolViolation)
            } else {
                requested(SessionView { total_chunks: Some(total_chunks), ..s }, dir)
            }
        },
        MessageView::ChunkData { index, payload, .. } => {
            if s.total_chunks is Some && index >= bound(s) {
                failed(s, dir, TransferError::ProtocolViolation)
            } else if dir.contains_key(index) {
                Outcome {
                    session: SessionView {
                        state: if s.state == State::Holding {
                            State::Receiving
                        } else {
                            s.state
                        },
                        ..s
                    },
                    dir,
                    actions: seq![ActionView::Send(MessageView::Ack { hash: s.hash, index })],
                }
            } else {
                let next = advanced(s, dir.insert(index, payload));
                Outcome {
                    actions: seq![ActionView::Send(MessageView::Ack { hash: s.hash, index })]
                        + next.actions,
                    ..next
                }
            }
        },
        MessageView::ExportRequest { dest_path, mode, .. } => advanced(
            SessionView { export: Some((dest_path, mode)), ..s },
            dir,
        ),
        MessageView::Error { reason, .. } => Outcome {
            session: SessionView { state: State::Failed, failure: Some(reason), ..s },
            dir,
            actions: Seq::empty(),
        },
        _ => if s.state == State::Done {
            unchanged(s, dir)
        } else {
            failed(s, dir, TransferError::ProtocolViolation)
        },
    }
}

/// A sender is asked for the chunks in `indices`.
pub open spec fn served(s: SessionView, dir: Map<u64, Seq<u8>>, indices: Seq<u64>) -> Outcome {
    if !in_range(indices, bound(s)) {
        failed(s, dir, TransferError::ProtocolViolation)
    } else if !held(dir, indices) {
        failed(s, dir, TransferError::IncompleteTransfer)
    } else {
        Outcome {
            session: SessionView { outstanding: indices, ..s },
            dir,
            actions: chunk_actions(s.hash, dir, indices),
        }
    }
}

/// A sender takes a message of its own transfer.
pub open spec fn answered(s: SessionView, dir: Map<u64, Seq<u8>>, message: MessageView) -> Outcome {
    match message {
        MessageView::SyncRequest { missing, .. } => served(s, dir, missing),
        MessageView::Nak { index, .. } => {
            if index >= bound(s) {
                failed(s, dir, TransferError::ProtocolViolation)
            } else if !dir.contains_key(index) {
                failed(s, dir, TransferError::IncompleteTransfer)
            } else {
                Outcome {
                    session: SessionView { outstanding: with(s.outstanding, index), ..s },
                    dir,
                    actions: chunk_actions(s.hash, dir, seq![index]),
                }
            }
        },
        MessageView::Ack { index, .. } => {
            if index >= bound(s) {
                failed(s, dir, TransferError::ProtocolViolation)
            } else {
                Outcome {
                    session: SessionView { outstanding: without(s.outstanding, index), ..s },
                    dir,
                    actions: Seq::empty(),
                }
            }
        },
        MessageView::Done { .. } => Outcome {
            session: SessionView { state: State::Done, outstanding: Seq::empty(), ..s },
            dir,
            actions: Seq::empty(),
        },
        MessageView::Error { reason, .. } => Outcome {
            session: SessionView { state: State::Failed, failure: Some(reason), ..s },
            dir,
            actions: Seq::empty(),
        },
        _ => failed(s, dir, TransferError::ProtocolViolation),
    }
}

/// A receive timed out. A sender sends the outstanding chunks again, or
/// announces its transfer again where none is outstanding. A receiver that
/// knows the number of chunks asks again for those that are absent. A
/// timeout is a retry and never a failure of its own.
pub open spec fn timed_out(s: SessionView, dir: Map<u64, Seq<u8>>) -> Outcome {
    if s.state == State::Transmitting {
        if s.outstanding.len() == 0 {
            Outcome { session: s, dir, actions: announcement(s) }
        } else if !held(dir, s.outstanding) {
            failed(s, dir, TransferError::IncompleteTransfer)
        } else {
            Outcome { session: s, dir, actions: chunk_actions(s.hash, dir, s.outstanding) }
        }
    } else if s.state == State::Receiving && s.total_chunks is Some {
        requested(s, dir)
    } else {
        unchanged(s, dir)
    }
}

/// One step of a session on its chunk directory.
///
/// A failed session ignores everything, and every session ignores the
/// messages of other transfers.
pub open spec fn transition(s: SessionView, dir: Map<u64, Seq<u8>>, event: EventView) -> Outcome {
    if s.state == State::Failed {
        unchanged(s, dir)
    } else {
        match event {
            EventView::Failure(kind) => failed(s, dir, kind),
            EventView::Timeout => timed_out(s, dir),
            EventView::Received(message) => {
                if message.hash() != s.hash {
                    unchanged(s, dir)
                } else if s.state == State::Transmitting {
                    answered(s, dir, message)
                } else {
                    received(s, dir, message)
                }
            },
        }
    }
}

/// Whether a session is `Done` or `Failed`.
pub open spec fn terminal(s: SessionView) -> bool {
    s.state == State::Done || s.state == State::Failed
}

/// How a run of the engine ended: well where the session is `Done`, with
/// the session's failure where it is `Failed`, and with `Timeout` where it is
/// neither. A `Timeout` may be tried again.
pub open spec fn verdict(s: SessionView) -> Result<(), TransferError> {
    if s.state == State::Done {
        Ok(())
    } else if s.state == State::Failed {
        match s.failure {
            Some(kind) => Err(kind),
            None => Err(TransferError::ProtocolViolation),
        }
    } else {
        Err(TransferError::Timeout)
    }
}

/// The count of receive timeouts in a row after `event`, or `None` where
/// `event` is one timeout too many: `patience` in a row are put up with.
pub open spec fn paced(idle: u64, patience: u64, event: EventView) -> Option<u64> {
    if event is Timeout {
        if idle >= patience {
            None
        } else {
            Some((idle + 1) as u64)
        }
    } else {
        Some(0)
    }
}

/// A run of the engine over `events`: one step for each event, in order,
/// until the session is `Done` or `Failed`, the events are used up, or
/// patience runs out.
pub open spec fn run(
    s: SessionView,
    dir: Map<u64, Seq<u8>>,
    events: Seq<EventView>,
    idle: u64,
    patience: u64,
) -> Outcome
    decreases events.len(),
{
    if terminal(s) || events.len() == 0 {
        unchanged(s, dir)
    } else {
        match paced(idle, patience, events[0]) {
            None => unchanged(s, dir),
            Some(next_idle) => {
                let first = transition(s, dir, events[0]);
                let rest = run(first.session, first.dir, events.skip(1), next_idle, patience);
                Outcome { actions: first.actions + rest.actions, ..rest }
            },
        }
    }
}

/// The views of a vector of events, in order.
pub open spec fn event_views(events: Seq<Event>) -> Seq<EventView> {
    Seq::new(events.len(), |i: int| events[i]@)
}

/// A step does not change the hash of a session.
pub proof fn lemma_transition_keeps_hash(s: SessionView, dir: Map<u64, Seq<u8>>, event: EventView)
    ensures
        transition(s, dir, event).session.hash == s.hash,
{
}

/// What an optional export target says.
pub open spec fn export_view(export: Option<ExportTarget>) -> Option<(Seq<u8>, u32)> {
    match export {
        Some(target) => Some(target@),
        None => None,
    }
}

/// Whether every index in `indices` is below `limit`.
fn all_below(indices: &Vec<u64>, limit: u64) -> (ok: bool)
    ensures
        ok == in_range(indices@, limit),
{
    let mut k: usize = 0;
    while k < indices.len()
        invariant
            k <= indices@.len(),
            forall|j: int| 0 <= j < k ==> indices@[j] < limit,
        decreases indices@.len() - k,
    {
        if indices[k] >= limit {
            return false;
        }
        k = k + 1;
    }
    true
}

/// `indices` without every occurrence of `index`.
fn remove_index(indices: &Vec<u64>, index: u64) -> (rest: Vec<u64>)
    ensures
        rest@ == without(indices@, index),
{
    let mut rest: Vec<u64> = Vec::new();
    let mut k: usize = 0;
    while k < indices.len()
        invariant
            k <= indices@.len(),
            rest@ == without(indices@.take(k as int), index),
        decreases indices@.len() - k,
    {
        assert(indices@.take(k + 1).drop_last() =~= indices@.take(k as int));
        if indices[k] != index {
            rest.push(indices[k]);
        }
        k = k + 1;
    }
    assert(indices@.take(k as int) =~= indices@);
    rest
}

/// Adds `index` at the end of `indices`, unless it is there already.
fn add_index(indices: &mut Vec<u64>, index: u64)
    ensures
        final(indices)@ == with(old(indices)@, index),
{
    let mut k: usize = 0;
    while k < indices.len()
        invariant
            k <= indices@.len(),
            indices@ == old(indices)@,
            forall|j: int| 0 <= j < k ==> indices@[j] != index,
        decreases indices@.len() - k,
    {
        if indices[k] == index {
            return;
        }
        k = k + 1;
    }
    indices.push(index);
}

impl Session {
    /// A session for `hash` that has seen nothing yet.
    pub fn new(hash: ContentHash) -> (session: Session)
        ensures
            session@ == fresh(hash),
    {
        Session {
            hash,
            state: State::Holding,
            total_chunks: None,
            export: None,
            outstanding: Vec::new(),
            failure: None,
        }
    }

    /// A session that sends the file `hash` of `total_chunks` chunks, and
    /// the messages that announce it.
    pub fn transmit(hash: ContentHash, total_chunks: u64, export: Option<ExportTarget>) -> (started:
        (Session, Vec<Action>))
        ensures
            started.0@ == sending(hash, total_chunks, export_view(export)),
            action_views(started.1@) == announcement(started.0@),
    {
        let session = Session {
            hash,
            state: State::Transmitting,
            total_chunks: Some(total_chunks),
            export,
            outstanding: Vec::new(),
            failure: None,
        };
        let actions = session.announce();
        (session, actions)
    }

    /// Whether the session is `Done` or `Failed`.
    pub fn is_terminal(&self) -> (terminal: bool)
        ensures
            terminal == (self.state == State::Done || self.state == State::Failed),
    {
        self.state == State::Done || self.state == State::Failed
    }

    /// The number of chunks of the file; zero while it is unknown.
    fn limit(&self) -> (limit: u64)
        ensures
            limit == bound(self@),
    {
        match self.total_chunks {
            Some(total_chunks) => total_chunks,
            None => 0,
        }
    }

    fn announce(&self) -> (actions: Vec<Action>)
        ensures
            action_views(actions@) == announcement(self@),
    {
        let mut actions: Vec<Action> = Vec::new();
        match self.total_chunks {
            Some(total_chunks) => {
                actions.push(Action::Send(Message::Metadata { hash: self.hash, total_chunks }));
                match &self.export {
                    Some(target) => {
                        actions.push(
                            Action::Send(
                                Message::ExportRequest {
                                    hash: self.hash,
                                    dest_path: slice_to_vec(target.dest_path.as_slice()),
                                    mode: target.mode,
                                },
                            ),
                        );
                    },
                    None => {},
                }
            },
            None => {},
        }
        assert(action_views(actions@) =~= announcement(self@));
        actions
    }

    fn chunk_messages(&self, store: &ChunkStore, indices: &Vec<u64>) -> (actions: Option<
        Vec<Action>,
    >)
        ensures
            actions is Some <==> held(store.dir(self.hash), indices@),
            actions matches Some(a) ==> action_views(a@) == chunk_actions(
                self.hash,
                store.dir(self.hash),
                indices@,
            ),
    {
        let mut actions: Vec<Action> = Vec::new();
        let mut k: usize = 0;
        while k < indices.len()
            invariant
                k <= indices@.len(),
                actions@.len() == k,
                held(store.dir(self.hash), indices@.take(k as int)),
                action_views(actions@) == chunk_actions(
                    self.hash,
                    store.dir(self.hash),
                    indices@.take(k as int),
                ),
            decreases indices@.len() - k,
        {
            let index = indices[k];
            let ghost before = actions@;
            match store.chunk(self.hash, index) {
                Some(payload) => {
                    let message = Message::ChunkData { hash: self.hash, index, payload };
                    actions.push(Action::Send(message));
                },
                None => {
                    assert(!store.dir(self.hash).contains_key(indices@[k as int]));
                    return None;
                },
            }
            k = k + 1;
            assert(held(store.dir(self.hash), indices@.take(k as int))) by {
                assert forall|j: int| 0 <= j < k implies store.dir(self.hash).contains_key(
                    #[trigger] indices@.take(k as int)[j],
                ) by {
                    if j < k - 1 {
                        assert(indices@.take(k - 1)[j] == indices@[j]);
                    }
                }
            }
            assert(action_views(actions@) =~= chunk_actions(
                self.hash,
                store.dir(self.hash),
                indices@.take(k as int),
            )) by {
                let want = chunk_actions(self.hash, store.dir(self.hash), indices@.take(k as int));
                let prev = chunk_actions(self.hash, store.dir(self.hash), indices@.take(k - 1));
                assert forall|j: int| 0 <= j < k implies action_views(actions@)[j] == want[j] by {
                    if j < k - 1 {
                        assert(actions@[j] == before[j]);
                        assert(action_views(before)[j] == prev[j]);
                        assert(indices@.take(k - 1)[j] == indices@.take(k as int)[j]);
                    }
                }
            }
        }
        assert(indices@.take(k as int) =~= indices@);
        Some(actions)
    }

    fn fail(&mut self, kind: TransferError) -> (actions: Vec<Action>)
        ensures
            final(self)@ == (SessionView {
                state: State::Failed,
                failure: Some(kind),
                ..old(self)@
            }),
            action_views(actions@) == seq![
                ActionView::Send(MessageView::Error { hash: old(self).hash, reason: kind }),
            ],
    {
        self.state = State::Failed;
        self.failure = Some(kind);
        let mut actions: Vec<Action> = Vec::new();
        actions.push(Action::Send(Message::Error { hash: self.hash, reason: kind }));
        assert(action_views(actions@) =~= seq![
            ActionView::Send(MessageView::Error { hash: old(self).hash, reason: kind }),
        ]);
        actions
    }

    fn finish(&mut self, store: &ChunkStore, total: u64) -> (actions: Vec<Action>)
        ensures
            final(self)@ == finished(old(self)@, store.dir(old(self).hash), total).session,
            action_views(actions@) == finished(
                old(self)@,
                store.dir(old(self).hash),
                total,
            ).actions,
    {
        match store.reassemble(self.hash, total) {
            Ok(content) => {
                self.state = State::Done;
                let mut actions: Vec<Action> = Vec::new();
                match &self.export {
                    Some(target) => {
                        actions.push(
                            Action::Export {
                                dest_path: slice_to_vec(target.dest_path.as_slice()),
                                mode: target.mode,
                                content,
                            },
                        );
                    },
                    None => {},
                }
                actions.push(Action::Send(Message::Done { hash: self.hash }));
                assert(action_views(actions@) =~= finished(
                    old(self)@,
                    store.dir(old(self).hash),
                    total,
                ).actions);
                actions
            },
            Err(kind) => self.fail(kind),
        }
    }

    fn advance(&mut self, store: &ChunkStore) -> (actions: Vec<Action>)
        ensures
            final(self)@ == advanced(old(self)@, store.dir(old(self).hash)).session,
            action_views(actions@) == advanced(old(self)@, store.dir(old(self).hash)).actions,
    {
        match self.total_chunks {
            Some(total_chunks) => {
                if store.is_complete(self.hash, total_chunks) {
                    return self.finish(store, total_chunks);
                }
            },
            None => {},
        }
        self.state = State::Receiving;
        let actions: Vec<Action> = Vec::new();
        assert(action_views(actions@) =~= Seq::<ActionView>::empty());
        actions
    }

    fn request(&mut self, store: &ChunkStore) -> (actions: Vec<Action>)
        ensures
            final(self)@ == requested(old(self)@, store.dir(old(self).hash)).session,
            action_views(actions@) == requested(old(self)@, store.dir(old(self).hash)).actions,
    {
        let total = self.limit();
        if store.is_complete(self.hash, total) {
            self.finish(store, total)
        } else {
            self.state = State::Receiving;
            let missing = store.missing_chunks(self.hash, total);
            let mut actions: Vec<Action> = Vec::new();
            actions.push(Action::Send(Message::SyncRequest { hash: self.hash, missing }));
            assert(action_views(actions@) =~= requested(
                old(self)@,
                store.dir(old(self).hash),
            ).actions);
            actions
        }
    }

    fn receive(&mut self, store: &mut ChunkStore, message: Message) -> (actions: Vec<Action>)
        ensures
            final(self)@ == received(old(self)@, old(store).dir(old(self).hash), message@).session,
            final(store).dir(old(self).hash) == received(
                old(self)@,
                old(store).dir(old(self).hash),
                message@,
            ).dir,
            final(store).same_but(*old(store), old(self).hash),
            action_views(actions@) == received(
                old(self)@,
                old(store).dir(old(self).hash),
                message@,
            ).actions,
    {
        let limit = self.limit();
        match message {
            Message::Metadata { total_chunks, .. } => {
                let clash = match self.total_chunks {
                    Some(known) => known != total_chunks,
                    None => false,
                };
                if clash {
                    self.fail(TransferError::ProtocolViolation)
                } else {
                    self.total_chunks = Some(total_chunks);
                    self.request(store)
                }
            },
            Message::ChunkData { index, payload, .. } => {
                if self.total_chunks.is_some() && index >= limit {
                    self.fail(TransferError::ProtocolViolation)
                } else if store.chunk_exists(self.hash, index) {
                    if self.state == State::Holding {
                        self.state = State::Receiving;
                    }
                    let mut actions: Vec<Action> = Vec::new();
                    actions.push(Action::Send(Message::Ack { hash: self.hash, index }));
                    assert(action_views(actions@) =~= seq![
                        ActionView::Send(MessageView::Ack { hash: self.hash, index }),
                    ]);
                    actions
                } else {
                    let _ = store.store_chunk(self.hash, index, payload);
                    let mut actions: Vec<Action> = Vec::new();
                    actions.push(Action::Send(Message::Ack { hash: self.hash, index }));
                    let mut rest = self.advance(store);
                    let ghost tail = action_views(rest@);
                    actions.append(&mut rest);
                    assert(action_views(actions@) =~= seq![
                        ActionView::Send(MessageView::Ack { hash: self.hash, index }),
                    ] + tail);
                    actions
                }
            },
            Message::ExportRequest { dest_path, mode, .. } => {
                self.export = Some(ExportTarget { dest_path, mode });
                self.advance(store)
            },
            Message::Error { reason, .. } => {
                self.state = State::Failed;
                self.failure = Some(reason);
                let actions: Vec<Action> = Vec::new();
                assert(action_views(actions@) =~= Seq::<ActionView>::empty());
                actions
            },
            _ => {
                if self.state == State::Done {
                    let actions: Vec<Action> = Vec::new();
                    assert(action_views(actions@) =~= Seq::<ActionView>::empty());
                    actions
                } else {
                    self.fail(TransferError::ProtocolViolation)
                }
            },
        }
    }

    fn serve(&mut self, store: &ChunkStore, indices: Vec<u64>) -> (actions: Vec<Action>)
        ensures
            final(self)@ == served(old(self)@, store.dir(old(self).hash), indices@).session,
            action_views(actions@) == served(
                old(self)@,
                store.dir(old(self).hash),
                indices@,
            ).actions,
    {
        let limit = self.limit();
        if !all_below(&indices, limit) {
            self.fail(TransferError::ProtocolViolation)
        } else {
            match self.chunk_messages(store, &indices) {
                Some(actions) => {
                    self.outstanding = indices;
                    actions
                },
                None => self.fail(TransferError::IncompleteTransfer),
            }
        }
    }

    fn answer(&mut self, store: &ChunkStore, message: Message) -> (actions: Vec<Action>)
        ensures
            final(self)@ == answered(old(self)@, store.dir(old(self).hash), message@).session,
            action_views(actions@) == answered(
                old(self)@,
                store.dir(old(self).hash),
                message@,
            ).actions,
    {
        let limit = self.limit();
        match message {
            Message::SyncRequest { missing, .. } => self.serve(store, missing),
            Message::Nak { index, .. } => {
                if index >= limit {
                    self.fail(TransferError::ProtocolViolation)
                } else {
                    match store.chunk(self.hash, index) {
                        Some(payload) => {
                            add_index(&mut self.outstanding, index);
                            let mut actions: Vec<Action> = Vec::new();
                            let message = Message::ChunkData { hash: self.hash, index, payload };
                            actions.push(Action::Send(message));
                            assert(action_views(actions@) =~= chunk_actions(
                                self.hash,
                                store.dir(self.hash),
                                seq![index],
                            ));
                            actions
                        },
                        None => self.fail(TransferError::IncompleteTransfer),
                    }
                }
            },
            Message::Ack { index, .. } => {
                if index >= limit {
                    self.fail(TransferError::ProtocolViolation)
                } else {
                    self.outstanding = remove_index(&self.outstanding, index);
                    let actions: Vec<Action> = Vec::new();
                    assert(action_views(actions@) =~= Seq::<ActionView>::empty());
                    actions
                }
            },
            Message::Done { .. } => {
                self.state = State::Done;
                self.outstanding = Vec::new();
                let actions: Vec<Action> = Vec::new();
                assert(action_views(actions@) =~= Seq::<ActionView>::empty());
                actions
            },
            Message::Error { reason, .. } => {
                self.state = State::Failed;
                self.failure = Some(reason);
                let actions: Vec<Action> = Vec::new();
                assert(action_views(actions@) =~= Seq::<ActionView>::empty());
                actions
            },
            _ => self.fail(TransferError::ProtocolViolation),
        }
    }

    fn on_timeout(&mut self, store: &ChunkStore) -> (actions: Vec<Action>)
        ensures
            final(self)@ == timed_out(old(self)@, store.dir(old(self).hash)).session,
            action_views(actions@) == timed_out(old(self)@, store.dir(old(self).hash)).actions,
    {
        if self.state == State::Transmitting {
            if self.outstanding.len() == 0 {
                self.announce()
            } else {
                match self.chunk_messages(store, &self.outstanding) {
                    Some(actions) => actions,
                    None => self.fail(TransferError::IncompleteTransfer),
                }
            }
        } else if self.state == State::Receiving && self.total_chunks.is_some() {
            self.request(store)
        } else {
            let actions: Vec<Action> = Vec::new();
            assert(action_views(actions@) =~= Seq::<ActionView>::empty());
            actions
        }
    }

    /// Takes one event and answers with the actions to perform, in order.
    ///
    /// The session and the chunk directory of its hash change as
    /// `transition` says; no other directory of the store changes.
    pub fn step(&mut self, store: &mut ChunkStore, event: Event) -> (actions: Vec<Action>)
        ensures
            final(self)@ == transition(old(self)@, old(store).dir(old(self).hash), event@).session,
            final(store).dir(old(self).hash) == transition(
                old(self)@,
                old(store).dir(old(self).hash),
                event@,
            ).dir,
            final(store).same_but(*old(store), old(self).hash),
            action_views(actions@) == transition(
                old(self)@,
                old(store).dir(old(self).hash),
                event@,
            ).actions,
    {
        if self.state == State::Failed {
            let actions: Vec<Action> = Vec::new();
            assert(action_views(actions@) =~= Seq::<ActionView>::empty());
            return actions;
        }
        match event {
            Event::Failure(kind) => self.fail(kind),
            Event::Timeout => self.on_timeout(store),
            Event::Received(message) => {
                if message.hash() != self.hash {
                    let actions: Vec<Action> = Vec::new();
                    assert(action_views(actions@) =~= Seq::<ActionView>::empty());
                    actions
                } else if self.state == State::Transmitting {
                    self.answer(store, message)
                } else {
                    self.receive(store, message)
                }
            },
        }
    }

    /// How a run of the engine ended.
    pub fn verdict(&self) -> (result: Result<(), TransferError>)
        ensures
            result == verdict(self@),
    {
        if self.state == State::Done {
            Ok(())
        } else if self.state == State::Failed {
            match self.failure {
                Some(kind) => Err(kind),
                None => Err(TransferError::ProtocolViolation),
            }
        } else {
            Err(TransferError::Timeout)
        }
    }

    /// Runs the engine over `events`: one step for each event, in order,
    /// until the session is `Done` or `Failed`, the events are used up, or
    /// more than `patience` receives in a row have timed out.
    ///
    /// Hands back the actions of all steps, in order, and how the run ended.
    /// A run that ends with the session neither `Done` nor `Failed` ends in
    /// `Timeout`.
    pub fn message_engine(
        &mut self,
        store: &mut ChunkStore,
        events: Vec<Event>,
        patience: u64,
    ) -> (ended: (Vec<Action>, Result<(), TransferError>))
        ensures
            final(self)@ == run(
                old(self)@,
                old(store).dir(old(self).hash),
                event_views(events@),
                0,
                patience,
            ).session,
            final(store).dir(old(self).hash) == run(
                old(self)@,
                old(store).dir(old(self).hash),
                event_views(events@),
                0,
                patience,
            ).dir,
            final(store).same_but(*old(store), old(self).hash),
            action_views(ended.0@) == run(
                old(self)@,
                old(store).dir(old(self).hash),
                event_views(events@),
                0,
                patience,
            ).actions,
            ended.1 == verdict(final(self)@),
    {
        let ghost all = event_views(events@);
        let ghost goal = run(old(self)@, old(store).dir(old(self).hash), all, 0, patience);
        let mut actions: Vec<Action> = Vec::new();
        let mut idle: u64 = 0;
        let mut events = reversed(events);
        let mut stopped = false;
        let ghost mut done: int = 0;
        assert(all.skip(0) =~= all);
        assert(action_views(actions@) =~= Seq::<ActionView>::empty());
        while !stopped && events.len() > 0 && !self.is_terminal()
            invariant
                self.hash == old(self).hash,
                0 <= done <= all.len(),
                events@.len() == all.len() - done,
                forall|j: int|
                    0 <= j < events@.len() ==> (#[trigger] events@[j])@ == all[all.len() - 1 - j],
                store.same_but(*old(store), old(self).hash),
                !stopped ==> goal.session == run(
                    self@,
                    store.dir(self.hash),
                    all.skip(done),
                    idle,
                    patience,
                ).session,
                !stopped ==> goal.dir == run(
                    self@,
                    store.dir(self.hash),
                    all.skip(done),
                    idle,
                    patience,
                ).dir,
                !stopped ==> goal.actions == action_views(actions@) + run(
                    self@,
                    store.dir(self.hash),
                    all.skip(done),
                    idle,
                    patience,
                ).actions,
                stopped ==> goal.session == self@ && goal.dir == store.dir(self.hash)
                    && goal.actions == action_views(actions@),
            decreases events@.len() + (if stopped { 0int } else { 1int }),
        {
            let ghost rest = all.skip(done);
            let ghost before_store = *store;
            let top = events.len() - 1;
            assert(events@[top as int]@ == rest[0]);
            match next_idle(idle, patience, &events[top]) {
                None => {
                    stopped = true;
                    assert(run(self@, store.dir(self.hash), rest, idle, patience).actions
                        =~= Seq::<ActionView>::empty());
                    assert(goal.actions =~= action_views(actions@));
                },
                Some(next) => {
                    let event = match events.pop() {
                        Some(event) => event,
                        None => Event::Timeout,
                    };
                    let ghost here = self@;
                    let ghost here_dir = store.dir(self.hash);
                    let ghost so_far = action_views(actions@);
                    let mut more = self.step(store, event);
                    let ghost first = transition(here, here_dir, rest[0]);
                    assert(action_views(more@) == first.actions);
                    actions.append(&mut more);
                    assert(action_views(actions@) =~= so_far + first.actions);
                    proof {
                        assert(rest.skip(1) =~= all.skip(done + 1));
                        let tail = run(first.session, first.dir, rest.skip(1), next, patience);
                        assert(run(here, here_dir, rest, idle, patience).actions == first.actions
                            + tail.actions);
                        assert(goal.actions =~= (so_far + first.actions) + tail.actions);
                        assert forall|h: ContentHash|
                            h != old(self).hash implies #[trigger] store.dir(h) == old(
                            store,
                        ).dir(h) by {
                            assert(before_store.dir(h) == old(store).dir(h));
                        }
                        done = done + 1;
                    }
                    idle = next;
                },
            }
        }
        proof {
            if !stopped {
                let left = run(self@, store.dir(self.hash), all.skip(done), idle, patience);
                assert(left.actions =~= Seq::<ActionView>::empty());
                assert(goal.actions =~= action_views(actions@));
            }
        }
        let result = self.verdict();
        (actions, result)
    }
}

/// The count of receive timeouts in a row after `event`, or `None` where
/// `event` is one timeout too many: `patience` in a row are put up with.
pub fn next_idle(idle: u64, patience: u64, event: &Event) -> (next: Option<u64>)
    ensures
        next == paced(idle, patience, event@),
{
    match event {
        Event::Timeout => {
            if idle >= patience {
                None
            } else {
                Some(idle + 1)
            }
        },
        _ => Some(0),
    }
}

} // verus!
