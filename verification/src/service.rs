//! The service: one chunk store and the table of sessions, one for each
//! content hash.
//!
//! Every event goes to the session of its hash, which is created when the
//! hash is first seen. A session works on the chunk directory of its own hash
//! and on nothing else, so transfers of different files do not touch each
//! other, in whatever order their messages arrive.

use crate::chunks::chunk_count;
use crate::codec::{decode, decoded, DecodeError};
use crate::hash::{content_hash, ContentHash};
use crate::messages::{Message, MessageView};
use crate::protocol::{
    action_views, announcement, fresh, lemma_transition_keeps_hash, sending, transition, Action,
    ActionView, Event, EventView, ExportTarget, Session, SessionView, State,
};
use crate::storage::{fill, ChunkStore};
use std::collections::HashMap;
use vstd::prelude::*;

verus! {

broadcast use vstd::std_specs::hash::group_hash_axioms;

/// What a service holds: the chunk size of its store, its sessions by hash,
/// and its chunk directories by hash.
pub struct ServiceView {
    pub chunk_size: nat,
    pub sessions: Map<ContentHash, SessionView>,
    pub dirs: Map<ContentHash, Map<u64, Seq<u8>>>,
}

impl ServiceView {
    /// The session of `hash`; a fresh one where there is none yet.
    pub open spec fn session_of(self, hash: ContentHash) -> SessionView {
        if self.sessions.contains_key(hash) {
            self.sessions[hash]
        } else {
            fresh(hash)
        }
    }

    /// The chunks held for `hash`; none where there is no directory.
    pub open spec fn dir_of(self, hash: ContentHash) -> Map<u64, Seq<u8>> {
        if self.dirs.contains_key(hash) {
            self.dirs[hash]
        } else {
            Map::empty()
        }
    }

    /// The service after the session of `hash` has taken `event`.
    pub open spec fn handled(self, hash: ContentHash, event: EventView) -> ServiceView {
        let out = transition(self.session_of(hash), self.dir_of(hash), event);
        ServiceView {
            chunk_size: self.chunk_size,
            sessions: self.sessions.insert(hash, out.session),
            dirs: self.dirs.insert(hash, out.dir),
        }
    }

    /// The actions that the session of `hash` answers `event` with.
    pub open spec fn answer(self, hash: ContentHash, event: EventView) -> Seq<ActionView> {
        transition(self.session_of(hash), self.dir_of(hash), event).actions
    }

    /// The service after `messages` have been dispatched, in order.
    pub open spec fn delivered(self, messages: Seq<MessageView>) -> ServiceView
        decreases messages.len(),
    {
        if messages.len() == 0 {
            self
        } else {
            self.delivered(messages.drop_last()).handled(
                messages.last().hash(),
                EventView::Received(messages.last()),
            )
        }
    }

    /// The service after an upload of `data` has been started: the chunks
    /// of `data` that were absent are stored, and a new sending session
    /// stands for its hash.
    pub open spec fn uploading(self, data: Seq<u8>, dest_path: Seq<u8>, mode: u32) -> ServiceView {
        let hash = content_hash(data);
        ServiceView {
            chunk_size: self.chunk_size,
            sessions: self.sessions.insert(
                hash,
                sending(
                    hash,
                    chunk_count(data.len(), self.chunk_size) as u64,
                    Some((dest_path, mode)),
                ),
            ),
            dirs: self.dirs.insert(hash, fill(self.dir_of(hash), data, self.chunk_size)),
        }
    }

    /// The service after the session of `hash` has been closed. Its chunks
    /// stay.
    pub open spec fn closed(self, hash: ContentHash) -> ServiceView {
        ServiceView {
            chunk_size: self.chunk_size,
            sessions: self.sessions.remove(hash),
            dirs: self.dirs,
        }
    }
}

/// The receiving side's dispatcher: a chunk store and one session for each
/// content hash seen.
#[derive(Clone, Debug, PartialEq, Eq)]
pub struct Service {
    sessions: HashMap<u128, Session>,
    store: ChunkStore,
}

impl View for Service {
    type V = ServiceView;

    closed spec fn view(&self) -> ServiceView {
        ServiceView {
            chunk_size: self.store.chunk_size(),
            sessions: Map::new(
                |h: ContentHash| self.sessions@.contains_key(h.value),
                |h: ContentHash| self.sessions@[h.value]@,
            ),
            dirs: Map::total(|h: ContentHash| self.store.dir(h)),
        }
    }
}

impl Service {
    /// Every session stands in the table under its own hash.
    pub closed spec fn wf(&self) -> bool {
        forall|key: u128| #[trigger]
            self.sessions@.contains_key(key) ==> self.sessions@[key].hash.value == key
    }

    /// A service without sessions on `store`.
    pub fn new(store: ChunkStore) -> (service: Service)
        ensures
            service.wf(),
            service@.chunk_size == store.chunk_size(),
            service@.sessions == Map::<ContentHash, SessionView>::empty(),
            forall|h: ContentHash| #[trigger] service@.dir_of(h) == store.dir(h),
    {
        let service = Service { sessions: HashMap::new(), store };
        assert(service@.sessions =~= Map::<ContentHash, SessionView>::empty());
        service
    }

    /// The chunk store.
    pub fn store(&self) -> (store: &ChunkStore)
        ensures
            store.chunk_size() == self@.chunk_size,
            forall|h: ContentHash| #[trigger] store.dir(h) == self@.dir_of(h),
    {
        &self.store
    }

    /// The state of the session of `hash`, if there is one.
    pub fn state(&self, hash: ContentHash) -> (state: Option<State>)
        ensures
            state is Some <==> self@.sessions.contains_key(hash),
            state matches Some(s) ==> s == self@.sessions[hash].state,
    {
        match self.sessions.get(&hash.value) {
            Some(session) => Some(session.state),
            None => None,
        }
    }

    /// The session of `hash`, if there is one.
    pub fn session(&self, hash: ContentHash) -> (session: Option<&Session>)
        ensures
            session is Some <==> self@.sessions.contains_key(hash),
            session matches Some(s) ==> s@ == self@.sessions[hash],
    {
        self.sessions.get(&hash.value)
    }

    /// Takes the session of `hash` out of the table; a fresh one where there
    /// is none.
    fn take_session(&mut self, hash: ContentHash) -> (session: Session)
        requires
            old(self).wf(),
        ensures
            final(self).wf(),
            session.hash == hash,
            session@ == old(self)@.session_of(hash),
            final(self)@.sessions == old(self)@.sessions.remove(hash),
            final(self)@.dirs == old(self)@.dirs,
            final(self)@.chunk_size == old(self)@.chunk_size,
            final(self).store == old(self).store,
    {
        let held = self.sessions.remove(&hash.value);
        assert(self@.sessions =~= old(self)@.sessions.remove(hash)) by {
            assert forall|h: ContentHash| h != hash implies h.value != hash.value by {}
        }
        match held {
            Some(session) => session,
            None => Session::new(hash),
        }
    }

    /// Puts `session` in the table as the session of `hash`.
    fn put_session(&mut self, hash: ContentHash, session: Session)
        requires
            old(self).wf(),
            session.hash == hash,
        ensures
            final(self).wf(),
            final(self)@.sessions == old(self)@.sessions.insert(hash, session@),
            final(self)@.dirs == old(self)@.dirs,
            final(self)@.chunk_size == old(self)@.chunk_size,
            final(self).store == old(self).store,
    {
        let _ = self.sessions.insert(hash.value, session);
        assert(self@.sessions =~= old(self)@.sessions.insert(hash, session@)) by {
            assert forall|h: ContentHash| h != hash implies h.value != hash.value by {}
        }
    }

    /// Hands `event` to the session of `hash`, which is created where there
    /// is none, and answers with the session's actions. Nothing of any other
    /// hash changes.
    pub fn handle(&mut self, hash: ContentHash, event: Event) -> (actions: Vec<Action>)
        requires
            old(self).wf(),
        ensures
            final(self).wf(),
            final(self)@ == old(self)@.handled(hash, event@),
            action_views(actions@) == old(self)@.answer(hash, event@),
    {
        let mut session = self.take_session(hash);
        let ghost before = self.store;
        proof {
            lemma_transition_keeps_hash(session@, self.store.dir(hash), event@);
        }
        let actions = session.step(&mut self.store, event);
        assert(self@.dirs =~= old(self)@.dirs.insert(hash, self.store.dir(hash))) by {
            assert forall|h: ContentHash| h != hash implies self.store.dir(h) == before.dir(h) by {}
        }
        self.put_session(hash, session);
        assert(self@.sessions =~= old(self)@.sessions.insert(hash, session@));
        actions
    }

    /// Hands `message` to the session of its hash.
    pub fn dispatch(&mut self, message: Message) -> (actions: Vec<Action>)
        requires
            old(self).wf(),
        ensures
            final(self).wf(),
            final(self)@ == old(self)@.handled(message@.hash(), EventView::Received(message@)),
            action_views(actions@) == old(self)@.answer(
                message@.hash(),
                EventView::Received(message@),
            ),
    {
        let hash = message.hash();
        self.handle(hash, Event::Received(message))
    }

    /// Takes one datagram from the link: decodes it and hands the message
    /// to the session of its hash. A datagram that is no message changes
    /// nothing and is answered with the reason.
    pub fn receive(&mut self, datagram: &[u8]) -> (answered: Result<Vec<Action>, DecodeError>)
        requires
            old(self).wf(),
        ensures
            final(self).wf(),
            match answered {
                Ok(actions) => decoded(datagram@) matches Ok(message) && final(self)@ == old(
                    self,
                )@.handled(message.hash(), EventView::Received(message)) && action_views(actions@)
                    == old(self)@.answer(message.hash(), EventView::Received(message)),
                Err(reason) => decoded(datagram@) == Err::<MessageView, DecodeError>(reason)
                    && final(self)@ == old(self)@,
            },
    {
        match decode(datagram) {
            Ok(message) => Ok(self.dispatch(message)),
            Err(reason) => Err(reason),
        }
    }

    /// Starts an upload of `data`: cuts it into chunks and stores those that
    /// are absent, opens a sending session for its hash in place of any
    /// earlier session, and answers with the hash and the messages that
    /// announce the transfer to the peer.
    pub fn upload(&mut self, data: &[u8], dest_path: Vec<u8>, mode: u32) -> (started: (
        ContentHash,
        Vec<Action>,
    ))
        requires
            old(self).wf(),
        ensures
            final(self).wf(),
            started.0 == content_hash(data@),
            final(self)@ == old(self)@.uploading(data@, dest_path@, mode),
            action_views(started.1@) == announcement(final(self)@.sessions[started.0]),
    {
        let info = self.store.initialize_file(data);
        let hash = info.hash;
        let ghost before = old(self).store;
        assert(self@.dirs =~= old(self)@.dirs.insert(hash, self.store.dir(hash))) by {
            assert forall|h: ContentHash| h != hash implies self.store.dir(h) == before.dir(h) by {}
        }
        let _ = self.take_session(hash);
        let (session, actions) = Session::transmit(
            hash,
            info.total_chunks,
            Some(ExportTarget { dest_path, mode }),
        );
        self.put_session(hash, session);
        assert(self@.sessions =~= old(self)@.sessions.insert(hash, session@));
        (hash, actions)
    }

    /// Asks for the file `hash` to be written to `dest_path` with permission
    /// bits `mode` once it is complete: the session of `hash` takes this as
    /// it takes an `ExportRequest` from its peer.
    pub fn download(&mut self, hash: ContentHash, dest_path: Vec<u8>, mode: u32) -> (actions: Vec<
        Action,
    >)
        requires
            old(self).wf(),
        ensures
            final(self).wf(),
            final(self)@ == old(self)@.handled(
                hash,
                EventView::Received(
                    MessageView::ExportRequest { hash, dest_path: dest_path@, mode },
                ),
            ),
            action_views(actions@) == old(self)@.answer(
                hash,
                EventView::Received(
                    MessageView::ExportRequest { hash, dest_path: dest_path@, mode },
                ),
            ),
    {
        self.handle(hash, Event::Received(Message::ExportRequest { hash, dest_path, mode }))
    }

    /// Closes the session of `hash` and hands it back, if there was one. Its
    /// chunks stay in the store, so that a later transfer can resume.
    pub fn close(&mut self, hash: ContentHash) -> (session: Option<Session>)
        requires
            old(self).wf(),
        ensures
            final(self).wf(),
            final(self)@ == old(self)@.closed(hash),
            session is Some <==> old(self)@.sessions.contains_key(hash),
            session matches Some(s) ==> s@ == old(self)@.sessions[hash],
    {
        let held = self.sessions.remove(&hash.value);
        assert(self@.sessions =~= old(self)@.sessions.remove(hash)) by {
            assert forall|h: ContentHash| h != hash implies h.value != hash.value by {}
        }
        held
    }

    /// Ends the service and hands its chunk store back. The sessions are
    /// gone; the chunks stay, and a new service on the store resumes from
    /// them.
    pub fn into_store(self) -> (store: ChunkStore)
        ensures
            store.chunk_size() == self@.chunk_size,
            forall|h: ContentHash| #[trigger] store.dir(h) == self@.dir_of(h),
    {
        self.store
    }

    /// Puts a chunk that was found outside the service, on disk for one, in
    /// slot `index` of `hash`; says whether the slot was written. The
    /// sessions stay as they are.
    pub fn store_chunk(&mut self, hash: ContentHash, index: u64, payload: Vec<u8>) -> (written:
        bool)
        requires
            old(self).wf(),
        ensures
            final(self).wf(),
            final(self)@.sessions == old(self)@.sessions,
            final(self)@.chunk_size == old(self)@.chunk_size,
            final(self)@.dirs == old(self)@.dirs.insert(
                hash,
                old(self)@.dir_of(hash).insert(index, payload@),
            ),
            written == !(old(self)@.dir_of(hash).contains_key(index) && old(self)@.dir_of(
                hash,
            )[index] == payload@),
    {
        let ghost before = self.store;
        let written = self.store.store_chunk(hash, index, payload);
        assert(self@.dirs =~= old(self)@.dirs.insert(
            hash,
            old(self)@.dir_of(hash).insert(index, payload@),
        )) by {
            assert forall|h: ContentHash| h != hash implies self.store.dir(h) == before.dir(h) by {}
        }
        written
    }

    /// Deletes chunk `index` of `hash` from the store; says whether it was
    /// there. The sessions stay as they are.
    pub fn remove_chunk(&mut self, hash: ContentHash, index: u64) -> (removed: bool)
        requires
            old(self).wf(),
        ensures
            final(self).wf(),
            final(self)@.sessions == old(self)@.sessions,
            final(self)@.chunk_size == old(self)@.chunk_size,
            final(self)@.dirs == old(self)@.dirs.insert(
                hash,
                old(self)@.dir_of(hash).remove(index),
            ),
            removed == old(self)@.dir_of(hash).contains_key(index),
    {
        let ghost before = self.store;
        let removed = self.store.remove_chunk(hash, index);
        assert(self@.dirs =~= old(self)@.dirs.insert(hash, old(self)@.dir_of(hash).remove(index)))
            by {
            assert forall|h: ContentHash| h != hash implies self.store.dir(h) == before.dir(h) by {}
        }
        removed
    }

    /// Deletes every chunk of `hash` from the store.
    pub fn discard(&mut self, hash: ContentHash)
        requires
            old(self).wf(),
        ensures
            final(self).wf(),
            final(self)@.sessions == old(self)@.sessions,
            final(self)@.chunk_size == old(self)@.chunk_size,
            final(self)@.dirs == old(self)@.dirs.insert(hash, Map::<u64, Seq<u8>>::empty()),
    {
        let ghost before = self.store;
        self.store.remove_dir(hash);
        assert(self@.dirs =~= old(self)@.dirs.insert(hash, Map::<u64, Seq<u8>>::empty())) by {
            assert forall|h: ContentHash| h != hash implies self.store.dir(h) == before.dir(h) by {}
        }
    }
}

} // verus!
