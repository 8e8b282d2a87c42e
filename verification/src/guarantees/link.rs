//! One transfer over a link that may lose, repeat and reorder: an
//! invariant that holds whatever the link does.

use crate::chunks::chunk_count;
use crate::error::TransferError;
use crate::guarantees::delivery::{
    fits_file, from_sender, lemma_finished_writes, lemma_receive_step,
    lemma_sound_file_reassembles, writes_only,
};
use crate::guarantees::exchange::{lemma_chunks_are_the_files, lemma_sender_step, sends_file};
use crate::hash::content_hash;
use crate::messages::MessageView;
use crate::protocol::{
    announcement, answered, fresh, in_range, received, sending, timed_out, transition, unchanged,
    ActionView, EventView, SessionView, State,
};
use crate::storage::{agrees, assemble, complete, lemma_missing_below, missing_below, reassembled};
use vstd::prelude::*;

verus! {

/// Whether `message` is one that a receiver of the file `data` sends to its
/// sender: the acknowledgement of a chunk of the file, a request for chunks
/// of the file, or the word that it is done.
pub open spec fn from_receiver(message: MessageView, data: Seq<u8>, size: nat) -> bool {
    match message {
        MessageView::Ack { hash, index } => hash == content_hash(data) && index < chunk_count(
            data.len(),
            size,
        ),
        MessageView::SyncRequest { hash, missing } => hash == content_hash(data) && in_range(
            missing,
            chunk_count(data.len(), size) as u64,
        ),
        MessageView::Done { hash } => hash == content_hash(data),
        _ => false,
    }
}

/// The messages that `actions` sends.
pub open spec fn sent(actions: Seq<ActionView>) -> Set<MessageView> {
    Set::new(
        |message: MessageView|
            exists|k: int|
                0 <= k < actions.len() && #[trigger] actions[k] == ActionView::Send(message),
    )
}

/// One transfer over a link, seen from outside: both sessions with their
/// directories, every message ever sent in either direction, and every
/// action the receiver has answered with.
///
/// A message that was sent may arrive at any time, any number of times, or
/// never: the link may lose, repeat and reorder.
pub struct Link {
    pub sender: SessionView,
    pub sender_dir: Map<u64, Seq<u8>>,
    pub receiver: SessionView,
    pub receiver_dir: Map<u64, Seq<u8>>,
    pub to_receiver: Set<MessageView>,
    pub to_sender: Set<MessageView>,
    pub receiver_actions: Seq<ActionView>,
}

/// The link after the receiver has taken `event`.
pub open spec fn receiver_takes(link: Link, event: EventView) -> Link {
    let out = transition(link.receiver, link.receiver_dir, event);
    Link {
        receiver: out.session,
        receiver_dir: out.dir,
        to_sender: link.to_sender.union(sent(out.actions)),
        receiver_actions: link.receiver_actions + out.actions,
        ..link
    }
}

/// The link after the sender has taken `event`.
pub open spec fn sender_takes(link: Link, event: EventView) -> Link {
    let out = transition(link.sender, link.sender_dir, event);
    Link {
        sender: out.session,
        sender_dir: out.dir,
        to_receiver: link.to_receiver.union(sent(out.actions)),
        ..link
    }
}

/// Whether `after` is what one step makes of `before`: either side takes a
/// message that was sent to it at some time, or its receive times out.
pub open spec fn link_step(before: Link, after: Link) -> bool {
    ||| after == receiver_takes(before, EventView::Timeout)
    ||| after == sender_takes(before, EventView::Timeout)
    ||| exists|message: MessageView| #[trigger]
        before.to_receiver.contains(message) && after == receiver_takes(
            before,
            EventView::Received(message),
        )
    ||| exists|message: MessageView| #[trigger]
        before.to_sender.contains(message) && after == sender_takes(
            before,
            EventView::Received(message),
        )
}

/// The link at the start of an upload of `data` to a receiver that has not
/// heard of the file and holds the chunks in `receiver_dir`.
pub open spec fn link_start(
    data: Seq<u8>,
    size: nat,
    dest_path: Seq<u8>,
    mode: u32,
    sender_dir: Map<u64, Seq<u8>>,
    receiver_dir: Map<u64, Seq<u8>>,
) -> Link {
    let hash = content_hash(data);
    let sender = sending(hash, chunk_count(data.len(), size) as u64, Some((dest_path, mode)));
    Link {
        sender,
        sender_dir,
        receiver: fresh(hash),
        receiver_dir,
        to_receiver: sent(announcement(sender)),
        to_sender: Set::empty(),
        receiver_actions: Seq::empty(),
    }
}

/// Whether all is well on the link: neither side has failed, both fit the
/// file `data`, a receiver that is `Done` holds every chunk, every message
/// in flight is one that its sender sends for `data`, and nothing but `data`
/// was written out.
pub open spec fn link_safe(link: Link, data: Seq<u8>, size: nat) -> bool {
    &&& link.sender.state == State::Transmitting || link.sender.state == State::Done
    &&& sends_file(link.sender, link.sender_dir, data, size)
    &&& fits_file(link.receiver, link.receiver_dir, data, size)
    &&& (link.receiver.state == State::Done ==> complete(
        link.receiver_dir,
        chunk_count(data.len(), size),
    ))
    &&& forall|message: MessageView| #[trigger]
        link.to_receiver.contains(message) ==> from_sender(message, data, size)
    &&& forall|message: MessageView| #[trigger]
        link.to_sender.contains(message) ==> from_receiver(message, data, size)
    &&& writes_only(link.receiver_actions, data)
}

/// A receiver answers the sender of its file with nothing but
/// acknowledgements of chunks of the file, requests for chunks of the file,
/// and the word that it is done.
pub proof fn lemma_receiver_replies(
    s: SessionView,
    dir: Map<u64, Seq<u8>>,
    event: EventView,
    data: Seq<u8>,
    size: nat,
)
    requires
        size > 0,
        chunk_count(data.len(), size) <= u64::MAX,
        fits_file(s, dir, data, size),
        event is Timeout || (event matches EventView::Received(message) && from_sender(
            message,
            data,
            size,
        )),
    ensures
        ({
            let out = transition(s, dir, event);
            &&& fits_file(out.session, out.dir, data, size)
            &&& writes_only(out.actions, data)
            &&& ((s.state == State::Done ==> complete(dir, chunk_count(data.len(), size)))
                ==> (out.session.state == State::Done ==> complete(
                out.dir,
                chunk_count(data.len(), size),
            )))
            &&& forall|message: MessageView| #[trigger]
                sent(out.actions).contains(message) ==> from_receiver(message, data, size)
        }),
{
    let total = chunk_count(data.len(), size);
    let out = transition(s, dir, event);
    lemma_missing_below(dir, total);
    assert(in_range(missing_below(dir, total), total as u64)) by {
        let gaps = missing_below(dir, total);
        assert forall|k: int| 0 <= k < gaps.len() implies gaps[k] < total as u64 by {
            assert(gaps.contains(gaps[k]));
        }
    }
    match event {
        EventView::Received(message) => {
            lemma_receive_step(s, dir, message, data, size);
            assert(out == received(s, dir, message));
            match message {
                MessageView::Metadata { total_chunks, .. } => {
                    let known = SessionView { total_chunks: Some(total_chunks), ..s };
                    if complete(dir, total) {
                        lemma_finished_writes(known, dir, data, size);
                    }
                },
                MessageView::ChunkData { index, payload, .. } => {
                    if !dir.contains_key(index) {
                        let more = dir.insert(index, payload);
                        if s.total_chunks is Some && complete(more, total) {
                            lemma_finished_writes(s, more, data, size);
                        }
                    }
                },
                MessageView::ExportRequest { dest_path, mode, .. } => {
                    let asked = SessionView { export: Some((dest_path, mode)), ..s };
                    if s.total_chunks is Some && complete(dir, total) {
                        lemma_finished_writes(asked, dir, data, size);
                    }
                },
                _ => {},
            }
        },
        _ => {
            assert(out == timed_out(s, dir));
            if s.state == State::Receiving && s.total_chunks is Some {
                assert(!complete(dir, total));
            }
        },
    }
}

/// A sender takes the answers of its receiver without failing, and goes on
/// sending nothing but its file.
pub proof fn lemma_sender_takes_replies(
    s: SessionView,
    dir: Map<u64, Seq<u8>>,
    event: EventView,
    data: Seq<u8>,
    size: nat,
)
    requires
        size > 0,
        chunk_count(data.len(), size) <= u64::MAX,
        s.state == State::Transmitting || s.state == State::Done,
        sends_file(s, dir, data, size),
        event is Timeout || (event matches EventView::Received(message) && from_receiver(
            message,
            data,
            size,
        )),
    ensures
        ({
            let out = transition(s, dir, event);
            &&& out.session.state == State::Transmitting || out.session.state == State::Done
            &&& out.dir == dir
            &&& sends_file(out.session, out.dir, data, size)
            &&& forall|message: MessageView| #[trigger]
                sent(out.actions).contains(message) ==> from_sender(message, data, size)
        }),
{
    let total = chunk_count(data.len(), size) as u64;
    let out = transition(s, dir, event);
    if s.state == State::Transmitting {
        lemma_sender_step(s, dir, event, data, size);
        match event {
            EventView::Received(message) => {
                assert(out == answered(s, dir, message));
                match message {
                    MessageView::SyncRequest { missing, .. } => {
                        lemma_chunks_are_the_files(s.hash, dir, missing, data, size);
                    },
                    _ => {},
                }
            },
            _ => {
                assert(out == timed_out(s, dir));
                if s.outstanding.len() > 0 {
                    lemma_chunks_are_the_files(s.hash, dir, s.outstanding, data, size);
                }
            },
        }
        assert forall|message: MessageView| #[trigger]
            sent(out.actions).contains(message) implies from_sender(message, data, size) by {
            let k = choose|k: int|
                0 <= k < out.actions.len() && #[trigger] out.actions[k] == ActionView::Send(
                    message,
                );
            assert(!(message is Error));
        }
    } else {
        assert(out == unchanged(s, dir));
    }
}

/// An upload starts out well.
pub proof fn lemma_link_starts_safe(
    data: Seq<u8>,
    size: nat,
    dest_path: Seq<u8>,
    mode: u32,
    sender_dir: Map<u64, Seq<u8>>,
    receiver_dir: Map<u64, Seq<u8>>,
)
    requires
        size > 0,
        chunk_count(data.len(), size) <= u64::MAX,
        complete(sender_dir, chunk_count(data.len(), size)),
        agrees(sender_dir, data, size),
        agrees(receiver_dir, data, size),
    ensures
        link_safe(link_start(data, size, dest_path, mode, sender_dir, receiver_dir), data, size),
{
    let link = link_start(data, size, dest_path, mode, sender_dir, receiver_dir);
    assert forall|message: MessageView| #[trigger]
        link.to_receiver.contains(message) implies from_sender(message, data, size) by {
        let actions = announcement(link.sender);
        let k = choose|k: int|
            0 <= k < actions.len() && #[trigger] actions[k] == ActionView::Send(message);
    }
}

/// Whatever the link does, all stays well.
///
/// Let the link lose, repeat and reorder as it will, and let receives time
/// out at will: after any step, neither side has failed, both still fit the
/// file, every message in flight is still one for the file, and nothing but
/// the file was written out.
pub proof fn lemma_link_stays_safe(before: Link, after: Link, data: Seq<u8>, size: nat)
    requires
        size > 0,
        chunk_count(data.len(), size) <= u64::MAX,
        link_safe(before, data, size),
        link_step(before, after),
    ensures
        link_safe(after, data, size),
{
    if after == receiver_takes(before, EventView::Timeout) {
        lemma_receiver_safe(before, EventView::Timeout, data, size);
    } else if after == sender_takes(before, EventView::Timeout) {
        lemma_sender_takes_replies(
            before.sender,
            before.sender_dir,
            EventView::Timeout,
            data,
            size,
        );
    } else if exists|message: MessageView| #[trigger]
        before.to_receiver.contains(message) && after == receiver_takes(
            before,
            EventView::Received(message),
        ) {
        let message = choose|message: MessageView| #[trigger]
            before.to_receiver.contains(message) && after == receiver_takes(
                before,
                EventView::Received(message),
            );
        lemma_receiver_safe(before, EventView::Received(message), data, size);
    } else {
        let message = choose|message: MessageView| #[trigger]
            before.to_sender.contains(message) && after == sender_takes(
                before,
                EventView::Received(message),
            );
        lemma_sender_takes_replies(
            before.sender,
            before.sender_dir,
            EventView::Received(message),
            data,
            size,
        );
    }
}

proof fn lemma_receiver_safe(before: Link, event: EventView, data: Seq<u8>, size: nat)
    requires
        size > 0,
        chunk_count(data.len(), size) <= u64::MAX,
        link_safe(before, data, size),
        event is Timeout || (event matches EventView::Received(message) && from_sender(
            message,
            data,
            size,
        )),
    ensures
        link_safe(receiver_takes(before, event), data, size),
{
    let after = receiver_takes(before, event);
    let out = transition(before.receiver, before.receiver_dir, event);
    lemma_receiver_replies(before.receiver, before.receiver_dir, event, data, size);
    assert(writes_only(after.receiver_actions, data)) by {
        assert forall|k: int| 0 <= k < after.receiver_actions.len() implies (
        #[trigger] after.receiver_actions[k] matches ActionView::Export { content, .. }
            ==> content == data) by {
            if k < before.receiver_actions.len() {
                assert(after.receiver_actions[k] == before.receiver_actions[k]);
            } else {
                assert(after.receiver_actions[k] == out.actions[k
                    - before.receiver_actions.len()]);
            }
        }
    }
}

/// Where all is well and the receiver is `Done`, it holds the file: every
/// chunk is there, and put together they are `data`.
pub proof fn lemma_done_means_delivered(link: Link, data: Seq<u8>, size: nat)
    requires
        size > 0,
        chunk_count(data.len(), size) <= u64::MAX,
        link_safe(link, data, size),
        link.receiver.state == State::Done,
    ensures
        complete(link.receiver_dir, chunk_count(data.len(), size)),
        assemble(link.receiver_dir, chunk_count(data.len(), size)) == data,
        reassembled(link.receiver_dir, content_hash(data), chunk_count(data.len(), size)) == Ok::<
            Seq<u8>,
            TransferError,
        >(data),
{
    lemma_sound_file_reassembles(link.receiver_dir, data, size);
}

} // verus!
