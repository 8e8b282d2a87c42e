//! What a receiver makes of the messages of its sender.
//!
//! Whatever order the sender's messages arrive in, and however often, the
//! receiver ends up with the sender's file and with nothing else.

use crate::chunks::{chunk_count, chunk_of};
use crate::error::TransferError;
use crate::hash::content_hash;
use crate::messages::MessageView;
use crate::protocol::{
    advanced, export_actions, finished, fresh, received, requested, transition, unchanged,
    ActionView, EventView, Outcome, SessionView, State,
};
use crate::storage::{
    agrees, assemble, complete, fill, lemma_assemble_file, lemma_missing_below, missing_below,
    reassembled,
};
use vstd::prelude::*;

verus! {

/// Whether `message` is one that the sender of the file `data`, cut into
/// chunks of `size` bytes, sends to its receiver: the announcement of the
/// file, a request to write it out, or one of its chunks.
pub open spec fn from_sender(message: MessageView, data: Seq<u8>, size: nat) -> bool {
    match message {
        MessageView::Metadata { hash, total_chunks } => hash == content_hash(data) && total_chunks
            == chunk_count(data.len(), size),
        MessageView::ChunkData { hash, index, payload } => hash == content_hash(data) && index
            < chunk_count(data.len(), size) && payload == chunk_of(data, size, index as nat),
        MessageView::ExportRequest { hash, .. } => hash == content_hash(data),
        _ => false,
    }
}

/// Whether a receiving session and its directory fit the file `data`: the
/// session is for the hash of `data` and has not failed, every chunk held
/// is a chunk of `data`, the number of chunks, where known, is that of
/// `data`, and the session is `Done` where the number is known and every
/// chunk is held.
///
/// A session that was `Done` and has lost a chunk since fits its file too.
pub open spec fn fits_file(
    s: SessionView,
    dir: Map<u64, Seq<u8>>,
    data: Seq<u8>,
    size: nat,
) -> bool {
    let total = chunk_count(data.len(), size);
    &&& s.hash == content_hash(data)
    &&& (s.state == State::Holding || s.state == State::Receiving || s.state == State::Done)
    &&& agrees(dir, data, size)
    &&& (s.total_chunks is Some ==> s.total_chunks == Some(total as u64))
    &&& (s.state == State::Holding ==> s.total_chunks is None)
    &&& (s.state == State::Done ==> s.total_chunks is Some)
    &&& (s.total_chunks is Some && complete(dir, total) ==> s.state == State::Done)
}

/// Whether a receiver knows the number of chunks of `data` and holds them
/// all.
pub open spec fn settled(s: SessionView, dir: Map<u64, Seq<u8>>, data: Seq<u8>, size: nat) -> bool {
    s.total_chunks is Some && complete(dir, chunk_count(data.len(), size))
}

/// Whether `actions` asks for the file `data` to be written out to
/// `dest_path` with permission bits `mode`.
pub open spec fn writes_out(
    actions: Seq<ActionView>,
    dest_path: Seq<u8>,
    mode: u32,
    data: Seq<u8>,
) -> bool {
    exists|k: int|
        0 <= k < actions.len() && #[trigger] actions[k] == (ActionView::Export {
            dest_path,
            mode,
            content: data,
        })
}

/// Whether every file that `actions` asks to be written out is `data`.
pub open spec fn writes_only(actions: Seq<ActionView>, data: Seq<u8>) -> bool {
    forall|k: int|
        0 <= k < actions.len() ==> (#[trigger] actions[k] matches ActionView::Export {
            content,
            ..
        } ==> content == data)
}

/// Whether `after` holds every chunk that `before` holds, unchanged.
pub open spec fn keeps(before: Map<u64, Seq<u8>>, after: Map<u64, Seq<u8>>) -> bool {
    forall|i: u64| #[trigger]
        before.contains_key(i) ==> after.contains_key(i) && after[i] == before[i]
}

/// The outcome of a session taking `messages` one after the other; its
/// actions are those of all steps, in order.
pub open spec fn received_all(
    s: SessionView,
    dir: Map<u64, Seq<u8>>,
    messages: Seq<MessageView>,
) -> Outcome
    decreases messages.len(),
{
    if messages.len() == 0 {
        unchanged(s, dir)
    } else {
        let before = received_all(s, dir, messages.drop_last());
        let last = transition(before.session, before.dir, EventView::Received(messages.last()));
        Outcome { actions: before.actions + last.actions, ..last }
    }
}

/// Whether `messages` announces the file: holds a `Metadata` message.
pub open spec fn announces(messages: Seq<MessageView>) -> bool {
    exists|k: int| 0 <= k < messages.len() && #[trigger] messages[k] is Metadata
}

/// Whether `messages` carries chunk `index`.
pub open spec fn carries(messages: Seq<MessageView>, index: u64) -> bool {
    exists|k: int|
        0 <= k < messages.len() && (#[trigger] messages[k] matches MessageView::ChunkData {
            index: i,
            ..
        } && i == index)
}

/// The destination that a receiver has after `messages`: that of the last
/// `ExportRequest` among them, or `export` where there is none.
pub open spec fn last_target(export: Option<(Seq<u8>, u32)>, messages: Seq<MessageView>) -> Option<
    (Seq<u8>, u32),
>
    decreases messages.len(),
{
    if messages.len() == 0 {
        export
    } else {
        match messages.last() {
            MessageView::ExportRequest { dest_path, mode, .. } => Some((dest_path, mode)),
            _ => last_target(export, messages.drop_last()),
        }
    }
}

/// Whether every chunk that `after` holds and `before` did not is a chunk
/// of `data`.
pub open spec fn adds_chunks_of(
    before: Map<u64, Seq<u8>>,
    after: Map<u64, Seq<u8>>,
    data: Seq<u8>,
    size: nat,
) -> bool {
    forall|i: u64| #[trigger]
        after.contains_key(i) && !before.contains_key(i) ==> i < chunk_count(data.len(), size)
            && after[i] == chunk_of(data, size, i as nat)
}

/// A complete directory that agrees with `data` puts `data` together and
/// passes the integrity check.
pub proof fn lemma_sound_file_reassembles(dir: Map<u64, Seq<u8>>, data: Seq<u8>, size: nat)
    requires
        size > 0,
        chunk_count(data.len(), size) <= u64::MAX,
        complete(dir, chunk_count(data.len(), size)),
        agrees(dir, data, size),
    ensures
        reassembled(dir, content_hash(data), chunk_count(data.len(), size)) == Ok::<
            Seq<u8>,
            TransferError,
        >(data),
{
    lemma_assemble_file(dir, data, size);
}

/// A new session on any directory whose chunks are chunks of `data` fits
/// the file.
pub proof fn lemma_fresh_fits(dir: Map<u64, Seq<u8>>, data: Seq<u8>, size: nat)
    requires
        agrees(dir, data, size),
    ensures
        fits_file(fresh(content_hash(data)), dir, data, size),
{
}

/// A receiver that finishes on a complete directory that agrees with
/// `data` is `Done`, writes `data` out where a destination is set, and then
/// tells its peer.
pub proof fn lemma_finished_writes(s: SessionView, dir: Map<u64, Seq<u8>>, data: Seq<u8>, size: nat)
    requires
        size > 0,
        chunk_count(data.len(), size) <= u64::MAX,
        s.hash == content_hash(data),
        complete(dir, chunk_count(data.len(), size)),
        agrees(dir, data, size),
    ensures
        ({
            let out = finished(s, dir, chunk_count(data.len(), size) as u64);
            &&& out.session == (SessionView { state: State::Done, ..s })
            &&& out.dir == dir
            &&& out.actions == export_actions(s.export, data).push(
                ActionView::Send(MessageView::Done { hash: s.hash }),
            )
            &&& writes_only(out.actions, data)
            &&& (s.export matches Some((dest_path, mode)) ==> writes_out(
                out.actions,
                dest_path,
                mode,
                data,
            ))
        }),
{
    lemma_sound_file_reassembles(dir, data, size);
    let out = finished(s, dir, chunk_count(data.len(), size) as u64);
    match s.export {
        Some((dest_path, mode)) => {
            assert(out.actions[0] == (ActionView::Export { dest_path, mode, content: data }));
        },
        None => {},
    }
}

/// One step of a receiver on a message from the sender of `data`.
///
/// The session and its directory still fit the file; no chunk is lost or
/// changed; a chunk that was carried is held; whatever is written out is
/// `data`; and where the receiver is settled with a destination set, either
/// this step writes `data` out to it or the receiver was settled with the
/// same destination before.
pub proof fn lemma_receive_step(
    s: SessionView,
    dir: Map<u64, Seq<u8>>,
    message: MessageView,
    data: Seq<u8>,
    size: nat,
)
    requires
        size > 0,
        chunk_count(data.len(), size) <= u64::MAX,
        fits_file(s, dir, data, size),
        from_sender(message, data, size),
    ensures
        ({
            let out = transition(s, dir, EventView::Received(message));
            &&& fits_file(out.session, out.dir, data, size)
            &&& keeps(dir, out.dir)
            &&& writes_only(out.actions, data)
            &&& (message matches MessageView::ChunkData { index, .. } ==> out.dir.contains_key(
                index,
            ))
            &&& (message is Metadata || s.total_chunks is Some ==> out.session.total_chunks
                is Some)
            &&& (message matches MessageView::ExportRequest { dest_path, mode, .. }
                ==> out.session.export == Some((dest_path, mode)))
            &&& (!(message is ExportRequest) ==> out.session.export == s.export)
            &&& (settled(out.session, out.dir, data, size) ==> (
            out.session.export matches Some((dest_path, mode)) ==> writes_out(
                out.actions,
                dest_path,
                mode,
                data,
            ) || (settled(s, dir, data, size) && s.export == out.session.export)))
        }),
{
    let total = chunk_count(data.len(), size);
    let out = transition(s, dir, EventView::Received(message));
    assert(out == received(s, dir, message));
    match message {
        MessageView::Metadata { total_chunks, .. } => {
            let known = SessionView { total_chunks: Some(total_chunks), ..s };
            assert(out == requested(known, dir));
            if complete(dir, total) {
                lemma_sound_file_reassembles(dir, data, size);
                lemma_finished_writes(known, dir, data, size);
            }
        },
        MessageView::ChunkData { index, payload, .. } => {
            if dir.contains_key(index) {
            } else {
                let more = dir.insert(index, payload);
                assert(agrees(more, data, size));
                let next = advanced(s, more);
                assert(out.session == next.session);
                assert(out.dir == more);
                if s.total_chunks is Some && complete(more, total) {
                    lemma_sound_file_reassembles(more, data, size);
                    lemma_finished_writes(s, more, data, size);
                    let ack = seq![ActionView::Send(MessageView::Ack { hash: s.hash, index })];
                    assert(out.actions == ack + next.actions);
                    assert forall|k: int| 0 <= k < out.actions.len() implies (
                    #[trigger] out.actions[k] matches ActionView::Export { content, .. } ==> content
                        == data) by {
                        if k >= 1 {
                            assert(out.actions[k] == next.actions[k - 1]);
                        }
                    }
                    match s.export {
                        Some((dest_path, mode)) => {
                            let j = choose|j: int|
                                0 <= j < next.actions.len() && #[trigger] next.actions[j] == (
                                ActionView::Export { dest_path, mode, content: data });
                            assert(out.actions[j + 1] == next.actions[j]);
                        },
                        None => {},
                    }
                } else {
                    assert(!complete(dir, total)) by {
                        if complete(dir, total) {
                            assert forall|i: u64| i < total implies more.contains_key(i) by {}
                        }
                    }
                }
            }
        },
        MessageView::ExportRequest { dest_path, mode, .. } => {
            let asked = SessionView { export: Some((dest_path, mode)), ..s };
            assert(out == advanced(asked, dir));
            if s.total_chunks is Some && complete(dir, total) {
                lemma_sound_file_reassembles(dir, data, size);
                lemma_finished_writes(asked, dir, data, size);
            }
        },
        _ => {},
    }
}

/// One step of a receiver adds at most the chunk it is handed.
pub proof fn lemma_receive_adds(
    s: SessionView,
    dir: Map<u64, Seq<u8>>,
    message: MessageView,
    data: Seq<u8>,
    size: nat,
)
    requires
        from_sender(message, data, size),
    ensures
        adds_chunks_of(dir, transition(s, dir, EventView::Received(message)).dir, data, size),
{
}

/// Delivery in any order, with any repetition.
///
/// A receiver that fits the file `data` takes messages from the sender of
/// `data`: announcements, requests to write the file out and chunks, in any
/// order and any number of times. Then it still fits the file, no chunk it
/// held was lost or changed, and nothing but `data` was written out. Where
/// the file was announced and every chunk was either held before or carried
/// by some message, the session is `Done`, its directory is the one it had
/// filled up with the chunks of `data`, the chunks put together are `data`,
/// and `data` was written out to the destination asked for last.
///
/// The receiver may start unsettled, or settled without a destination; one
/// that starts settled with a destination has written its file out before.
pub proof fn lemma_any_order_delivers(
    s: SessionView,
    dir: Map<u64, Seq<u8>>,
    messages: Seq<MessageView>,
    data: Seq<u8>,
    size: nat,
)
    requires
        size > 0,
        chunk_count(data.len(), size) <= u64::MAX,
        fits_file(s, dir, data, size),
        settled(s, dir, data, size) ==> s.export is None,
        forall|k: int| 0 <= k < messages.len() ==> from_sender(#[trigger] messages[k], data, size),
    ensures
        ({
            let out = received_all(s, dir, messages);
            let total = chunk_count(data.len(), size);
            &&& fits_file(out.session, out.dir, data, size)
            &&& keeps(dir, out.dir)
            &&& adds_chunks_of(dir, out.dir, data, size)
            &&& writes_only(out.actions, data)
            &&& out.session.export == last_target(s.export, messages)
            &&& (forall|i: u64| carries(messages, i) ==> out.dir.contains_key(i))
            &&& (announces(messages) || s.total_chunks is Some ==> out.session.total_chunks
                is Some)
            &&& (settled(out.session, out.dir, data, size) ==> (out.session.export matches Some(
                (dest_path, mode),
            ) ==> writes_out(out.actions, dest_path, mode, data)))
            &&& ((announces(messages) || s.total_chunks is Some) && (forall|i: u64|
                i < total ==> dir.contains_key(i) || carries(messages, i)) ==> {
                &&& out.session.state == State::Done
                &&& out.dir == fill(dir, data, size)
                &&& assemble(out.dir, total) == data
            })
        }),
    decreases messages.len(),
{
    let total = chunk_count(data.len(), size);
    let out = received_all(s, dir, messages);
    if messages.len() == 0 {
        assert forall|i: u64| carries(messages, i) implies out.dir.contains_key(i) by {}
        if s.total_chunks is Some && (forall|i: u64|
            i < total ==> dir.contains_key(i) || carries(messages, i)) {
            assert(complete(dir, total)) by {
                assert forall|i: u64| i < total implies dir.contains_key(i) by {
                    assert(!carries(messages, i));
                }
            }
            assert(dir =~= fill(dir, data, size));
            lemma_assemble_file(dir, data, size);
        }
    } else {
        let front = messages.drop_last();
        let last = messages.last();
        let before = received_all(s, dir, front);
        let step = transition(before.session, before.dir, EventView::Received(last));
        assert forall|k: int| 0 <= k < front.len() implies from_sender(
            #[trigger] front[k],
            data,
            size,
        ) by {
            assert(front[k] == messages[k]);
        }
        lemma_any_order_delivers(s, dir, front, data, size);
        assert(from_sender(messages[messages.len() - 1], data, size));
        lemma_receive_step(before.session, before.dir, last, data, size);
        lemma_receive_adds(before.session, before.dir, last, data, size);
        assert(out.session == step.session);
        assert(out.dir == step.dir);
        assert(out.actions == before.actions + step.actions);
        assert(writes_only(out.actions, data)) by {
            assert forall|k: int| 0 <= k < out.actions.len() implies (
            #[trigger] out.actions[k] matches ActionView::Export { content, .. } ==> content
                == data) by {
                if k < before.actions.len() {
                    assert(out.actions[k] == before.actions[k]);
                } else {
                    assert(out.actions[k] == step.actions[k - before.actions.len()]);
                }
            }
        }
        assert forall|i: u64| carries(messages, i) implies out.dir.contains_key(i) by {
            let k = choose|k: int|
                0 <= k < messages.len() && (#[trigger] messages[k] matches MessageView::ChunkData {
                    index: j,
                    ..
                } && j == i);
            if k < front.len() {
                assert(front[k] == messages[k]);
                assert(carries(front, i));
                assert(before.dir.contains_key(i));
            }
        }
        if announces(messages) {
            let k = choose|k: int| 0 <= k < messages.len() && #[trigger] messages[k] is Metadata;
            if k < front.len() {
                assert(front[k] is Metadata);
                assert(announces(front));
            }
        }
        if settled(out.session, out.dir, data, size) {
            match out.session.export {
                Some((dest_path, mode)) => {
                    if writes_out(step.actions, dest_path, mode, data) {
                        let j = choose|j: int|
                            0 <= j < step.actions.len() && #[trigger] step.actions[j] == (
                            ActionView::Export { dest_path, mode, content: data });
                        assert(out.actions[before.actions.len() + j] == step.actions[j]);
                    } else {
                        assert(settled(before.session, before.dir, data, size));
                        assert(writes_out(before.actions, dest_path, mode, data));
                        let j = choose|j: int|
                            0 <= j < before.actions.len() && #[trigger] before.actions[j] == (
                            ActionView::Export { dest_path, mode, content: data });
                        assert(out.actions[j] == before.actions[j]);
                    }
                },
                None => {},
            }
        }
        if (announces(messages) || s.total_chunks is Some) && (forall|i: u64|
            i < total ==> dir.contains_key(i) || carries(messages, i)) {
            assert(complete(out.dir, total)) by {
                assert forall|i: u64| i < total implies out.dir.contains_key(i) by {
                    if dir.contains_key(i) {
                    } else {
                        assert(carries(messages, i));
                    }
                }
            }
            assert(out.dir =~= fill(dir, data, size));
            lemma_assemble_file(out.dir, data, size);
        }
    }
}

/// Taking two runs of messages one after the other is taking them as one
/// run.
pub proof fn lemma_received_all_concat(
    s: SessionView,
    dir: Map<u64, Seq<u8>>,
    first: Seq<MessageView>,
    second: Seq<MessageView>,
)
    ensures
        ({
            let middle = received_all(s, dir, first);
            let end = received_all(middle.session, middle.dir, second);
            let whole = received_all(s, dir, first + second);
            &&& whole.session == end.session
            &&& whole.dir == end.dir
            &&& whole.actions == middle.actions + end.actions
        }),
    decreases second.len(),
{
    let middle = received_all(s, dir, first);
    let end = received_all(middle.session, middle.dir, second);
    let whole = received_all(s, dir, first + second);
    if second.len() == 0 {
        assert(first + second =~= first);
        assert(whole.actions =~= middle.actions + end.actions);
    } else {
        lemma_received_all_concat(s, dir, first, second.drop_last());
        assert((first + second).drop_last() =~= first + second.drop_last());
        assert((first + second).last() == second.last());
        let before = received_all(middle.session, middle.dir, second.drop_last());
        let step = transition(before.session, before.dir, EventView::Received(second.last()));
        assert(whole.actions =~= middle.actions + (before.actions + step.actions));
    }
}

/// Every chunk that arrives closes a gap.
///
/// Where a receiver that fits the file `data` takes a chunk it lacked, it
/// lacks one chunk fewer afterwards, and holds everything it held before.
pub proof fn lemma_chunk_closes_a_gap(
    s: SessionView,
    dir: Map<u64, Seq<u8>>,
    data: Seq<u8>,
    size: nat,
    index: u64,
)
    requires
        size > 0,
        chunk_count(data.len(), size) <= u64::MAX,
        fits_file(s, dir, data, size),
        index < chunk_count(data.len(), size),
        !dir.contains_key(index),
    ensures
        ({
            let total = chunk_count(data.len(), size);
            let out = transition(
                s,
                dir,
                EventView::Received(
                    MessageView::ChunkData {
                        hash: s.hash,
                        index,
                        payload: chunk_of(data, size, index as nat),
                    },
                ),
            );
            &&& out.dir == dir.insert(index, chunk_of(data, size, index as nat))
            &&& missing_below(out.dir, total).len() + 1 == missing_below(dir, total).len()
            &&& !missing_below(out.dir, total).contains(index)
        }),
{
    let total = chunk_count(data.len(), size);
    let payload = chunk_of(data, size, index as nat);
    lemma_insert_closes_a_gap(dir, total, index, payload);
    lemma_missing_below(dir.insert(index, payload), total);
}

/// A chunk put in an empty slot below `total` makes one chunk fewer
/// missing.
pub proof fn lemma_insert_closes_a_gap(
    dir: Map<u64, Seq<u8>>,
    total: nat,
    index: u64,
    payload: Seq<u8>,
)
    requires
        total <= u64::MAX,
        !dir.contains_key(index),
    ensures
        index < total ==> missing_below(dir.insert(index, payload), total).len() + 1
            == missing_below(dir, total).len(),
        index >= total ==> missing_below(dir.insert(index, payload), total) == missing_below(
            dir,
            total,
        ),
    decreases total,
{
    if total > 0 {
        lemma_insert_closes_a_gap(dir, (total - 1) as nat, index, payload);
    }
}

} // verus!
