//! An upload from its announcement to its end, over a link that loses
//! nothing: what is asked for, what is sent, and what comes of it.

use crate::chunks::{chunk_count, chunk_of};
use crate::guarantees::delivery::{
    announces, carries, fits_file, from_sender, last_target, lemma_any_order_delivers,
    lemma_finished_writes, lemma_received_all_concat, received_all, settled, writes_only,
    writes_out,
};
use crate::hash::{content_hash, ContentHash};
use crate::messages::MessageView;
use crate::protocol::{
    advanced, announcement, answered, chunk_actions, export_actions, held, in_range, requested,
    sending, served, timed_out, transition, unchanged, with, without, ActionView, EventView,
    SessionView, State,
};
use crate::service::ServiceView;
use crate::storage::{
    agrees, assemble, complete, fill, lemma_fill_idempotent, lemma_missing_below, missing_below,
};
use vstd::prelude::*;

verus! {

/// The `ChunkData` messages for the chunks listed in `indices`, in order,
/// with the payloads that `dir` holds.
pub open spec fn chunk_messages(
    hash: ContentHash,
    dir: Map<u64, Seq<u8>>,
    indices: Seq<u64>,
) -> Seq<MessageView> {
    Seq::new(
        indices.len(),
        |k: int| MessageView::ChunkData { hash, index: indices[k], payload: dir[indices[k]] },
    )
}

/// Whether a sending session and its directory fit the file `data`: the
/// session is for the hash and the number of chunks of `data`, the
/// directory holds every chunk of `data`, and every chunk outstanding is one
/// of the file's.
pub open spec fn sends_file(
    s: SessionView,
    dir: Map<u64, Seq<u8>>,
    data: Seq<u8>,
    size: nat,
) -> bool {
    let total = chunk_count(data.len(), size);
    &&& s.hash == content_hash(data)
    &&& s.total_chunks == Some(total as u64)
    &&& complete(dir, total)
    &&& agrees(dir, data, size)
    &&& in_range(s.outstanding, total as u64)
}

/// Whether every message that `actions` sends is one that the sender of
/// `data` sends to its receiver, or the report of a failure; and `actions`
/// writes nothing out.
pub open spec fn sends_only_file(actions: Seq<ActionView>, data: Seq<u8>, size: nat) -> bool {
    forall|k: int|
        0 <= k < actions.len() ==> match #[trigger] actions[k] {
            ActionView::Send(message) => from_sender(message, data, size) || message is Error,
            ActionView::Export { .. } => false,
        }
}

/// A receiver that holds every chunk asks for none.
///
/// Told of the file, it checks what it holds, is `Done`, writes the file
/// out where a destination is set, and tells its peer; it sends no request
/// for chunks. Asked to write the file out, it does so at once. The sender
/// that hears `Done` is `Done` and has sent no chunk.
pub proof fn lemma_complete_receiver_asks_for_nothing(
    s: SessionView,
    dir: Map<u64, Seq<u8>>,
    sender_dir: Map<u64, Seq<u8>>,
    data: Seq<u8>,
    size: nat,
    dest_path: Seq<u8>,
    mode: u32,
)
    requires
        size > 0,
        chunk_count(data.len(), size) <= u64::MAX,
        fits_file(s, dir, data, size),
        complete(dir, chunk_count(data.len(), size)),
    ensures
        ({
            let hash = content_hash(data);
            let total = chunk_count(data.len(), size) as u64;
            let told = transition(
                s,
                dir,
                EventView::Received(MessageView::Metadata { hash, total_chunks: total }),
            );
            let asked = transition(
                told.session,
                told.dir,
                EventView::Received(MessageView::ExportRequest { hash, dest_path, mode }),
            );
            let sender = sending(hash, total, Some((dest_path, mode)));
            let heard = transition(
                sender,
                sender_dir,
                EventView::Received(MessageView::Done { hash }),
            );
            &&& told.session.state == State::Done
            &&& told.dir == dir
            &&& told.actions == export_actions(s.export, data).push(
                ActionView::Send(MessageView::Done { hash }),
            )
            &&& asked.session.state == State::Done
            &&& asked.dir == dir
            &&& asked.actions == seq![
                ActionView::Export { dest_path, mode, content: data },
                ActionView::Send(MessageView::Done { hash }),
            ]
            &&& heard.session.state == State::Done
            &&& heard.actions == Seq::<ActionView>::empty()
        }),
{
    let hash = content_hash(data);
    let total = chunk_count(data.len(), size) as u64;
    let known = SessionView { total_chunks: Some(total), ..s };
    lemma_finished_writes(known, dir, data, size);
    let told = transition(
        s,
        dir,
        EventView::Received(MessageView::Metadata { hash, total_chunks: total }),
    );
    assert(told == requested(known, dir));
    let target = SessionView { export: Some((dest_path, mode)), ..told.session };
    lemma_finished_writes(target, dir, data, size);
    let asked = transition(
        told.session,
        told.dir,
        EventView::Received(MessageView::ExportRequest { hash, dest_path, mode }),
    );
    assert(asked == advanced(target, dir));
    assert(asked.actions =~= seq![
        ActionView::Export { dest_path, mode, content: data },
        ActionView::Send(MessageView::Done { hash }),
    ]);
}

/// A receiver that lacks chunks asks for exactly those.
///
/// Told of the file, it goes on receiving and answers with one request that
/// lists the chunks it lacks, in ascending order, and nothing else.
pub proof fn lemma_incomplete_receiver_asks_for_missing(
    s: SessionView,
    dir: Map<u64, Seq<u8>>,
    data: Seq<u8>,
    size: nat,
)
    requires
        size > 0,
        chunk_count(data.len(), size) <= u64::MAX,
        fits_file(s, dir, data, size),
        !complete(dir, chunk_count(data.len(), size)),
    ensures
        ({
            let hash = content_hash(data);
            let total = chunk_count(data.len(), size) as u64;
            let told = transition(
                s,
                dir,
                EventView::Received(MessageView::Metadata { hash, total_chunks: total }),
            );
            &&& told.session.state == State::Receiving
            &&& told.session.total_chunks == Some(total)
            &&& told.session.export == s.export
            &&& told.dir == dir
            &&& told.actions == seq![
                ActionView::Send(
                    MessageView::SyncRequest { hash, missing: missing_below(dir, total as nat) },
                ),
            ]
        }),
{
}

/// A sender serves exactly what it is asked for.
///
/// Asked for the chunks listed in `missing`, a sender that holds the file
/// `data` answers with one message for each, in the order asked, each with
/// the chunk of `data` of that index, and with nothing else.
pub proof fn lemma_sender_serves(
    s: SessionView,
    dir: Map<u64, Seq<u8>>,
    data: Seq<u8>,
    size: nat,
    missing: Seq<u64>,
)
    requires
        size > 0,
        chunk_count(data.len(), size) <= u64::MAX,
        s.state == State::Transmitting,
        s.hash == content_hash(data),
        s.total_chunks == Some(chunk_count(data.len(), size) as u64),
        complete(dir, chunk_count(data.len(), size)),
        agrees(dir, data, size),
        in_range(missing, chunk_count(data.len(), size) as u64),
    ensures
        ({
            let out = transition(
                s,
                dir,
                EventView::Received(MessageView::SyncRequest { hash: s.hash, missing }),
            );
            &&& out.session == (SessionView { outstanding: missing, ..s })
            &&& out.dir == dir
            &&& out.actions.len() == missing.len()
            &&& forall|k: int|
                0 <= k < missing.len() ==> #[trigger] out.actions[k] == ActionView::Send(
                    MessageView::ChunkData {
                        hash: s.hash,
                        index: missing[k],
                        payload: chunk_of(data, size, missing[k] as nat),
                    },
                )
            &&& forall|k: int|
                0 <= k < missing.len() ==> from_sender(
                    #[trigger] chunk_messages(s.hash, dir, missing)[k],
                    data,
                    size,
                )
        }),
{
    let out = transition(
        s,
        dir,
        EventView::Received(MessageView::SyncRequest { hash: s.hash, missing }),
    );
    assert(held(dir, missing)) by {
        assert forall|k: int| 0 <= k < missing.len() implies dir.contains_key(
            #[trigger] missing[k],
        ) by {}
    }
    assert(out == served(s, dir, missing));
    assert(out.actions == chunk_actions(s.hash, dir, missing));
    assert forall|k: int| 0 <= k < missing.len() implies dir[missing[k]] == chunk_of(
        data,
        size,
        missing[k] as nat,
    ) by {
        assert(dir.contains_key(missing[k]));
    }
}

/// A sender sends nothing but its file.
///
/// Whatever a session that sends the file `data` is told (any message, a
/// timeout, a failure), it still fits the file afterwards, its directory is
/// untouched, and every message it sends is the announcement of the file,
/// the request to write it out, a chunk of the file with the index it
/// belongs to, or the report of a failure.
pub proof fn lemma_sender_step(
    s: SessionView,
    dir: Map<u64, Seq<u8>>,
    event: EventView,
    data: Seq<u8>,
    size: nat,
)
    requires
        size > 0,
        chunk_count(data.len(), size) <= u64::MAX,
        s.state == State::Transmitting,
        sends_file(s, dir, data, size),
    ensures
        ({
            let out = transition(s, dir, event);
            &&& out.dir == dir
            &&& sends_file(out.session, out.dir, data, size)
            &&& (out.session.state == State::Transmitting || out.session.state == State::Done
                || out.session.state == State::Failed)
            &&& sends_only_file(out.actions, data, size)
        }),
{
    let total = chunk_count(data.len(), size) as u64;
    let out = transition(s, dir, event);
    match event {
        EventView::Failure(kind) => {},
        EventView::Timeout => {
            assert(out == timed_out(s, dir));
            if s.outstanding.len() == 0 {
                assert(out.actions == announcement(s));
            } else {
                lemma_chunks_are_the_files(s.hash, dir, s.outstanding, data, size);
            }
        },
        EventView::Received(message) => {
            if message.hash() == s.hash {
                assert(out == answered(s, dir, message));
                match message {
                    MessageView::SyncRequest { missing, .. } => {
                        if in_range(missing, total) {
                            lemma_chunks_are_the_files(s.hash, dir, missing, data, size);
                        }
                    },
                    MessageView::Nak { index, .. } => {
                        if index < total {
                            lemma_chunks_are_the_files(s.hash, dir, seq![index], data, size);
                            lemma_with_in_range(s.outstanding, index, total);
                        }
                    },
                    MessageView::Ack { index, .. } => {
                        lemma_without_in_range(s.outstanding, index, total);
                    },
                    _ => {},
                }
            }
        },
    }
}

/// The chunk messages for indices of the file carry the file's chunks.
pub proof fn lemma_chunks_are_the_files(
    hash: ContentHash,
    dir: Map<u64, Seq<u8>>,
    indices: Seq<u64>,
    data: Seq<u8>,
    size: nat,
)
    requires
        hash == content_hash(data),
        complete(dir, chunk_count(data.len(), size)),
        agrees(dir, data, size),
        in_range(indices, chunk_count(data.len(), size) as u64),
        chunk_count(data.len(), size) <= u64::MAX,
    ensures
        held(dir, indices),
        sends_only_file(chunk_actions(hash, dir, indices), data, size),
{
    assert forall|k: int| 0 <= k < indices.len() implies dir.contains_key(
        #[trigger] indices[k],
    ) by {}
    let actions = chunk_actions(hash, dir, indices);
    assert forall|k: int| 0 <= k < actions.len() implies match #[trigger] actions[k] {
        ActionView::Send(message) => from_sender(message, data, size) || message is Error,
        ActionView::Export { .. } => false,
    } by {
        assert(dir.contains_key(indices[k]));
    }
}

proof fn lemma_with_in_range(indices: Seq<u64>, index: u64, bound: u64)
    requires
        in_range(indices, bound),
        index < bound,
    ensures
        in_range(with(indices, index), bound),
{
}

proof fn lemma_without_in_range(indices: Seq<u64>, index: u64, bound: u64)
    requires
        in_range(indices, bound),
    ensures
        in_range(without(indices, index), bound),
        without(indices, index).len() <= indices.len(),
    decreases indices.len(),
{
    if indices.len() > 0 {
        let front = indices.drop_last();
        assert forall|k: int| 0 <= k < front.len() implies front[k] < bound by {
            assert(front[k] == indices[k]);
        }
        lemma_without_in_range(front, index, bound);
        assert(indices.last() == indices[indices.len() - 1]);
    }
}

/// A directory that has lost one chunk of a complete file lacks that chunk
/// and no other.
pub proof fn lemma_one_chunk_lost(dir: Map<u64, Seq<u8>>, total: nat, lost: u64)
    requires
        total <= u64::MAX,
        complete(dir, total),
        lost < total,
    ensures
        missing_below(dir.remove(lost), total) == seq![lost],
{
    let left = dir.remove(lost);
    let gaps = missing_below(left, total);
    lemma_missing_below(left, total);
    assert(!left.contains_key(lost));
    assert(gaps.contains(lost));
    assert forall|k: int| 0 <= k < gaps.len() implies gaps[k] == lost by {
        assert(gaps.contains(gaps[k]));
        if gaps[k] != lost {
            assert(dir.contains_key(gaps[k]));
            assert(left.contains_key(gaps[k]));
        }
    }
    if gaps.len() > 1 {
        assert(gaps[0] < gaps[1]);
    }
    assert(gaps =~= seq![lost]);
}

/// An upload over a link that loses nothing reproduces the file.
///
/// The sender of the file `data` announces it and asks for it to be written
/// out to `dest_path`. The receiver, which may hold any of the file's
/// chunks already, takes both messages and asks for the chunks it lacks;
/// the sender answers with exactly those chunks; the receiver takes them.
/// Then the receiver is `Done`, its directory holds every chunk of `data`,
/// what it wrote out to `dest_path` is `data`, it wrote out nothing else,
/// and the sender that hears of it is `Done` too.
pub proof fn lemma_upload_round_trip(
    receiver: SessionView,
    dir: Map<u64, Seq<u8>>,
    sender_dir: Map<u64, Seq<u8>>,
    data: Seq<u8>,
    size: nat,
    dest_path: Seq<u8>,
    mode: u32,
)
    requires
        size > 0,
        chunk_count(data.len(), size) <= u64::MAX,
        fits_file(receiver, dir, data, size),
        settled(receiver, dir, data, size) ==> receiver.export is None,
        complete(sender_dir, chunk_count(data.len(), size)),
        agrees(sender_dir, data, size),
    ensures
        ({
            let hash = content_hash(data);
            let total = chunk_count(data.len(), size) as u64;
            let sender = sending(hash, total, Some((dest_path, mode)));
            let metadata = MessageView::Metadata { hash, total_chunks: total };
            let request = MessageView::ExportRequest { hash, dest_path, mode };
            let missing = missing_below(dir, total as nat);
            let told = received_all(receiver, dir, seq![metadata, request]);
            let served = transition(
                sender,
                sender_dir,
                EventView::Received(MessageView::SyncRequest { hash, missing }),
            );
            let end = received_all(
                told.session,
                told.dir,
                chunk_messages(hash, sender_dir, missing),
            );
            let heard = transition(
                served.session,
                sender_dir,
                EventView::Received(MessageView::Done { hash }),
            );
            &&& announcement(sender) == seq![ActionView::Send(metadata), ActionView::Send(request)]
            &&& told.dir == dir
            &&& (missing.len() > 0 ==> told.actions == seq![
                ActionView::Send(MessageView::SyncRequest { hash, missing }),
            ])
            &&& (missing.len() == 0 ==> told.session.state == State::Done)
            &&& served.actions == chunk_actions(hash, sender_dir, missing)
            &&& end.session.state == State::Done
            &&& end.dir == fill(dir, data, size)
            &&& assemble(end.dir, total as nat) == data
            &&& writes_out(told.actions + end.actions, dest_path, mode, data)
            &&& writes_only(told.actions + end.actions, data)
            &&& heard.session.state == State::Done
        }),
{
    let hash = content_hash(data);
    let total = chunk_count(data.len(), size) as u64;
    let sender = sending(hash, total, Some((dest_path, mode)));
    let metadata = MessageView::Metadata { hash, total_chunks: total };
    let request = MessageView::ExportRequest { hash, dest_path, mode };
    let missing = missing_below(dir, total as nat);
    let first = seq![metadata, request];
    let chunks = chunk_messages(hash, sender_dir, missing);
    let told = received_all(receiver, dir, first);
    let end = received_all(told.session, told.dir, chunks);
    lemma_missing_below(dir, total as nat);
    assert(in_range(missing, total)) by {
        assert forall|k: int| 0 <= k < missing.len() implies missing[k] < total by {
            assert(missing.contains(missing[k]));
        }
    }
    lemma_sender_serves(sender, sender_dir, data, size, missing);
    assert(announcement(sender) =~= seq![ActionView::Send(metadata), ActionView::Send(request)]);

    // what the receiver does with the announcement
    let one = transition(receiver, dir, EventView::Received(metadata));
    let two = transition(one.session, one.dir, EventView::Received(request));
    assert(first.drop_last() =~= seq![metadata]);
    assert(seq![metadata].drop_last() =~= Seq::<MessageView>::empty());
    assert(received_all(receiver, dir, Seq::<MessageView>::empty()) == unchanged(receiver, dir));
    let after_one = received_all(receiver, dir, seq![metadata]);
    assert(after_one.session == one.session && after_one.dir == one.dir);
    assert(after_one.actions =~= one.actions);
    assert(told.session == two.session && told.dir == two.dir);
    assert(told.actions =~= one.actions + two.actions);
    if complete(dir, total as nat) {
        lemma_complete_receiver_asks_for_nothing(
            receiver,
            dir,
            sender_dir,
            data,
            size,
            dest_path,
            mode,
        );
    } else {
        lemma_incomplete_receiver_asks_for_missing(receiver, dir, data, size);
        assert(two.actions =~= Seq::<ActionView>::empty());
        assert(two.dir == dir);
    }

    // the whole run, as one delivery in some order
    let all = first + chunks;
    lemma_received_all_concat(receiver, dir, first, chunks);
    assert forall|k: int| 0 <= k < all.len() implies from_sender(#[trigger] all[k], data, size) by {
        if k >= 2 {
            assert(all[k] == chunks[k - 2]);
        }
    }
    lemma_any_order_delivers(receiver, dir, all, data, size);
    assert(all[0] is Metadata);
    assert(announces(all));
    assert forall|i: u64| i < total implies dir.contains_key(i) || carries(all, i) by {
        if !dir.contains_key(i) {
            assert(missing.contains(i));
            let k = choose|k: int| 0 <= k < missing.len() && missing[k] == i;
            assert(all[k + 2] == chunks[k]);
        }
    }
    let whole = received_all(receiver, dir, all);
    assert(whole.session.export == last_target(receiver.export, all));
    lemma_last_target_after_chunks(receiver.export, first, hash, sender_dir, missing);
    assert(first.last() == request);
    assert(last_target(receiver.export, first) == Some((dest_path, mode)));
}

/// A transfer resumes where it was cut short.
///
/// Where a receiver that held the whole file `data` has lost chunk `lost`
/// and nothing else, an upload of `data` over a link that loses nothing
/// makes the receiver ask for that chunk alone, makes the sender send that
/// chunk and no other, and leaves the receiver `Done` with the directory it
/// had before the loss and with `data` written out.
pub proof fn lemma_resume_after_loss(
    receiver: SessionView,
    full: Map<u64, Seq<u8>>,
    sender_dir: Map<u64, Seq<u8>>,
    data: Seq<u8>,
    size: nat,
    lost: u64,
    dest_path: Seq<u8>,
    mode: u32,
)
    requires
        size > 0,
        chunk_count(data.len(), size) <= u64::MAX,
        lost < chunk_count(data.len(), size),
        complete(full, chunk_count(data.len(), size)),
        agrees(full, data, size),
        fits_file(receiver, full.remove(lost), data, size),
        complete(sender_dir, chunk_count(data.len(), size)),
        agrees(sender_dir, data, size),
    ensures
        ({
            let hash = content_hash(data);
            let total = chunk_count(data.len(), size) as u64;
            let dir = full.remove(lost);
            let sender = sending(hash, total, Some((dest_path, mode)));
            let metadata = MessageView::Metadata { hash, total_chunks: total };
            let request = MessageView::ExportRequest { hash, dest_path, mode };
            let chunk = MessageView::ChunkData {
                hash,
                index: lost,
                payload: chunk_of(data, size, lost as nat),
            };
            let told = received_all(receiver, dir, seq![metadata, request]);
            let served = transition(
                sender,
                sender_dir,
                EventView::Received(MessageView::SyncRequest { hash, missing: seq![lost] }),
            );
            let end = received_all(told.session, told.dir, seq![chunk]);
            &&& told.actions == seq![
                ActionView::Send(MessageView::SyncRequest { hash, missing: seq![lost] }),
            ]
            &&& served.actions == seq![ActionView::Send(chunk)]
            &&& end.session.state == State::Done
            &&& end.dir == full
            &&& writes_out(told.actions + end.actions, dest_path, mode, data)
            &&& writes_only(told.actions + end.actions, data)
        }),
{
    let hash = content_hash(data);
    let total = chunk_count(data.len(), size) as u64;
    let dir = full.remove(lost);
    let sender = sending(hash, total, Some((dest_path, mode)));
    lemma_one_chunk_lost(full, total as nat, lost);
    assert(!dir.contains_key(lost));
    assert(!complete(dir, total as nat));
    lemma_upload_round_trip(receiver, dir, sender_dir, data, size, dest_path, mode);
    lemma_sender_serves(sender, sender_dir, data, size, seq![lost]);
    let chunk = MessageView::ChunkData {
        hash,
        index: lost,
        payload: chunk_of(data, size, lost as nat),
    };
    assert(sender_dir.contains_key(lost));
    assert(chunk_messages(hash, sender_dir, seq![lost]) =~= seq![chunk]);
    assert(chunk_actions(hash, sender_dir, seq![lost]) =~= seq![ActionView::Send(chunk)]);
    assert(fill(dir, data, size) =~= full) by {
        assert(full.contains_key(lost));
    }
}

/// Chunks change no destination.
proof fn lemma_last_target_after_chunks(
    export: Option<(Seq<u8>, u32)>,
    first: Seq<MessageView>,
    hash: ContentHash,
    dir: Map<u64, Seq<u8>>,
    indices: Seq<u64>,
)
    ensures
        last_target(export, first + chunk_messages(hash, dir, indices)) == last_target(
            export,
            first,
        ),
    decreases indices.len(),
{
    let chunks = chunk_messages(hash, dir, indices);
    if indices.len() == 0 {
        assert(first + chunks =~= first);
    } else {
        let fewer = indices.drop_last();
        lemma_last_target_after_chunks(export, first, hash, dir, fewer);
        assert((first + chunks).drop_last() =~= first + chunk_messages(hash, dir, fewer));
        assert((first + chunks).last() == chunks.last());
    }
}

/// Starting the same upload twice is starting it once: the hash is the
/// same, and the second time stores no chunk.
pub proof fn lemma_upload_again_changes_nothing(
    v: ServiceView,
    data: Seq<u8>,
    dest_path: Seq<u8>,
    mode: u32,
)
    requires
        chunk_count(data.len(), v.chunk_size) <= u64::MAX,
    ensures
        v.uploading(data, dest_path, mode).uploading(data, dest_path, mode) == v.uploading(
            data,
            dest_path,
            mode,
        ),
        missing_below(
            v.uploading(data, dest_path, mode).dir_of(content_hash(data)),
            chunk_count(data.len(), v.chunk_size),
        ) == Seq::<u64>::empty(),
{
    let once = v.uploading(data, dest_path, mode);
    let twice = once.uploading(data, dest_path, mode);
    let hash = content_hash(data);
    lemma_fill_idempotent(v.dir_of(hash), data, v.chunk_size);
    assert(once.dir_of(hash) == fill(v.dir_of(hash), data, v.chunk_size));
    assert(twice.sessions =~= once.sessions);
    assert(twice.dirs =~= once.dirs);
    assert(missing_below(once.dir_of(hash), chunk_count(data.len(), v.chunk_size)) =~= Seq::<
        u64,
    >::empty());
}

} // verus!
