use flight_services::codec::{encode, DecodeError};
use flight_services::error::TransferError;
use flight_services::hash::ContentHash;
use flight_services::messages::Message;
use flight_services::protocol::{next_idle, Action, Event, ExportTarget, Session, State};
use flight_services::service::Service;
use flight_services::storage::ChunkStore;

fn send(message: Message) -> Action {
    Action::Send(message)
}

fn got(message: Message) -> Event {
    Event::Received(message)
}

// A store that holds the file 0, 1, .. 9 in chunks of four bytes.
fn file() -> (ChunkStore, ContentHash, Vec<u8>) {
    let mut store = ChunkStore::with_chunk_size(4).unwrap();
    let data: Vec<u8> = (0..10).collect();
    let hash = store.initialize_file(&data).hash;
    (store, hash, data)
}

fn chunk(hash: ContentHash, index: u64) -> Message {
    let payload: Vec<u8> = match index {
        0 => vec![0, 1, 2, 3],
        1 => vec![4, 5, 6, 7],
        _ => vec![8, 9],
    };
    Message::ChunkData { hash, index, payload }
}

fn empty_store() -> ChunkStore {
    ChunkStore::with_chunk_size(4).unwrap()
}

#[test]
fn new_session_holds() {
    let hash = ContentHash { value: 5 };
    let session = Session::new(hash);
    assert_eq!(session.hash, hash);
    assert_eq!(session.state, State::Holding);
    assert_eq!(session.total_chunks, None);
    assert_eq!(session.export, None);
    assert_eq!(session.outstanding, Vec::<u64>::new());
    assert_eq!(session.failure, None);
    assert!(!session.is_terminal());
    assert_eq!(session.verdict(), Err(TransferError::Timeout));
}

#[test]
fn transmit_announces_the_file() {
    let hash = ContentHash { value: 5 };
    let target = ExportTarget { dest_path: b"dest".to_vec(), mode: 0o600 };
    let (session, actions) = Session::transmit(hash, 3, Some(target.clone()));
    assert_eq!(session.state, State::Transmitting);
    assert_eq!(session.total_chunks, Some(3));
    assert_eq!(session.export, Some(target));
    assert_eq!(
        actions,
        vec![
            send(Message::Metadata { hash, total_chunks: 3 }),
            send(Message::ExportRequest { hash, dest_path: b"dest".to_vec(), mode: 0o600 }),
        ]
    );
    let (_, actions) = Session::transmit(hash, 3, None);
    assert_eq!(actions, vec![send(Message::Metadata { hash, total_chunks: 3 })]);
}

#[test]
fn receiver_asks_for_what_it_lacks() {
    let (_, hash, _) = file();
    let mut store = empty_store();
    store.store_chunk(hash, 1, vec![4, 5, 6, 7]);
    let mut session = Session::new(hash);
    let actions = session.step(&mut store, got(Message::Metadata { hash, total_chunks: 3 }));
    assert_eq!(actions, vec![send(Message::SyncRequest { hash, missing: vec![0, 2] })]);
    assert_eq!(session.state, State::Receiving);
    assert_eq!(session.total_chunks, Some(3));
}

#[test]
fn receiver_takes_chunks_in_any_order_and_twice() {
    let (_, hash, data) = file();
    let mut store = empty_store();
    let mut session = Session::new(hash);
    let mut exported = Vec::new();
    let deliveries = vec![
        chunk(hash, 2),
        chunk(hash, 2),
        Message::ExportRequest { hash, dest_path: b"out".to_vec(), mode: 0o644 },
        chunk(hash, 0),
        Message::Metadata { hash, total_chunks: 3 },
        chunk(hash, 0),
        chunk(hash, 1),
        chunk(hash, 1),
        chunk(hash, 2),
    ];
    for message in deliveries {
        for action in session.step(&mut store, got(message)) {
            match action {
                Action::Export { dest_path, mode, content } => exported.push((dest_path, mode, content)),
                Action::Send(Message::Error { .. }) => panic!("no error is due"),
                Action::Send(_) => {}
            }
        }
    }
    assert_eq!(session.state, State::Done);
    assert_eq!(session.verdict(), Ok(()));
    assert_eq!(exported, vec![(b"out".to_vec(), 0o644, data)]);
}

#[test]
fn receiver_acknowledges_every_chunk() {
    let (_, hash, data) = file();
    let mut store = empty_store();
    let mut session = Session::new(hash);
    session.step(&mut store, got(Message::Metadata { hash, total_chunks: 3 }));
    session.step(&mut store, got(Message::ExportRequest { hash, dest_path: b"d".to_vec(), mode: 1 }));
    assert_eq!(session.state, State::Receiving);
    assert_eq!(
        session.step(&mut store, got(chunk(hash, 1))),
        vec![send(Message::Ack { hash, index: 1 })]
    );
    // a duplicate is acknowledged and otherwise ignored
    let before = store.clone();
    assert_eq!(
        session.step(&mut store, got(Message::ChunkData { hash, index: 1, payload: vec![0] })),
        vec![send(Message::Ack { hash, index: 1 })]
    );
    assert_eq!(store, before);
    assert_eq!(
        session.step(&mut store, got(chunk(hash, 0))),
        vec![send(Message::Ack { hash, index: 0 })]
    );
    // the last chunk completes the file: written out, then Done
    assert_eq!(
        session.step(&mut store, got(chunk(hash, 2))),
        vec![
            send(Message::Ack { hash, index: 2 }),
            Action::Export { dest_path: b"d".to_vec(), mode: 1, content: data },
            send(Message::Done { hash }),
        ]
    );
    assert!(session.is_terminal());
}

#[test]
fn chunk_out_of_range_is_a_violation() {
    let (_, hash, _) = file();
    let mut store = empty_store();
    let mut session = Session::new(hash);
    session.step(&mut store, got(Message::Metadata { hash, total_chunks: 3 }));
    let actions = session.step(&mut store, got(Message::ChunkData { hash, index: 3, payload: vec![1] }));
    assert_eq!(
        actions,
        vec![send(Message::Error { hash, reason: TransferError::ProtocolViolation })]
    );
    assert_eq!(session.state, State::Failed);
    assert_eq!(session.failure, Some(TransferError::ProtocolViolation));
    assert_eq!(session.verdict(), Err(TransferError::ProtocolViolation));
    assert!(!store.chunk_exists(hash, 3));
}

#[test]
fn metadata_that_disagrees_is_a_violation() {
    let (_, hash, _) = file();
    let mut store = empty_store();
    let mut session = Session::new(hash);
    session.step(&mut store, got(Message::Metadata { hash, total_chunks: 3 }));
    // the same again is fine
    let again = session.step(&mut store, got(Message::Metadata { hash, total_chunks: 3 }));
    assert_eq!(again, vec![send(Message::SyncRequest { hash, missing: vec![0, 1, 2] })]);
    let actions = session.step(&mut store, got(Message::Metadata { hash, total_chunks: 4 }));
    assert_eq!(
        actions,
        vec![send(Message::Error { hash, reason: TransferError::ProtocolViolation })]
    );
    assert_eq!(session.state, State::Failed);
}

#[test]
fn unexpected_messages_are_violations() {
    let hash = ContentHash { value: 9 };
    let unexpected_for_receiver = vec![
        Message::Ack { hash, index: 0 },
        Message::Nak { hash, index: 0 },
        Message::SyncRequest { hash, missing: vec![] },
        Message::Done { hash },
    ];
    for message in unexpected_for_receiver {
        let mut store = empty_store();
        let mut session = Session::new(hash);
        let actions = session.step(&mut store, got(message));
        assert_eq!(
            actions,
            vec![send(Message::Error { hash, reason: TransferError::ProtocolViolation })]
        );
        assert_eq!(session.state, State::Failed);
    }
    let unexpected_for_sender = vec![
        Message::Metadata { hash, total_chunks: 1 },
        Message::ChunkData { hash, index: 0, payload: vec![] },
        Message::ExportRequest { hash, dest_path: vec![], mode: 0 },
    ];
    for message in unexpected_for_sender {
        let mut store = empty_store();
        let (mut session, _) = Session::transmit(hash, 1, None);
        let actions = session.step(&mut store, got(message));
        assert_eq!(
            actions,
            vec![send(Message::Error { hash, reason: TransferError::ProtocolViolation })]
        );
        assert_eq!(session.state, State::Failed);
    }
}

#[test]
fn messages_of_other_transfers_are_ignored() {
    let hash = ContentHash { value: 9 };
    let other = ContentHash { value: 10 };
    let mut store = empty_store();
    let mut session = Session::new(hash);
    let before = session.clone();
    assert!(session.step(&mut store, got(Message::Done { hash: other })).is_empty());
    assert!(session
        .step(&mut store, got(Message::ChunkData { hash: other, index: 0, payload: vec![1] }))
        .is_empty());
    assert_eq!(session, before);
    assert!(!store.chunk_exists(other, 0));
}

#[test]
fn sender_serves_exactly_what_is_asked() {
    let (mut store, hash, _) = file();
    let (mut session, _) = Session::transmit(hash, 3, None);
    let actions = session.step(&mut store, got(Message::SyncRequest { hash, missing: vec![2, 0] }));
    assert_eq!(actions, vec![send(chunk(hash, 2)), send(chunk(hash, 0))]);
    assert_eq!(session.outstanding, vec![2, 0]);
    assert_eq!(session.state, State::Transmitting);

    // acknowledged chunks are no longer outstanding
    assert!(session.step(&mut store, got(Message::Ack { hash, index: 2 })).is_empty());
    assert_eq!(session.outstanding, vec![0]);

    // a Nak is answered with that chunk
    let actions = session.step(&mut store, got(Message::Nak { hash, index: 1 }));
    assert_eq!(actions, vec![send(chunk(hash, 1))]);
    assert_eq!(session.outstanding, vec![0, 1]);
    session.step(&mut store, got(Message::Nak { hash, index: 1 }));
    assert_eq!(session.outstanding, vec![0, 1]);

    // Done ends the transfer
    assert!(session.step(&mut store, got(Message::Done { hash })).is_empty());
    assert_eq!(session.state, State::Done);
    assert_eq!(session.outstanding, Vec::<u64>::new());
    assert_eq!(session.verdict(), Ok(()));
}

#[test]
fn sender_refuses_indices_out_of_range() {
    let (mut store, hash, _) = file();
    for message in [
        Message::SyncRequest { hash, missing: vec![0, 3] },
        Message::Nak { hash, index: 3 },
        Message::Ack { hash, index: 3 },
    ] {
        let (mut session, _) = Session::transmit(hash, 3, None);
        let actions = session.step(&mut store, got(message));
        assert_eq!(
            actions,
            vec![send(Message::Error { hash, reason: TransferError::ProtocolViolation })]
        );
        assert_eq!(session.state, State::Failed);
    }
}

#[test]
fn sender_without_the_chunk_fails_incomplete() {
    let (mut store, hash, _) = file();
    store.remove_chunk(hash, 1);
    for message in [
        Message::SyncRequest { hash, missing: vec![0, 1] },
        Message::Nak { hash, index: 1 },
    ] {
        let (mut session, _) = Session::transmit(hash, 3, None);
        let actions = session.step(&mut store, got(message));
        assert_eq!(
            actions,
            vec![send(Message::Error { hash, reason: TransferError::IncompleteTransfer })]
        );
        assert_eq!(session.failure, Some(TransferError::IncompleteTransfer));
    }
}

#[test]
fn timeouts_are_retries() {
    let (mut store, hash, _) = file();
    let target = ExportTarget { dest_path: b"dest".to_vec(), mode: 0o600 };
    let (mut session, first) = Session::transmit(hash, 3, Some(target));
    // nothing outstanding: announce again
    assert_eq!(session.step(&mut store, Event::Timeout), first);
    session.step(&mut store, got(Message::SyncRequest { hash, missing: vec![1, 2] }));
    session.step(&mut store, got(Message::Ack { hash, index: 1 }));
    // chunk 2 is outstanding: send it again
    assert_eq!(session.step(&mut store, Event::Timeout), vec![send(chunk(hash, 2))]);
    assert_eq!(session.state, State::Transmitting);

    // a receiver asks again for what it lacks
    let mut store = empty_store();
    let mut session = Session::new(hash);
    assert!(session.step(&mut store, Event::Timeout).is_empty());
    assert_eq!(session.state, State::Holding);
    session.step(&mut store, got(chunk(hash, 0)));
    assert!(session.step(&mut store, Event::Timeout).is_empty());
    session.step(&mut store, got(Message::Metadata { hash, total_chunks: 3 }));
    assert_eq!(
        session.step(&mut store, Event::Timeout),
        vec![send(Message::SyncRequest { hash, missing: vec![1, 2] })]
    );
    assert_eq!(session.state, State::Receiving);
}

#[test]
fn local_failure_fails_the_session_and_tells_the_peer() {
    let hash = ContentHash { value: 1 };
    for kind in [TransferError::FileNotFound, TransferError::TransportError] {
        let mut store = empty_store();
        let (mut session, _) = Session::transmit(hash, 3, None);
        let actions = session.step(&mut store, Event::Failure(kind));
        assert_eq!(actions, vec![send(Message::Error { hash, reason: kind })]);
        assert_eq!(session.state, State::Failed);
        assert_eq!(session.verdict(), Err(kind));
        // a failed session ignores everything
        assert!(session.step(&mut store, got(Message::Done { hash })).is_empty());
        assert!(session.step(&mut store, Event::Timeout).is_empty());
        assert!(session.step(&mut store, Event::Failure(TransferError::Timeout)).is_empty());
        assert_eq!(session.failure, Some(kind));
    }
}

#[test]
fn error_from_the_peer_fails_the_session_quietly() {
    let hash = ContentHash { value: 1 };
    let mut store = empty_store();
    let mut session = Session::new(hash);
    let actions = session.step(
        &mut store,
        got(Message::Error { hash, reason: TransferError::HashMismatch }),
    );
    assert!(actions.is_empty());
    assert_eq!(session.state, State::Failed);
    assert_eq!(session.failure, Some(TransferError::HashMismatch));

    let (mut session, _) = Session::transmit(hash, 3, None);
    session.step(&mut store, got(Message::Error { hash, reason: TransferError::FileNotFound }));
    assert_eq!(session.verdict(), Err(TransferError::FileNotFound));
}

#[test]
fn done_receiver_ignores_late_messages() {
    let (_, hash, data) = file();
    let mut store = empty_store();
    let mut session = Session::new(hash);
    for message in [
        Message::Metadata { hash, total_chunks: 3 },
        chunk(hash, 0),
        chunk(hash, 1),
        chunk(hash, 2),
    ] {
        session.step(&mut store, got(message));
    }
    assert_eq!(session.state, State::Done);
    for message in [
        Message::Ack { hash, index: 0 },
        Message::Nak { hash, index: 0 },
        Message::SyncRequest { hash, missing: vec![0] },
        Message::Done { hash },
    ] {
        assert!(session.step(&mut store, got(message)).is_empty());
        assert_eq!(session.state, State::Done);
    }
    assert_eq!(
        session.step(&mut store, got(chunk(hash, 1))),
        vec![send(Message::Ack { hash, index: 1 })]
    );
    assert_eq!(session.state, State::Done);
    // asked to write the file out after the fact, it does
    assert_eq!(
        session.step(&mut store, got(Message::ExportRequest { hash, dest_path: b"late".to_vec(), mode: 7 })),
        vec![
            Action::Export { dest_path: b"late".to_vec(), mode: 7, content: data },
            send(Message::Done { hash }),
        ]
    );
}

#[test]
fn message_engine_runs_until_done() {
    let (_, hash, data) = file();
    let mut store = empty_store();
    let mut session = Session::new(hash);
    let events = vec![
        got(Message::Metadata { hash, total_chunks: 3 }),
        Event::Timeout,
        got(Message::ExportRequest { hash, dest_path: b"d".to_vec(), mode: 0 }),
        got(chunk(hash, 0)),
        got(chunk(hash, 1)),
        got(chunk(hash, 2)),
        // never looked at: the session is Done before
        got(Message::Metadata { hash, total_chunks: 9 }),
    ];
    let (actions, result) = session.message_engine(&mut store, events, 3);
    assert_eq!(result, Ok(()));
    assert_eq!(session.state, State::Done);
    assert_eq!(
        actions,
        vec![
            send(Message::SyncRequest { hash, missing: vec![0, 1, 2] }),
            send(Message::SyncRequest { hash, missing: vec![0, 1, 2] }),
            send(Message::Ack { hash, index: 0 }),
            send(Message::Ack { hash, index: 1 }),
            send(Message::Ack { hash, index: 2 }),
            Action::Export { dest_path: b"d".to_vec(), mode: 0, content: data },
            send(Message::Done { hash }),
        ]
    );
}

#[test]
fn message_engine_times_out_without_progress() {
    let (mut store, hash, _) = file();
    let (mut session, _) = Session::transmit(hash, 3, None);
    let metadata = send(Message::Metadata { hash, total_chunks: 3 });

    // the events run out: a failure that may be tried again
    let (actions, result) = session.message_engine(&mut store, vec![Event::Timeout], 5);
    assert_eq!(result, Err(TransferError::Timeout));
    assert_eq!(actions, vec![metadata.clone()]);
    assert_eq!(session.state, State::Transmitting);

    // patience runs out: two timeouts in a row are put up with, the third is not
    let events = vec![Event::Timeout, Event::Timeout, Event::Timeout, got(Message::Done { hash })];
    let (actions, result) = session.message_engine(&mut store, events, 2);
    assert_eq!(result, Err(TransferError::Timeout));
    assert_eq!(actions, vec![metadata.clone(), metadata.clone()]);
    assert_eq!(session.state, State::Transmitting);

    // a message in between starts the count afresh
    let events = vec![
        Event::Timeout,
        Event::Timeout,
        got(Message::Ack { hash, index: 0 }),
        Event::Timeout,
        Event::Timeout,
        got(Message::Done { hash }),
    ];
    let (_, result) = session.message_engine(&mut store, events, 2);
    assert_eq!(result, Ok(()));

    // no events at all
    let (mut session, _) = Session::transmit(hash, 3, None);
    let (actions, result) = session.message_engine(&mut store, Vec::new(), 2);
    assert!(actions.is_empty());
    assert_eq!(result, Err(TransferError::Timeout));
}

#[test]
fn message_engine_reports_failure() {
    let (mut store, hash, _) = file();
    let (mut session, _) = Session::transmit(hash, 3, None);
    let events = vec![got(Message::SyncRequest { hash, missing: vec![5] }), got(Message::Done { hash })];
    let (actions, result) = session.message_engine(&mut store, events, 2);
    assert_eq!(result, Err(TransferError::ProtocolViolation));
    assert_eq!(
        actions,
        vec![send(Message::Error { hash, reason: TransferError::ProtocolViolation })]
    );
}

#[test]
fn next_idle_counts_timeouts_in_a_row() {
    let hash = ContentHash { value: 1 };
    assert_eq!(next_idle(0, 2, &Event::Timeout), Some(1));
    assert_eq!(next_idle(1, 2, &Event::Timeout), Some(2));
    assert_eq!(next_idle(2, 2, &Event::Timeout), None);
    assert_eq!(next_idle(0, 0, &Event::Timeout), None);
    assert_eq!(next_idle(2, 2, &got(Message::Done { hash })), Some(0));
    assert_eq!(next_idle(7, 2, &Event::Failure(TransferError::Timeout)), Some(0));
    assert_eq!(next_idle(u64::MAX, u64::MAX, &Event::Timeout), None);
}

#[test]
fn service_receive_takes_datagrams() {
    let (_, hash, _) = file();
    let mut service = Service::new(empty_store());
    let datagram = encode(&Message::Metadata { hash, total_chunks: 3 });
    assert_eq!(
        service.receive(&datagram),
        Ok(vec![send(Message::SyncRequest { hash, missing: vec![0, 1, 2] })])
    );
    assert_eq!(service.state(hash), Some(State::Receiving));
    let before = service.clone();
    assert_eq!(service.receive(&datagram[..20]), Err(DecodeError::Truncated));
    assert_eq!(service.receive(&[9]), Err(DecodeError::UnknownTag));
    assert_eq!(service, before);
}

#[test]
fn service_handles_timeouts_by_session() {
    let (_, hash, _) = file();
    let mut service = Service::new(empty_store());
    service.dispatch(Message::Metadata { hash, total_chunks: 3 });
    service.dispatch(chunk(hash, 1));
    assert_eq!(
        service.handle(hash, Event::Timeout),
        vec![send(Message::SyncRequest { hash, missing: vec![0, 2] })]
    );
    // a first event for a hash opens its session
    let other = ContentHash { value: 77 };
    assert_eq!(service.state(other), None);
    assert!(service.handle(other, Event::Timeout).is_empty());
    assert_eq!(service.state(other), Some(State::Holding));
}

#[test]
fn interleaved_transfers_end_as_if_alone() {
    let one = ContentHash { value: 1 };
    let two = ContentHash { value: 2 };
    let for_one = vec![
        Message::Metadata { hash: one, total_chunks: 2 },
        Message::ChunkData { hash: one, index: 1, payload: vec![1, 1] },
        Message::ExportRequest { hash: one, dest_path: b"one".to_vec(), mode: 1 },
        Message::ChunkData { hash: one, index: 0, payload: vec![1, 0] },
    ];
    let for_two = vec![
        Message::ChunkData { hash: two, index: 0, payload: vec![2, 0] },
        Message::Metadata { hash: two, total_chunks: 3 },
        Message::ChunkData { hash: two, index: 5, payload: vec![2, 5] },
        Message::ChunkData { hash: two, index: 2, payload: vec![2, 2] },
    ];
    let mut mixed = Service::new(empty_store());
    let mut answers_one = Vec::new();
    let mut answers_two = Vec::new();
    for k in 0..4 {
        answers_two.push(mixed.dispatch(for_two[k].clone()));
        answers_one.push(mixed.dispatch(for_one[k].clone()));
    }
    let mut alone_one = Service::new(empty_store());
    let mut alone_two = Service::new(empty_store());
    for k in 0..4 {
        assert_eq!(alone_one.dispatch(for_one[k].clone()), answers_one[k]);
        assert_eq!(alone_two.dispatch(for_two[k].clone()), answers_two[k]);
    }
    assert_eq!(mixed.session(one), alone_one.session(one));
    assert_eq!(mixed.session(two), alone_two.session(two));
    assert_eq!(alone_one.session(two), None);
    for index in 0..6 {
        assert_eq!(mixed.store().chunk(one, index), alone_one.store().chunk(one, index));
        assert_eq!(mixed.store().chunk(two, index), alone_two.store().chunk(two, index));
    }
    // each failed in its own way: the second over a chunk out of range, the
    // first over content that does not hash to its made-up hash
    assert_eq!(
        mixed.session(two).unwrap().failure,
        Some(TransferError::ProtocolViolation)
    );
    assert_eq!(
        mixed.session(one).unwrap().failure,
        Some(TransferError::HashMismatch)
    );
}
