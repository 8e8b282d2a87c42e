use flight_services::codec::{decode, encode};
use flight_services::error::TransferError;
use flight_services::hash::ContentHash;
use flight_services::messages::Message;
use flight_services::protocol::{Action, Event, State};
use flight_services::service::Service;
use flight_services::storage::ChunkStore;
use std::collections::VecDeque;

// What the two services did to the world outside them.
struct Link {
    // Each file written out: destination, mode, content.
    files: Vec<(Vec<u8>, u32, Vec<u8>)>,
    // Chunk indices that went over the link, in order.
    chunks_sent: Vec<u64>,
}

impl Link {
    fn new() -> Link {
        Link {
            files: Vec::new(),
            chunks_sent: Vec::new(),
        }
    }

    fn read(&self, dest: &str) -> Option<Vec<u8>> {
        self.files
            .iter()
            .rev()
            .find(|(path, _, _)| path.as_slice() == dest.as_bytes())
            .map(|(_, _, content)| content.clone())
    }
}

fn perform(actions: Vec<Action>, outbox: &mut VecDeque<Vec<u8>>, link: &mut Link) {
    for action in actions {
        match action {
            Action::Send(message) => {
                if let Message::ChunkData { index, .. } = &message {
                    link.chunks_sent.push(*index);
                }
                outbox.push_back(encode(&message));
            }
            Action::Export {
                dest_path,
                mode,
                content,
            } => link.files.push((dest_path, mode, content)),
        }
    }
}

// Carries every datagram to the other side until both sides are silent.
fn exchange(client: &mut Service, server: &mut Service, first: Vec<Action>, link: &mut Link) {
    let mut to_server: VecDeque<Vec<u8>> = VecDeque::new();
    let mut to_client: VecDeque<Vec<u8>> = VecDeque::new();
    perform(first, &mut to_server, link);
    loop {
        if let Some(datagram) = to_server.pop_front() {
            let message = decode(&datagram).unwrap();
            perform(server.dispatch(message), &mut to_client, link);
        } else if let Some(datagram) = to_client.pop_front() {
            let message = decode(&datagram).unwrap();
            perform(client.dispatch(message), &mut to_server, link);
        } else {
            break;
        }
    }
}

fn upload(
    client: &mut Service,
    server: &mut Service,
    contents: &[u8],
    dest: &str,
    link: &mut Link,
) -> Result<ContentHash, TransferError> {
    let (hash, actions) = client.upload(contents, dest.as_bytes().to_vec(), 0o644);
    exchange(client, server, actions, link);
    client.session(hash).unwrap().verdict().map(|_| hash)
}

fn services() -> (Service, Service) {
    (Service::new(ChunkStore::new()), Service::new(ChunkStore::new()))
}

// Upload single-chunk file from scratch
#[test]
fn upload_single() {
    let (mut client, mut server) = services();
    let mut link = Link::new();
    let dest = "dest";

    let contents = "test1".as_bytes();

    let result = upload(&mut client, &mut server, contents, dest, &mut link);

    assert!(result.is_ok());

    let hash = result.unwrap();
    assert_eq!(server.state(hash), Some(State::Done));

    // Verify the final file's contents
    let dest_contents = link.read(dest).unwrap();
    assert_eq!(&contents[..], dest_contents.as_slice());
}

// Upload multi-chunk file from scratch
#[test]
fn upload_multi_clean() {
    let (mut client, mut server) = services();
    let mut link = Link::new();
    let dest = "dest";

    let contents = [1; 5000];

    let result = upload(&mut client, &mut server, &contents, dest, &mut link);

    assert!(result.is_ok());
    assert_eq!(link.chunks_sent, vec![0, 1]);

    // Verify the final file's contents
    let dest_contents = link.read(dest).unwrap();
    assert_eq!(&contents[..], dest_contents.as_slice());
}

// Upload multi-chunk file which we already have 1 chunk for
#[test]
fn upload_multi_resume() {
    let (mut client, mut server) = services();
    let mut link = Link::new();
    let dest = "dest";

    let contents = [2; 5000];

    // Go ahead and upload the whole file so we can manipulate the storage
    let result = upload(&mut client, &mut server, &contents, dest, &mut link);
    assert!(result.is_ok());
    let hash = result.unwrap();

    // Remove a chunk so we can test the retry logic
    assert!(server.remove_chunk(hash, 0));
    link.chunks_sent.clear();
    link.files.clear();

    // Upload the file again
    let result = upload(&mut client, &mut server, &contents, dest, &mut link);
    assert!(result.is_ok());

    // Only the chunk that was gone crossed the link
    assert_eq!(link.chunks_sent, vec![0]);

    // Verify the final file's contents
    let dest_contents = link.read(dest).unwrap();
    assert_eq!(&contents[..], dest_contents.as_slice());
}

// Upload multi-chunk file which we already have all chunks for
#[test]
fn upload_multi_complete() {
    let (mut client, mut server) = services();
    let mut link = Link::new();
    let dest = "dest";

    let contents = [3; 5000];

    // Upload the file once (clean upload)
    let result = upload(&mut client, &mut server, &contents, dest, &mut link);
    assert!(result.is_ok());
    let hash = result.unwrap();
    link.chunks_sent.clear();
    link.files.clear();

    // Upload the file again
    let result = upload(&mut client, &mut server, &contents, dest, &mut link);
    assert!(result.is_ok());
    assert_eq!(result.unwrap(), hash);
    assert!(link.chunks_sent.is_empty());
    assert_eq!(server.state(hash), Some(State::Done));

    // Verify the final file's contents
    let dest_contents = link.read(dest).unwrap();
    assert_eq!(&contents[..], dest_contents.as_slice());
}

// Upload. Create hash mismatch.
#[test]
fn upload_bad_hash() {
    let (mut client, server) = services();
    let mut server = server;
    let mut link = Link::new();
    let dest = "dest";

    let contents = "test1".as_bytes();

    // Upload the file so we can mess with the storage
    let result = upload(&mut client, &mut server, contents, dest, &mut link);
    assert!(result.is_ok());
    let hash = result.unwrap();
    link.files.clear();

    // Tweak the chunk contents so the future hash calculation will fail
    let mut store = server.into_store();
    assert!(store.store_chunk(hash, 0, "bad data".as_bytes().to_vec()));
    let mut server = Service::new(store);

    let result = upload(&mut client, &mut server, contents, dest, &mut link);
    assert_eq!(result, Err(TransferError::HashMismatch));
    assert_eq!(server.state(hash), Some(State::Failed));
    assert_eq!(
        server.session(hash).unwrap().failure,
        Some(TransferError::HashMismatch)
    );
    // Nothing was written out
    assert!(link.read(dest).is_none());
}

#[test]
fn upload_empty_file() {
    let (mut client, mut server) = services();
    let mut link = Link::new();
    let result = upload(&mut client, &mut server, &[], "empty", &mut link);
    assert!(result.is_ok());
    assert!(link.chunks_sent.is_empty());
    assert_eq!(link.read("empty").unwrap(), Vec::<u8>::new());
}

#[test]
fn upload_exact_multiple_of_chunk_size() {
    let mut client = Service::new(ChunkStore::with_chunk_size(5).unwrap());
    let mut server = Service::new(ChunkStore::with_chunk_size(5).unwrap());
    let mut link = Link::new();
    let contents: Vec<u8> = (0..20).collect();
    let result = upload(&mut client, &mut server, &contents, "dest", &mut link);
    assert!(result.is_ok());
    assert_eq!(link.chunks_sent, vec![0, 1, 2, 3]);
    assert_eq!(link.read("dest").unwrap(), contents);
}

#[test]
fn upload_twice_yields_same_hash_and_stores_nothing_new() {
    let (mut client, mut server) = services();
    let mut link = Link::new();
    let contents = [4; 5000];
    let first = upload(&mut client, &mut server, &contents, "a", &mut link).unwrap();
    let stored: Vec<_> = (0..2).map(|i| server.store().chunk(first, i)).collect();
    let second = upload(&mut client, &mut server, &contents, "b", &mut link).unwrap();
    assert_eq!(first, second);
    let stored_after: Vec<_> = (0..2).map(|i| server.store().chunk(first, i)).collect();
    assert_eq!(stored, stored_after);
    assert!(!server.store().chunk_exists(first, 2));
    // The second upload went to its own destination
    assert_eq!(link.read("b").unwrap(), contents.to_vec());
}

#[test]
fn two_uploads_through_one_service_do_not_mix() {
    let (mut client, mut server) = services();
    let mut link = Link::new();
    let one = [5; 5000];
    let two = [6; 9000];
    let (hash_one, first_one) = client.upload(&one, b"one".to_vec(), 0o600);
    let (hash_two, first_two) = client.upload(&two, b"two".to_vec(), 0o640);
    assert_ne!(hash_one, hash_two);
    // Both announcements are on the link before either transfer moves on
    let mut first = first_one;
    first.extend(first_two);
    exchange(&mut client, &mut server, first, &mut link);
    assert_eq!(client.state(hash_one), Some(State::Done));
    assert_eq!(client.state(hash_two), Some(State::Done));
    assert_eq!(link.read("one").unwrap(), one.to_vec());
    assert_eq!(link.read("two").unwrap(), two.to_vec());
    let modes: Vec<u32> = link.files.iter().map(|(_, mode, _)| *mode).collect();
    assert!(modes.contains(&0o600) && modes.contains(&0o640));
    assert_eq!(server.store().missing_chunks(hash_one, 2), Vec::<u64>::new());
    assert_eq!(server.store().missing_chunks(hash_two, 3), Vec::<u64>::new());
    assert!(!server.store().chunk_exists(hash_one, 2));
}

#[test]
fn download_writes_a_complete_file_at_once() {
    let (mut client, mut server) = services();
    let mut link = Link::new();
    let contents = [7; 6000];
    let hash = upload(&mut client, &mut server, &contents, "first", &mut link).unwrap();
    let actions = server.download(hash, b"second".to_vec(), 0o444);
    let mut outbox = VecDeque::new();
    perform(actions, &mut outbox, &mut link);
    assert_eq!(link.read("second").unwrap(), contents.to_vec());
    assert_eq!(outbox.len(), 1);
    assert_eq!(decode(&outbox[0]), Ok(Message::Done { hash }));
}

#[test]
fn service_restart_resumes_from_the_store() {
    let (mut client, mut server) = services();
    let mut link = Link::new();
    let contents = [8; 10000];
    let hash = upload(&mut client, &mut server, &contents, "dest", &mut link).unwrap();
    let mut store = server.into_store();
    assert!(store.remove_chunk(hash, 1));
    let mut server = Service::new(store);
    assert_eq!(server.state(hash), None);
    link.chunks_sent.clear();
    let again = upload(&mut client, &mut server, &contents, "dest", &mut link);
    assert_eq!(again, Ok(hash));
    assert_eq!(link.chunks_sent, vec![1]);
    assert_eq!(link.read("dest").unwrap(), contents.to_vec());
}

#[test]
fn closing_a_session_keeps_its_chunks() {
    let (mut client, mut server) = services();
    let mut link = Link::new();
    let contents = [9; 100];
    let hash = upload(&mut client, &mut server, &contents, "dest", &mut link).unwrap();
    let closed = server.close(hash).unwrap();
    assert_eq!(closed.state, State::Done);
    assert_eq!(server.state(hash), None);
    assert!(server.close(hash).is_none());
    assert!(server.store().chunk_exists(hash, 0));
    server.discard(hash);
    assert!(!server.store().chunk_exists(hash, 0));
}

// Carries datagrams over a link that loses every third one, repeats every
// fifth and hands over the newest first; when nothing is left to carry,
// both sides time out.
fn lossy_exchange(
    client: &mut Service,
    server: &mut Service,
    hash: ContentHash,
    first: Vec<Action>,
    link: &mut Link,
) -> usize {
    let mut to_server: VecDeque<Vec<u8>> = VecDeque::new();
    let mut to_client: VecDeque<Vec<u8>> = VecDeque::new();
    perform(first, &mut to_server, link);
    let mut carried = 0usize;
    let mut rounds = 0usize;
    while client.state(hash) != Some(State::Done) && rounds < 10_000 {
        rounds += 1;
        let (queue, to_the_server) = if !to_server.is_empty() {
            (&mut to_server, true)
        } else if !to_client.is_empty() {
            (&mut to_client, false)
        } else {
            perform(server.handle(hash, Event::Timeout), &mut to_client, link);
            perform(client.handle(hash, Event::Timeout), &mut to_server, link);
            continue;
        };
        let datagram = queue.pop_back().unwrap();
        carried += 1;
        if carried % 3 == 0 {
            continue;
        }
        if carried % 5 == 0 {
            queue.push_front(datagram.clone());
        }
        let message = decode(&datagram).unwrap();
        if to_the_server {
            perform(server.dispatch(message), &mut to_client, link);
        } else {
            perform(client.dispatch(message), &mut to_server, link);
        }
    }
    rounds
}

#[test]
fn upload_over_a_lossy_link() {
    let mut client = Service::new(ChunkStore::with_chunk_size(64).unwrap());
    let mut server = Service::new(ChunkStore::with_chunk_size(64).unwrap());
    let mut link = Link::new();
    let contents: Vec<u8> = (0..5000u32).map(|i| (i * 7 % 256) as u8).collect();
    let (hash, actions) = client.upload(&contents, b"dest".to_vec(), 0o644);
    let rounds = lossy_exchange(&mut client, &mut server, hash, actions, &mut link);
    assert!(rounds < 10_000);
    assert_eq!(client.state(hash), Some(State::Done));
    assert_eq!(server.state(hash), Some(State::Done));
    assert_eq!(server.store().reassemble(hash, 79), Ok(contents.clone()));
    // whatever was written out, and however often, is the file
    assert!(!link.files.is_empty());
    for (path, mode, content) in &link.files {
        assert_eq!(path.as_slice(), b"dest");
        assert_eq!(*mode, 0o644);
        assert_eq!(content, &contents);
    }
    // chunks were lost on the way and sent again
    assert!(link.chunks_sent.len() > 79);
}
