use flight_services::error::TransferError;
use flight_services::hash::ContentHash;
use flight_services::storage::{check_integrity, same_bytes, ChunkDir, ChunkSize, ChunkStore};

#[test]
fn chunk_size_is_never_zero() {
    assert!(ChunkSize::new(0).is_none());
    assert_eq!(ChunkSize::new(1).unwrap().get(), 1);
    assert_eq!(ChunkSize::new(4096).unwrap().get(), 4096);
    assert!(ChunkStore::with_chunk_size(0).is_none());
    assert_eq!(ChunkStore::with_chunk_size(7).unwrap().chunk_len(), 7);
    assert_eq!(ChunkStore::new().chunk_len(), 4096);
}

#[test]
fn dir_store_writes_only_what_differs() {
    let mut dir = ChunkDir::new();
    assert!(!dir.contains(3));
    assert_eq!(dir.get(3), None);
    assert!(dir.store(3, vec![1, 2, 3]));
    assert!(dir.contains(3));
    assert_eq!(dir.get(3), Some(&vec![1, 2, 3]));
    // the same bytes again: nothing to write
    assert!(!dir.store(3, vec![1, 2, 3]));
    // other bytes: the last writer wins
    assert!(dir.store(3, vec![9]));
    assert_eq!(dir.get(3), Some(&vec![9]));
    assert!(dir.remove(3));
    assert!(!dir.remove(3));
    assert!(!dir.contains(3));
}

#[test]
fn dir_missing_lists_gaps_in_order() {
    let mut dir = ChunkDir::new();
    assert_eq!(dir.missing(0), Vec::<u64>::new());
    assert_eq!(dir.missing(3), vec![0, 1, 2]);
    dir.store(1, vec![1]);
    dir.store(4, vec![4]);
    dir.store(7, vec![7]);
    assert_eq!(dir.missing(6), vec![0, 2, 3, 5]);
    assert_eq!(dir.missing(2), vec![0]);
    assert!(!dir.is_complete(2));
    dir.store(0, vec![0]);
    assert!(dir.is_complete(2));
    assert!(dir.is_complete(0));
    assert!(!dir.is_complete(3));
    assert_eq!(dir.missing(2), Vec::<u64>::new());
}

#[test]
fn dir_assemble_needs_every_chunk() {
    let mut dir = ChunkDir::new();
    assert_eq!(dir.assemble(0), Ok(Vec::new()));
    dir.store(0, vec![1, 2]);
    dir.store(2, vec![5]);
    assert_eq!(dir.assemble(3), Err(TransferError::IncompleteTransfer));
    assert_eq!(dir.assemble(1), Ok(vec![1, 2]));
    dir.store(1, vec![3, 4]);
    assert_eq!(dir.assemble(3), Ok(vec![1, 2, 3, 4, 5]));
    assert_eq!(dir.assemble(2), Ok(vec![1, 2, 3, 4]));
    assert_eq!(dir.assemble(4), Err(TransferError::IncompleteTransfer));
}

#[test]
fn initialize_file_stores_every_chunk_once() {
    let mut store = ChunkStore::with_chunk_size(4).unwrap();
    let data: Vec<u8> = (0..10).collect();
    let info = store.initialize_file(&data);
    assert_eq!(info.hash, ContentHash::of(&data));
    assert_eq!(info.total_chunks, 3);
    assert_eq!(info.written, vec![0, 1, 2]);
    assert_eq!(store.chunk(info.hash, 0), Some(vec![0, 1, 2, 3]));
    assert_eq!(store.chunk(info.hash, 1), Some(vec![4, 5, 6, 7]));
    assert_eq!(store.chunk(info.hash, 2), Some(vec![8, 9]));
    assert_eq!(store.chunk(info.hash, 3), None);
    assert!(store.chunk_exists(info.hash, 2));
    assert!(!store.chunk_exists(info.hash, 3));

    // again: same hash, nothing written, nothing changed
    let before = store.clone();
    let again = store.initialize_file(&data);
    assert_eq!(again.hash, info.hash);
    assert_eq!(again.total_chunks, 3);
    assert_eq!(again.written, Vec::<u64>::new());
    assert_eq!(store, before);
}

#[test]
fn initialize_file_fills_gaps_only() {
    let mut store = ChunkStore::with_chunk_size(4).unwrap();
    let data: Vec<u8> = (0..10).collect();
    let hash = store.initialize_file(&data).hash;
    assert!(store.remove_chunk(hash, 1));
    assert!(!store.remove_chunk(hash, 1));
    assert_eq!(store.missing_chunks(hash, 3), vec![1]);
    let info = store.initialize_file(&data);
    assert_eq!(info.written, vec![1]);
    assert_eq!(store.missing_chunks(hash, 3), Vec::<u64>::new());
    assert_eq!(store.reassemble(hash, 3), Ok(data));
}

#[test]
fn initialize_empty_file() {
    let mut store = ChunkStore::new();
    let info = store.initialize_file(&[]);
    assert_eq!(info.total_chunks, 0);
    assert_eq!(info.written, Vec::<u64>::new());
    assert_eq!(store.reassemble(info.hash, 0), Ok(Vec::new()));
    assert!(store.is_complete(info.hash, 0));
}

#[test]
fn missing_chunks_of_unknown_hash_is_everything() {
    let store = ChunkStore::new();
    let hash = ContentHash { value: 42 };
    assert_eq!(store.missing_chunks(hash, 4), vec![0, 1, 2, 3]);
    assert!(!store.chunk_exists(hash, 0));
    assert!(!store.is_complete(hash, 1));
    assert!(store.is_complete(hash, 0));
    assert_eq!(store.chunk(hash, 0), None);
}

#[test]
fn store_chunk_keeps_hashes_apart() {
    let mut store = ChunkStore::new();
    let one = ContentHash { value: 1 };
    let two = ContentHash { value: 2 };
    assert!(store.store_chunk(one, 0, vec![1]));
    assert!(store.store_chunk(two, 0, vec![2]));
    assert!(!store.store_chunk(one, 0, vec![1]));
    assert_eq!(store.chunk(one, 0), Some(vec![1]));
    assert_eq!(store.chunk(two, 0), Some(vec![2]));
    store.remove_dir(one);
    assert_eq!(store.chunk(one, 0), None);
    assert_eq!(store.chunk(two, 0), Some(vec![2]));
}

#[test]
fn reassemble_reports_what_is_wrong() {
    let mut store = ChunkStore::with_chunk_size(3).unwrap();
    let data = b"test1".to_vec();
    let hash = store.initialize_file(&data).hash;
    assert_eq!(store.reassemble(hash, 2), Ok(data.clone()));
    // leaves the chunks where they are
    assert_eq!(store.reassemble(hash, 2), Ok(data.clone()));

    // a chunk is gone
    store.remove_chunk(hash, 1);
    assert_eq!(store.reassemble(hash, 2), Err(TransferError::IncompleteTransfer));

    // a chunk was altered
    store.store_chunk(hash, 1, b"t2".to_vec());
    assert_eq!(store.reassemble(hash, 2), Err(TransferError::HashMismatch));

    // both: the absent chunk is reported first
    store.remove_chunk(hash, 0);
    assert_eq!(store.reassemble(hash, 2), Err(TransferError::IncompleteTransfer));

    // wrong number of chunks
    store.initialize_file(&data);
    assert_eq!(store.reassemble(hash, 1), Err(TransferError::HashMismatch));
    assert_eq!(store.reassemble(hash, 3), Err(TransferError::IncompleteTransfer));
}

#[test]
fn check_integrity_compares_hashes() {
    let a = ContentHash { value: 1 };
    let b = ContentHash { value: 2 };
    assert_eq!(check_integrity(vec![1, 2], a, a), Ok(vec![1, 2]));
    assert_eq!(check_integrity(vec![1, 2], a, b), Err(TransferError::HashMismatch));
}

#[test]
fn same_bytes_compares_content() {
    assert!(same_bytes(&vec![], &vec![]));
    assert!(same_bytes(&vec![1, 2], &vec![1, 2]));
    assert!(!same_bytes(&vec![1, 2], &vec![1, 3]));
    assert!(!same_bytes(&vec![1, 2], &vec![1]));
}

#[test]
fn received_and_missing_make_up_the_file() {
    let mut dir = ChunkDir::new();
    assert_eq!(dir.received(3), Vec::<u64>::new());
    dir.store(2, vec![2]);
    dir.store(0, vec![0]);
    dir.store(5, vec![5]);
    assert_eq!(dir.received(4), vec![0, 2]);
    assert_eq!(dir.missing(4), vec![1, 3]);
    assert_eq!(dir.received(6), vec![0, 2, 5]);
    assert_eq!(dir.received(0), Vec::<u64>::new());

    let mut store = ChunkStore::with_chunk_size(4).unwrap();
    let data: Vec<u8> = (0..10).collect();
    let hash = store.initialize_file(&data).hash;
    assert_eq!(store.received_chunks(hash, 3), vec![0, 1, 2]);
    store.remove_chunk(hash, 1);
    assert_eq!(store.received_chunks(hash, 3), vec![0, 2]);
    assert_eq!(store.received_chunks(ContentHash { value: 0 }, 3), Vec::<u64>::new());
}
