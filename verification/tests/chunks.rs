use flight_services::chunks::{
    append_bytes, chunk_at, count_chunks, join_chunks, split_chunks, DEFAULT_CHUNK_SIZE,
};

#[test]
fn default_chunk_size_is_4096() {
    assert_eq!(DEFAULT_CHUNK_SIZE, 4096);
}

#[test]
fn count_chunks_rounds_up() {
    assert_eq!(count_chunks(0, 4096), 0);
    assert_eq!(count_chunks(1, 4096), 1);
    assert_eq!(count_chunks(5, 4096), 1);
    assert_eq!(count_chunks(4096, 4096), 1);
    assert_eq!(count_chunks(4097, 4096), 2);
    assert_eq!(count_chunks(5000, 4096), 2);
    assert_eq!(count_chunks(8192, 4096), 2);
    assert_eq!(count_chunks(10, 1), 10);
    assert_eq!(count_chunks(10, 3), 4);
    assert_eq!(count_chunks(usize::MAX, 1), usize::MAX as u64);
}

#[test]
fn chunks_are_full_but_the_last() {
    let data: Vec<u8> = (0..10).collect();
    assert_eq!(chunk_at(&data, 4, 0), vec![0, 1, 2, 3]);
    assert_eq!(chunk_at(&data, 4, 1), vec![4, 5, 6, 7]);
    assert_eq!(chunk_at(&data, 4, 2), vec![8, 9]);
    assert_eq!(chunk_at(&data, 10, 0), data);
    assert_eq!(chunk_at(&data, 11, 0), data);
}

#[test]
fn split_gives_every_chunk_in_order() {
    let data: Vec<u8> = (0..10).collect();
    assert_eq!(
        split_chunks(&data, 4),
        vec![vec![0, 1, 2, 3], vec![4, 5, 6, 7], vec![8, 9]]
    );
    assert_eq!(split_chunks(&data, 5), vec![vec![0, 1, 2, 3, 4], vec![5, 6, 7, 8, 9]]);
    assert_eq!(split_chunks(&[], 4), Vec::<Vec<u8>>::new());
    let big = [1u8; 5000];
    let chunks = split_chunks(&big, DEFAULT_CHUNK_SIZE);
    assert_eq!(chunks.len(), 2);
    assert_eq!(chunks[0].len(), 4096);
    assert_eq!(chunks[1].len(), 904);
}

#[test]
fn join_undoes_split() {
    for len in [0usize, 1, 4, 5, 16, 17, 5000] {
        let data: Vec<u8> = (0..len).map(|i| (i % 251) as u8).collect();
        for size in [1usize, 2, 4, 7, 4096, 10000] {
            assert_eq!(join_chunks(&split_chunks(&data, size)), data);
        }
    }
}

#[test]
fn join_lays_chunks_end_to_end() {
    assert_eq!(join_chunks(&vec![vec![1, 2], vec![], vec![3]]), vec![1, 2, 3]);
    assert_eq!(join_chunks(&Vec::new()), Vec::<u8>::new());
}

#[test]
fn append_bytes_appends() {
    let mut data = vec![1, 2];
    append_bytes(&mut data, &vec![3, 4, 5]);
    assert_eq!(data, vec![1, 2, 3, 4, 5]);
    append_bytes(&mut data, &Vec::new());
    assert_eq!(data, vec![1, 2, 3, 4, 5]);
}
