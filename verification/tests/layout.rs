use flight_services::hash::ContentHash;
use flight_services::layout::{
    chunk_dir_path, chunk_file_name, chunk_file_path, parse_chunk_index, SEPARATOR,
};

#[test]
fn chunk_file_name_is_the_index_in_decimal() {
    assert_eq!(chunk_file_name(0), b"0".to_vec());
    assert_eq!(chunk_file_name(9), b"9".to_vec());
    assert_eq!(chunk_file_name(10), b"10".to_vec());
    assert_eq!(chunk_file_name(205), b"205".to_vec());
    assert_eq!(chunk_file_name(u64::MAX), b"18446744073709551615".to_vec());
}

#[test]
fn parse_chunk_index_reads_decimal_names() {
    assert_eq!(parse_chunk_index(b"0"), Some(0));
    assert_eq!(parse_chunk_index(b"7"), Some(7));
    assert_eq!(parse_chunk_index(b"10"), Some(10));
    assert_eq!(parse_chunk_index(b"18446744073709551615"), Some(u64::MAX));
}

#[test]
fn parse_chunk_index_refuses_other_names() {
    for name in [
        &b""[..],
        b"00",
        b"01",
        b"1a",
        b"a1",
        b"-1",
        b"+1",
        b" 1",
        b"1 ",
        b"1.0",
        b"0x10",
        b"18446744073709551616",
        b"99999999999999999999",
        b"184467440737095516150",
    ] {
        assert_eq!(parse_chunk_index(name), None, "{:?}", name);
    }
}

#[test]
fn names_round_trip() {
    for index in [0u64, 1, 9, 10, 99, 100, 4095, 4096, 1 << 32, u64::MAX - 1, u64::MAX] {
        assert_eq!(parse_chunk_index(&chunk_file_name(index)), Some(index));
        assert_eq!(chunk_file_name(index), index.to_string().into_bytes());
    }
}

#[test]
fn paths_follow_the_layout() {
    assert_eq!(SEPARATOR, b'/');
    let hash = ContentHash { value: 0x100f0e0d0c0b0a090807060504030201u128 };
    assert_eq!(
        chunk_dir_path(b"storage", hash),
        b"storage/0102030405060708090a0b0c0d0e0f10".to_vec()
    );
    assert_eq!(
        chunk_file_path(b"storage", hash, 12),
        b"storage/0102030405060708090a0b0c0d0e0f10/12".to_vec()
    );
    assert_eq!(
        chunk_file_path(b"", ContentHash::of(b"test1"), 0),
        b"/852a4bd22601f83e0b5e4928b6f8383c/0".to_vec()
    );
}
