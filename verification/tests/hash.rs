use flight_services::hash::{ContentHash, HASH_LEN};

fn hex(hash: &ContentHash) -> String {
    String::from_utf8(hash.to_hex()).unwrap()
}

#[test]
fn hash_of_known_content() {
    // BLAKE2s with a sixteen-byte digest
    assert_eq!(hex(&ContentHash::of(b"")), "64550d6ffe2c0a01a14aba1eade0200c");
    assert_eq!(hex(&ContentHash::of(b"test1")), "852a4bd22601f83e0b5e4928b6f8383c");
    assert_eq!(hex(&ContentHash::of(b"abc")), "aa4938119b1dc7b87cbad0ffd200d0ae");
    assert_eq!(hex(&ContentHash::of(&[1u8; 5000])), "0fdb01661527fd67ba048d91ada13b18");
}

#[test]
fn hash_value_is_little_endian() {
    assert_eq!(
        ContentHash::of(b"test1").value,
        80049492840748282019387335481599142533u128
    );
}

#[test]
fn same_content_same_hash() {
    let a = ContentHash::of(&[7u8; 300]);
    let b = ContentHash::of(&vec![7u8; 300]);
    assert_eq!(a, b);
    assert_ne!(a, ContentHash::of(&[7u8; 301]));
}

#[test]
fn hash_is_not_its_input() {
    let input: Vec<u8> = (0..16).collect();
    assert_ne!(ContentHash::of(&input).to_bytes(), input);
}

#[test]
fn from_bytes_takes_sixteen_bytes_only() {
    assert_eq!(HASH_LEN, 16);
    let bytes: Vec<u8> = (1..=16).collect();
    let hash = ContentHash::from_bytes(&bytes).unwrap();
    assert_eq!(hash.value, 0x100f0e0d0c0b0a090807060504030201u128);
    assert_eq!(hash.to_bytes(), bytes);
    assert_eq!(ContentHash::from_bytes(&bytes[..15]), None);
    assert_eq!(ContentHash::from_bytes(&[0u8; 17]), None);
    assert_eq!(ContentHash::from_bytes(&[]), None);
}

#[test]
fn hex_name_has_two_digits_a_byte() {
    let hash = ContentHash { value: 0x100f0e0d0c0b0a090807060504030201u128 };
    assert_eq!(hex(&hash), "0102030405060708090a0b0c0d0e0f10");
    assert_eq!(hex(&ContentHash { value: 0 }), "00000000000000000000000000000000");
    assert_eq!(hex(&ContentHash { value: u128::MAX }), "ffffffffffffffffffffffffffffffff");
    assert_eq!(hex(&ContentHash { value: 0xab }), "ab000000000000000000000000000000");
}

#[test]
fn from_hex_reads_directory_names() {
    let hash = ContentHash::from_hex(b"0102030405060708090a0b0c0d0e0f10").unwrap();
    assert_eq!(hash.value, 0x100f0e0d0c0b0a090807060504030201u128);
    assert_eq!(
        ContentHash::from_hex(b"852a4bd22601f83e0b5e4928b6f8383c"),
        Some(ContentHash::of(b"test1"))
    );
    for value in [0u128, 1, 0xab, u128::MAX, 1 << 64] {
        let hash = ContentHash { value };
        assert_eq!(ContentHash::from_hex(&hash.to_hex()), Some(hash));
    }
}

#[test]
fn from_hex_refuses_other_names() {
    for name in [
        &b""[..],
        b"0102030405060708090a0b0c0d0e0f1",
        b"0102030405060708090a0b0c0d0e0f100",
        b"0102030405060708090A0B0C0D0E0F10",
        b"0102030405060708090a0b0c0d0e0f1g",
        b"g102030405060708090a0b0c0d0e0f10",
        b"0102030405060708090a0b0c0d0e0f 0",
        b"0x02030405060708090a0b0c0d0e0f10",
    ] {
        assert_eq!(ContentHash::from_hex(name), None, "{:?}", name);
    }
}
