use flight_services::endian::{get_le, get_u128, get_u32, get_u64, put_le, put_u128, put_u32, put_u64};

#[test]
fn put_writes_the_lowest_byte_first() {
    let mut out = vec![9];
    put_u32(&mut out, 0x0403_0201);
    assert_eq!(out, vec![9, 1, 2, 3, 4]);

    let mut out = Vec::new();
    put_u64(&mut out, 258);
    assert_eq!(out, vec![2, 1, 0, 0, 0, 0, 0, 0]);

    let mut out = Vec::new();
    put_u128(&mut out, 0x100f0e0d0c0b0a090807060504030201u128);
    assert_eq!(out, (1..=16).collect::<Vec<u8>>());

    let mut out = Vec::new();
    put_le(&mut out, 0x0102_0304, 2);
    assert_eq!(out, vec![4, 3]);
    put_le(&mut out, 7, 0);
    assert_eq!(out, vec![4, 3]);
}

#[test]
fn get_reads_the_lowest_byte_first() {
    assert_eq!(get_u32(&[1, 2, 3, 4]), 0x0403_0201);
    assert_eq!(get_u64(&[2, 1, 0, 0, 0, 0, 0, 0]), 258);
    assert_eq!(get_u64(&[255; 8]), u64::MAX);
    assert_eq!(get_u128(&[255; 16]), u128::MAX);
    assert_eq!(get_le(&[]), 0);
    assert_eq!(get_le(&[0, 1]), 256);
    assert_eq!(get_le(&[1, 0, 0]), 1);
}

#[test]
fn get_undoes_put() {
    for value in [0u64, 1, 255, 256, 65535, 1 << 32, u64::MAX - 1, u64::MAX] {
        let mut out = Vec::new();
        put_u64(&mut out, value);
        assert_eq!(out, value.to_le_bytes().to_vec());
        assert_eq!(get_u64(&out), value);
    }
    for value in [0u32, 0o644, u32::MAX] {
        let mut out = Vec::new();
        put_u32(&mut out, value);
        assert_eq!(out, value.to_le_bytes().to_vec());
        assert_eq!(get_u32(&out), value);
    }
    for value in [0u128, 1 << 64, u128::MAX] {
        let mut out = Vec::new();
        put_u128(&mut out, value);
        assert_eq!(out, value.to_le_bytes().to_vec());
        assert_eq!(get_u128(&out), value);
    }
}
