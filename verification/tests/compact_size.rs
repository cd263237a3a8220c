use legacy_tx::{read_compact_size, BitcoinError};

fn read(data: &[u8], offset: usize) -> (u64, usize) {
    match read_compact_size(data, offset) {
        Ok(pair) => pair,
        Err(e) => panic!("unexpected error: {:?}", e),
    }
}

#[test]
fn compact_size_single_byte_values() {
    assert_eq!(read(&[0], 0), (0, 1));
    assert_eq!(read(&[1], 0), (1, 1));
    assert_eq!(read(&[252], 0), (252, 1));
}

#[test]
fn compact_size_two_byte_values() {
    assert_eq!(read(&[253, 253, 0], 0), (253, 3));
    assert_eq!(read(&[253, 254, 0], 0), (254, 3));
    assert_eq!(read(&[253, 255, 0], 0), (255, 3));
    assert_eq!(read(&[253, 0x34, 0x12], 0), (0x1234, 3));
    assert_eq!(read(&[253, 0xff, 0xff], 0), (65535, 3));
}

#[test]
fn compact_size_four_byte_values() {
    assert_eq!(read(&[254, 0, 0, 1, 0], 0), (65536, 5));
    assert_eq!(read(&[254, 0x78, 0x56, 0x34, 0x12], 0), (0x1234_5678, 5));
    assert_eq!(read(&[254, 0xff, 0xff, 0xff, 0xff], 0), (4_294_967_295, 5));
}

#[test]
fn compact_size_eight_byte_values() {
    assert_eq!(read(&[255, 0, 0, 0, 0, 1, 0, 0, 0], 0), (4_294_967_296, 9));
    assert_eq!(
        read(&[255, 0xef, 0xcd, 0xab, 0x89, 0x67, 0x45, 0x23, 0x01], 0),
        (0x0123_4567_89ab_cdef, 9)
    );
    assert_eq!(read(&[255; 9], 0), (u64::MAX, 9));
}

#[test]
fn compact_size_accepts_longer_forms_of_small_values() {
    assert_eq!(read(&[253, 5, 0], 0), (5, 3));
    assert_eq!(read(&[254, 5, 0, 0, 0], 0), (5, 5));
    assert_eq!(read(&[255, 5, 0, 0, 0, 0, 0, 0, 0], 0), (5, 9));
}

#[test]
fn compact_size_reads_at_an_offset() {
    let data = [9, 9, 253, 0x01, 0x02, 7];
    assert_eq!(read(&data, 2), (0x0201, 3));
    assert_eq!(read(&data, 5), (7, 1));
    assert_eq!(read(&data, 0), (9, 1));
}

#[test]
fn compact_size_ignores_what_follows() {
    assert_eq!(read(&[17, 1, 2, 3], 0), (17, 1));
    assert_eq!(read(&[253, 1, 0, 99, 99], 0), (1, 3));
}

#[test]
fn compact_size_offset_out_of_bounds() {
    assert!(matches!(read_compact_size(&[], 0), Err(BitcoinError::InvalidTransaction)));
    assert!(matches!(read_compact_size(&[1, 2], 2), Err(BitcoinError::InvalidTransaction)));
    assert!(matches!(read_compact_size(&[1, 2], 3), Err(BitcoinError::InvalidTransaction)));
    assert!(matches!(
        read_compact_size(&[1, 2], usize::MAX),
        Err(BitcoinError::InvalidTransaction)
    ));
}

#[test]
fn compact_size_truncated_payload() {
    assert!(matches!(read_compact_size(&[253], 0), Err(BitcoinError::InvalidTransaction)));
    assert!(matches!(read_compact_size(&[253, 1], 0), Err(BitcoinError::InvalidTransaction)));
    assert!(matches!(
        read_compact_size(&[254, 1, 2, 3], 0),
        Err(BitcoinError::InvalidTransaction)
    ));
    assert!(matches!(
        read_compact_size(&[255, 1, 2, 3, 4, 5, 6, 7], 0),
        Err(BitcoinError::InvalidTransaction)
    ));
    assert!(matches!(
        read_compact_size(&[0, 0, 253, 1], 2),
        Err(BitcoinError::InvalidTransaction)
    ));
}
