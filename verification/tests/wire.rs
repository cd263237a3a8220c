use legacy_tx::read_compact_size;
use legacy_tx::wire::{
    read_le16, read_le32, read_le64, write_compact_size, write_le16, write_le32, write_le64,
};

fn compact(v: u64) -> Vec<u8> {
    let mut out = Vec::new();
    write_compact_size(&mut out, v);
    out
}

#[test]
fn little_endian_reads() {
    let data = [0x01, 0x02, 0x03, 0x04, 0x05, 0x06, 0x07, 0x08, 0x09];
    assert_eq!(read_le16(&data, 0), 0x0201);
    assert_eq!(read_le16(&data, 7), 0x0908);
    assert_eq!(read_le32(&data, 0), 0x0403_0201);
    assert_eq!(read_le32(&data, 5), 0x0908_0706);
    assert_eq!(read_le64(&data, 0), 0x0807_0605_0403_0201);
    assert_eq!(read_le64(&data, 1), 0x0908_0706_0504_0302);
    assert_eq!(read_le64(&[0xff; 8], 0), u64::MAX);
}

#[test]
fn little_endian_writes_append() {
    let mut out = vec![0xaa];
    write_le16(&mut out, 0x0201);
    assert_eq!(out, vec![0xaa, 0x01, 0x02]);
    write_le32(&mut out, 0x0605_0403);
    assert_eq!(out, vec![0xaa, 0x01, 0x02, 0x03, 0x04, 0x05, 0x06]);
    let mut wide = Vec::new();
    write_le64(&mut wide, 0x0807_0605_0403_0201);
    assert_eq!(wide, vec![1, 2, 3, 4, 5, 6, 7, 8]);
    let mut top = Vec::new();
    write_le64(&mut top, u64::MAX);
    assert_eq!(top, vec![0xff; 8]);
}

#[test]
fn compact_size_writes_the_shortest_form() {
    assert_eq!(compact(0), vec![0]);
    assert_eq!(compact(252), vec![252]);
    assert_eq!(compact(253), vec![253, 253, 0]);
    assert_eq!(compact(254), vec![253, 254, 0]);
    assert_eq!(compact(255), vec![253, 255, 0]);
    assert_eq!(compact(65535), vec![253, 0xff, 0xff]);
    assert_eq!(compact(65536), vec![254, 0, 0, 1, 0]);
    assert_eq!(compact(4_294_967_295), vec![254, 0xff, 0xff, 0xff, 0xff]);
    assert_eq!(compact(4_294_967_296), vec![255, 0, 0, 0, 0, 1, 0, 0, 0]);
    assert_eq!(compact(u64::MAX), vec![255; 9]);
}

#[test]
fn compact_size_written_is_read_back() {
    for v in [
        0u64,
        1,
        252,
        253,
        254,
        255,
        256,
        65535,
        65536,
        4_294_967_295,
        4_294_967_296,
        u64::MAX - 1,
        u64::MAX,
    ] {
        let mut out = vec![9, 9];
        write_compact_size(&mut out, v);
        out.push(7);
        let used = out.len() - 3;
        match read_compact_size(&out, 2) {
            Ok(pair) => assert_eq!(pair, (v, used)),
            Err(e) => panic!("unexpected error: {:?}", e),
        }
    }
}
