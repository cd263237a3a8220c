//! Little-endian integers and compact-size integers on byte sequences.

use vstd::prelude::*;
use crate::error::BitcoinError;

verus! {

/// Whether `part` stands in `buf` from position `at` on.
pub open spec fn holds_at(buf: Seq<u8>, at: int, part: Seq<u8>) -> bool {
    &&& 0 <= at
    &&& at + part.len() <= buf.len()
    &&& buf.subrange(at, at + part.len()) == part
}

/// The unsigned value of the two bytes at `at`, least significant first.
pub open spec fn le16_at(buf: Seq<u8>, at: int) -> int {
    buf[at] as int + 0x100 * (buf[at + 1] as int)
}

/// The unsigned value of the four bytes at `at`, least significant first.
pub open spec fn le32_at(buf: Seq<u8>, at: int) -> int {
    le16_at(buf, at) + 0x1_0000 * le16_at(buf, at + 2)
}

/// The unsigned value of the eight bytes at `at`, least significant first.
pub open spec fn le64_at(buf: Seq<u8>, at: int) -> int {
    le32_at(buf, at) + 0x1_0000_0000 * le32_at(buf, at + 4)
}

/// The two bytes of `v`, least significant first.
pub open spec fn le16_bytes(v: int) -> Seq<u8> {
    seq![(v % 0x100) as u8, (v / 0x100 % 0x100) as u8]
}

/// The four bytes of `v`, least significant first.
pub open spec fn le32_bytes(v: int) -> Seq<u8> {
    le16_bytes(v % 0x1_0000) + le16_bytes(v / 0x1_0000)
}

/// The eight bytes of `v`, least significant first.
pub open spec fn le64_bytes(v: int) -> Seq<u8> {
    le32_bytes(v % 0x1_0000_0000) + le32_bytes(v / 0x1_0000_0000)
}

/// The signed 32-bit number whose two's complement pattern is `v`.
pub open spec fn signed32(v: int) -> int {
    if v >= 0x8000_0000 {
        v - 0x1_0000_0000
    } else {
        v
    }
}

/// The two's complement pattern of the signed 32-bit number `x`.
pub open spec fn unsigned32(x: int) -> int {
    if x < 0 {
        x + 0x1_0000_0000
    } else {
        x
    }
}

/// A 16-bit value written by `le16_bytes` is read back by `le16_at`.
pub proof fn lemma_le16_roundtrip(buf: Seq<u8>, at: int, v: int)
    requires
        0 <= v < 0x1_0000,
        holds_at(buf, at, le16_bytes(v)),
    ensures
        le16_at(buf, at) == v,
{
    let part = le16_bytes(v);
    assert(part.len() == 2);
    assert(buf[at] == buf.subrange(at, at + 2)[0]);
    assert(buf[at + 1] == buf.subrange(at, at + 2)[1]);
}

/// A 32-bit value written by `le32_bytes` is read back by `le32_at`.
pub proof fn lemma_le32_roundtrip(buf: Seq<u8>, at: int, v: int)
    requires
        0 <= v < 0x1_0000_0000,
        holds_at(buf, at, le32_bytes(v)),
    ensures
        le32_at(buf, at) == v,
{
    let lo = le16_bytes(v % 0x1_0000);
    let hi = le16_bytes(v / 0x1_0000);
    let part = le32_bytes(v);
    assert(part.len() == 4);
    assert(buf.subrange(at, at + 2) =~= part.subrange(0, 2));
    assert(part.subrange(0, 2) =~= lo);
    assert(buf.subrange(at + 2, at + 4) =~= part.subrange(2, 4));
    assert(part.subrange(2, 4) =~= hi);
    lemma_le16_roundtrip(buf, at, v % 0x1_0000);
    lemma_le16_roundtrip(buf, at + 2, v / 0x1_0000);
}

/// A 64-bit value written by `le64_bytes` is read back by `le64_at`.
pub proof fn lemma_le64_roundtrip(buf: Seq<u8>, at: int, v: int)
    requires
        0 <= v < 0x1_0000_0000_0000_0000,
        holds_at(buf, at, le64_bytes(v)),
    ensures
        le64_at(buf, at) == v,
{
    let lo = le32_bytes(v % 0x1_0000_0000);
    let hi = le32_bytes(v / 0x1_0000_0000);
    let part = le64_bytes(v);
    assert(lo.len() == 4 && hi.len() == 4);
    assert(buf.subrange(at, at + 4) =~= part.subrange(0, 4));
    assert(part.subrange(0, 4) =~= lo);
    assert(buf.subrange(at + 4, at + 8) =~= part.subrange(4, 8));
    assert(part.subrange(4, 8) =~= hi);
    lemma_le32_roundtrip(buf, at, v % 0x1_0000_0000);
    lemma_le32_roundtrip(buf, at + 4, v / 0x1_0000_0000);
}

/// Reads the 16-bit little-endian number at `at`.
pub fn read_le16(data: &[u8], at: usize) -> (v: u16)
    requires
        at + 2 <= data.len(),
    ensures
        v == le16_at(data@, at as int),
{
    let b0: u16 = data[at] as u16;
    let b1: u16 = data[at + 1] as u16;
    b0 + 0x100 * b1
}

/// Reads the 32-bit little-endian number at `at`.
pub fn read_le32(data: &[u8], at: usize) -> (v: u32)
    requires
        at + 4 <= data.len(),
    ensures
        v == le32_at(data@, at as int),
{
    let lo: u32 = read_le16(data, at) as u32;
    let hi: u32 = read_le16(data, at + 2) as u32;
    lo + 0x1_0000 * hi
}

/// Reads the 64-bit little-endian number at `at`.
pub fn read_le64(data: &[u8], at: usize) -> (v: u64)
    requires
        at + 8 <= data.len(),
    ensures
        v == le64_at(data@, at as int),
{
    let lo: u64 = read_le32(data, at) as u64;
    let hi: u64 = read_le32(data, at + 4) as u64;
    lo + 0x1_0000_0000 * hi
}

/// Appends the two bytes of `v`, least significant first.
pub fn write_le16(out: &mut Vec<u8>, v: u16)
    ensures
        final(out)@ == old(out)@ + le16_bytes(v as int),
{
    let ghost before = out@;
    out.push((v % 0x100) as u8);
    out.push((v / 0x100) as u8);
    assert(out@ =~= before + le16_bytes(v as int));
}

/// Appends the four bytes of `v`, least significant first.
pub fn write_le32(out: &mut Vec<u8>, v: u32)
    ensures
        final(out)@ == old(out)@ + le32_bytes(v as int),
{
    let ghost before = out@;
    write_le16(out, (v % 0x1_0000) as u16);
    write_le16(out, (v / 0x1_0000) as u16);
    assert(out@ =~= before + le32_bytes(v as int));
}

/// Appends the eight bytes of `v`, least significant first.
pub fn write_le64(out: &mut Vec<u8>, v: u64)
    ensures
        final(out)@ == old(out)@ + le64_bytes(v as int),
{
    let ghost before = out@;
    write_le32(out, (v % 0x1_0000_0000) as u32);
    write_le32(out, (v / 0x1_0000_0000) as u32);
    assert(out@ =~= before + le64_bytes(v as int));
}

/// The compact-size integer that starts at `offset`: its value and the
/// number of bytes it takes, or `None` where the bytes run out.
///
/// A first byte up to 252 is the value. 253, 254 and 255 announce a value
/// of two, four and eight little-endian bytes.
pub open spec fn compact_size_at(data: Seq<u8>, offset: int) -> Option<(u64, usize)> {
    if offset < 0 || offset >= data.len() {
        None
    } else if data[offset] <= 252 {
        Some((data[offset] as u64, 1usize))
    } else if data[offset] == 253 {
        if offset + 3 <= data.len() {
            Some((le16_at(data, offset + 1) as u64, 3usize))
        } else {
            None
        }
    } else if data[offset] == 254 {
        if offset + 5 <= data.len() {
            Some((le32_at(data, offset + 1) as u64, 5usize))
        } else {
            None
        }
    } else {
        if offset + 9 <= data.len() {
            Some((le64_at(data, offset + 1) as u64, 9usize))
        } else {
            None
        }
    }
}

/// The shortest compact-size form of `v`.
pub open spec fn compact_size_bytes(v: u64) -> Seq<u8> {
    if v <= 252 {
        seq![v as u8]
    } else if v <= 0xFFFF {
        seq![253u8] + le16_bytes(v as int)
    } else if v <= 0xFFFF_FFFF {
        seq![254u8] + le32_bytes(v as int)
    } else {
        seq![255u8] + le64_bytes(v as int)
    }
}

/// Decodes the compact-size integer at `offset`: the value and the number
/// of bytes consumed. Fails where `offset` is out of bounds or the bytes
/// that the first byte announces are not all there.
pub fn read_compact_size(data: &[u8], offset: usize) -> (r: Result<(u64, usize), BitcoinError>)
    ensures
        match compact_size_at(data@, offset as int) {
            Some(pair) => r == Ok::<(u64, usize), BitcoinError>(pair),
            None => r == Err::<(u64, usize), BitcoinError>(BitcoinError::InvalidTransaction),
        },
{
    let len = data.len();
    if offset >= len {
        return Err(BitcoinError::InvalidTransaction);
    }
    let first = data[offset];
    let rest = len - offset;
    if first <= 252 {
        Ok((first as u64, 1))
    } else if first == 253 {
        if rest < 3 {
            return Err(BitcoinError::InvalidTransaction);
        }
        Ok((read_le16(data, offset + 1) as u64, 3))
    } else if first == 254 {
        if rest < 5 {
            return Err(BitcoinError::InvalidTransaction);
        }
        Ok((read_le32(data, offset + 1) as u64, 5))
    } else {
        if rest < 9 {
            return Err(BitcoinError::InvalidTransaction);
        }
        Ok((read_le64(data, offset + 1), 9))
    }
}

/// Appends the shortest compact-size form of `v`.
pub fn write_compact_size(out: &mut Vec<u8>, v: u64)
    ensures
        final(out)@ == old(out)@ + compact_size_bytes(v),
{
    let ghost before = out@;
    if v <= 252 {
        out.push(v as u8);
    } else if v <= 0xFFFF {
        out.push(253);
        write_le16(out, v as u16);
    } else if v <= 0xFFFF_FFFF {
        out.push(254);
        write_le32(out, v as u32);
    } else {
        out.push(255);
        write_le64(out, v);
    }
    assert(out@ =~= before + compact_size_bytes(v));
}

/// A value written in its shortest compact-size form is read back, and
/// the reader consumes exactly the bytes that were written.
pub proof fn lemma_compact_size_roundtrip(buf: Seq<u8>, at: int, v: u64)
    requires
        holds_at(buf, at, compact_size_bytes(v)),
    ensures
        compact_size_at(buf, at) == Some((v, compact_size_bytes(v).len() as usize)),
        compact_size_bytes(v).len() <= 9,
{
    let part = compact_size_bytes(v);
    assert(buf[at] == buf.subrange(at, at + part.len())[0]);
    if v <= 252 {
    } else if v <= 0xFFFF {
        assert(buf.subrange(at + 1, at + 3) =~= part.subrange(1, 3));
        assert(part.subrange(1, 3) =~= le16_bytes(v as int));
        lemma_le16_roundtrip(buf, at + 1, v as int);
    } else if v <= 0xFFFF_FFFF {
        assert(buf.subrange(at + 1, at + 5) =~= part.subrange(1, 5));
        assert(part.subrange(1, 5) =~= le32_bytes(v as int));
        lemma_le32_roundtrip(buf, at + 1, v as int);
    } else {
        assert(buf.subrange(at + 1, at + 9) =~= part.subrange(1, 9));
        assert(part.subrange(1, 9) =~= le64_bytes(v as int));
        lemma_le64_roundtrip(buf, at + 1, v as int);
    }
}

} // verus!
