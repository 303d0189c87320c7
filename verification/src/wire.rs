//! Little- and big-endian integers on byte sequences.

use vstd::prelude::*;

verus! {

/// The 16-bit little-endian integer at offset `at` of `bytes`.
pub open spec fn le16_at(bytes: Seq<u8>, at: int) -> u16 {
    (bytes[at] + 0x100 * bytes[at + 1]) as u16
}

/// The 16-bit big-endian integer at offset `at` of `bytes`.
pub open spec fn be16_at(bytes: Seq<u8>, at: int) -> u16 {
    (0x100 * bytes[at] + bytes[at + 1]) as u16
}

/// The 32-bit little-endian integer at offset `at` of `bytes`.
pub open spec fn le32_at(bytes: Seq<u8>, at: int) -> u32 {
    (bytes[at] + 0x100 * bytes[at + 1] + 0x1_0000 * bytes[at + 2] + 0x100_0000 * bytes[at + 3]) as u32
}

/// The 64-bit little-endian integer at offset `at` of `bytes`.
pub open spec fn le64_at(bytes: Seq<u8>, at: int) -> u64 {
    (le32_at(bytes, at) + 0x1_0000_0000 * le32_at(bytes, at + 4)) as u64
}

/// The little-endian bytes of a 16-bit integer.
pub open spec fn le16_bytes(value: u16) -> Seq<u8> {
    seq![(value % 0x100) as u8, (value / 0x100) as u8]
}

/// The little-endian bytes of a 32-bit integer.
pub open spec fn le32_bytes(value: u32) -> Seq<u8> {
    seq![
        (value % 0x100) as u8,
        ((value / 0x100) % 0x100) as u8,
        ((value / 0x1_0000) % 0x100) as u8,
        (value / 0x100_0000) as u8,
    ]
}

/// The little-endian bytes of a 64-bit integer.
pub open spec fn le64_bytes(value: u64) -> Seq<u8> {
    le32_bytes((value % 0x1_0000_0000) as u32) + le32_bytes((value / 0x1_0000_0000) as u32)
}

/// Reading back the little-endian bytes of a 16-bit integer, wherever they
/// stand, gives the integer.
pub proof fn law_le16_round_trip(value: u16, before: Seq<u8>, after: Seq<u8>)
    ensures
        le16_at(before + le16_bytes(value) + after, before.len() as int) == value,
{
    let all = before + le16_bytes(value) + after;
    assert(all[before.len() as int] == le16_bytes(value)[0]);
    assert(all[before.len() as int + 1] == le16_bytes(value)[1]);
}

/// Reading back the little-endian bytes of a 32-bit integer, wherever they
/// stand, gives the integer.
pub proof fn law_le32_round_trip(value: u32, before: Seq<u8>, after: Seq<u8>)
    ensures
        le32_at(before + le32_bytes(value) + after, before.len() as int) == value,
{
    let all = before + le32_bytes(value) + after;
    assert(all[before.len() as int] == le32_bytes(value)[0]);
    assert(all[before.len() as int + 1] == le32_bytes(value)[1]);
    assert(all[before.len() as int + 2] == le32_bytes(value)[2]);
    assert(all[before.len() as int + 3] == le32_bytes(value)[3]);
}

/// Reading back the little-endian bytes of a 64-bit integer gives the integer.
pub proof fn law_le64_round_trip(value: u64)
    ensures
        le64_bytes(value).len() == 8,
        le64_at(le64_bytes(value), 0) == value,
{
    let low = (value % 0x1_0000_0000) as u32;
    let high = (value / 0x1_0000_0000) as u32;
    law_le32_round_trip(low, seq![], le32_bytes(high));
    law_le32_round_trip(high, le32_bytes(low), seq![]);
    assert(seq![] + le32_bytes(low) + le32_bytes(high) =~= le64_bytes(value));
    assert(le32_bytes(low) + le32_bytes(high) + seq![] =~= le64_bytes(value));
}

/// Reads the 16-bit little-endian integer at `at`.
pub fn get_le16(bytes: &[u8], at: usize) -> (value: u16)
    requires
        at + 2 <= bytes@.len(),
    ensures
        value == le16_at(bytes@, at as int),
{
    bytes[at] as u16 + 0x100 * (bytes[at + 1] as u16)
}

/// Reads the 32-bit little-endian integer at `at`.
pub fn get_le32(bytes: &[u8], at: usize) -> (value: u32)
    requires
        at + 4 <= bytes@.len(),
    ensures
        value == le32_at(bytes@, at as int),
{
    bytes[at] as u32 + 0x100 * (bytes[at + 1] as u32) + 0x1_0000 * (bytes[at + 2] as u32)
        + 0x100_0000 * (bytes[at + 3] as u32)
}

/// Appends a 16-bit integer in little-endian order.
pub fn put_le16(out: &mut Vec<u8>, value: u16)
    ensures
        final(out)@ == old(out)@ + le16_bytes(value),
{
    out.push((value % 0x100) as u8);
    out.push((value / 0x100) as u8);
    assert(out@ =~= old(out)@ + le16_bytes(value));
}

/// Appends a 32-bit integer in little-endian order.
pub fn put_le32(out: &mut Vec<u8>, value: u32)
    ensures
        final(out)@ == old(out)@ + le32_bytes(value),
{
    out.push((value % 0x100) as u8);
    out.push(((value / 0x100) % 0x100) as u8);
    out.push(((value / 0x1_0000) % 0x100) as u8);
    out.push((value / 0x100_0000) as u8);
    assert(out@ =~= old(out)@ + le32_bytes(value));
}

/// Appends a run of bytes.
pub fn put_bytes(out: &mut Vec<u8>, bytes: &[u8])
    ensures
        final(out)@ == old(out)@ + bytes@,
{
    out.extend_from_slice(bytes);
    assert(out@ =~= old(out)@ + bytes@);
}

/// A copy of a run of bytes.
pub fn copied(bytes: &[u8]) -> (copy: Vec<u8>)
    ensures
        copy@ == bytes@,
{
    let mut copy: Vec<u8> = Vec::with_capacity(bytes.len());
    put_bytes(&mut copy, bytes);
    assert(copy@ =~= bytes@);
    copy
}

/// Little-endian numbers have their lowest byte first, big-endian ones their highest, and a
/// number is written in the order in which it is read.
pub proof fn law_byte_order(bytes: Seq<u8>, at: int, value: u32)
    ensures
        le16_at(bytes, at) == bytes[at] + 256 * bytes[at + 1],
        be16_at(bytes, at) == 256 * bytes[at] + bytes[at + 1],
        le32_at(bytes, at) == bytes[at] + 256 * (bytes[at + 1] + 256 * (bytes[at + 2] + 256 * bytes[at + 3])),
        le64_at(bytes, at) == le32_at(bytes, at) + 0x1_0000_0000 * le32_at(bytes, at + 4),
        le32_bytes(value)[0] == value % 256,
        le32_bytes(value)[3] == value / 0x100_0000,
        le32_bytes(value).len() == 4,
        le16_bytes((value % 0x1_0000) as u16) == le32_bytes(value).take(2),
{
    assert(le16_bytes((value % 0x1_0000) as u16) =~= le32_bytes(value).take(2));
}

} // verus!
