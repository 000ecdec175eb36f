//! Big-endian numbers and NUL-padded strings inside record payloads.
use vstd::prelude::*;
use vstd::utf8::{valid_utf8, decode_utf8};
use byteorder::ByteOrder;

verus! {

/// The unsigned value of the big-endian pair `b0 b1`.
pub open spec fn be16(b0: u8, b1: u8) -> int {
    b0 * 256 + b1
}

/// The unsigned value of the big-endian bytes `d[off..off + 4]`.
pub open spec fn be32(d: Seq<u8>, off: int) -> int {
    d[off] * 0x100_0000 + d[off + 1] * 0x1_0000 + d[off + 2] * 0x100 + d[off + 3]
}

/// The unsigned value of the big-endian bytes `d[off..off + 8]`.
pub open spec fn be64(d: Seq<u8>, off: int) -> int {
    be32(d, off) * 0x1_0000_0000 + be32(d, off + 4)
}

/// The two's complement value of the big-endian pair `b0 b1`.
pub open spec fn int16(b0: u8, b1: u8) -> int {
    if b0 < 0x80 { be16(b0, b1) } else { be16(b0, b1) - 0x1_0000 }
}

/// The two's complement value of the big-endian bytes `d[off..off + 4]`.
pub open spec fn int32(d: Seq<u8>, off: int) -> int {
    if d[off] < 0x80 { be32(d, off) } else { be32(d, off) - 0x1_0000_0000 }
}

/// `byteorder::BigEndian::read_u16`: the first two bytes of `buf` read as a
/// big-endian `u16`. It panics on a buffer shorter than two bytes.
#[verifier::external_body]
pub(crate) fn read_be_u16(buf: &[u8]) -> (r: u16)
    requires
        buf@.len() >= 2,
    ensures
        r == be16(buf@[0], buf@[1]),
{
    byteorder::BigEndian::read_u16(buf)
}

/// `String::from_utf8`: the string that `bytes` encode in UTF-8, or none
/// where they are not valid UTF-8.
#[verifier::external_body]
fn string_from_utf8(bytes: Vec<u8>) -> (r: Option<String>)
    ensures
        match r {
            Some(s) => valid_utf8(bytes@) && s@ == decode_utf8(bytes@),
            None => !valid_utf8(bytes@),
        },
{
    String::from_utf8(bytes).ok()
}

/// A signed 16-bit integer from the first two bytes.
pub fn decode_i16(d: &[u8]) -> (r: i16)
    requires
        d@.len() >= 2,
    ensures
        r == int16(d@[0], d@[1]),
{
    let u: i32 = (d[0] as i32) * 256 + (d[1] as i32);
    if u >= 0x8000 { (u - 0x1_0000) as i16 } else { u as i16 }
}

/// An unsigned 16-bit integer from the first two bytes.
pub fn decode_u16(d: &[u8]) -> (r: u16)
    requires
        d@.len() >= 2,
    ensures
        r == be16(d@[0], d@[1]),
{
    (d[0] as u16) * 256 + (d[1] as u16)
}

/// A signed 32-bit integer from the bytes at `off`.
pub fn decode_i32_at(d: &[u8], off: usize) -> (r: i32)
    requires
        off + 4 <= d@.len(),
    ensures
        r == int32(d@, off as int),
{
    let u: i64 = (d[off] as i64) * 0x100_0000 + (d[off + 1] as i64) * 0x1_0000 + (d[off + 2] as i64)
        * 0x100 + (d[off + 3] as i64);
    if u >= 0x8000_0000 { (u - 0x1_0000_0000) as i32 } else { u as i32 }
}

/// An unsigned 64-bit integer from the big-endian bytes at `off`.
pub fn decode_u64_at(d: &[u8], off: usize) -> (r: u64)
    requires
        off + 8 <= d@.len(),
    ensures
        r == be64(d@, off as int),
{
    let hi: u64 = (d[off] as u64) * 0x100_0000 + (d[off + 1] as u64) * 0x1_0000 + (d[off + 2] as u64)
        * 0x100 + (d[off + 3] as u64);
    let lo: u64 = (d[off + 4] as u64) * 0x100_0000 + (d[off + 5] as u64) * 0x1_0000 + (d[off + 6] as u64)
        * 0x100 + (d[off + 7] as u64);
    hi * 0x1_0000_0000 + lo
}

/// A signed 32-bit integer from the first four bytes.
pub fn decode_i32(d: &[u8]) -> (r: i32)
    requires
        d@.len() >= 4,
    ensures
        r == int32(d@, 0),
{
    decode_i32_at(d, 0)
}

/// The bytes without their trailing NULs.
pub open spec fn trim_nuls(d: Seq<u8>) -> Seq<u8>
    decreases d.len(),
{
    if d.len() > 0 && d.last() == 0 {
        trim_nuls(d.drop_last())
    } else {
        d
    }
}

/// The text of a NUL-padded string payload, if it is valid UTF-8.
pub open spec fn padded_text(d: Seq<u8>) -> Option<Seq<char>> {
    if valid_utf8(trim_nuls(d)) {
        Some(decode_utf8(trim_nuls(d)))
    } else {
        None
    }
}

/// The text of a NUL-padded string payload; `None` where the bytes before
/// the padding are not valid UTF-8.
pub fn decode_text(d: &[u8]) -> (r: Option<String>)
    ensures
        match r {
            Some(s) => padded_text(d@) == Some(s@),
            None => padded_text(d@) is None,
        },
{
    let mut end = d.len();
    assert(d@.take(end as int) =~= d@);
    while end > 0 && d[end - 1] == 0
        invariant
            end <= d@.len(),
            trim_nuls(d@) == trim_nuls(d@.take(end as int)),
        decreases end,
    {
        assert(d@.take(end as int).drop_last() =~= d@.take(end - 1));
        end = end - 1;
    }
    assert(trim_nuls(d@.take(end as int)) == d@.take(end as int));
    let mut bytes: Vec<u8> = Vec::new();
    let mut i: usize = 0;
    while i < end
        invariant
            i <= end <= d@.len(),
            bytes@ == d@.take(i as int),
        decreases end - i,
    {
        bytes.push(d[i]);
        i = i + 1;
        assert(bytes@ =~= d@.take(i as int));
    }
    string_from_utf8(bytes)
}

} // verus!
