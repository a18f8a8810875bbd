//! Reading integers out of a byte buffer in either byte order.

use vstd::prelude::*;

verus! {

/// The order in which the bytes of a multi-byte integer are stored.
#[derive(Clone, Copy, Debug, PartialEq, Eq, Structural)]
pub enum ByteOrder {
    /// Least significant byte first (`II`).
    LittleEndian,
    /// Most significant byte first (`MM`).
    BigEndian,
}

/// The 16-bit integer that two consecutive bytes stand for.
pub open spec fn u16_of(order: ByteOrder, b0: u8, b1: u8) -> u16 {
    match order {
        ByteOrder::LittleEndian => (b0 + 256 * b1) as u16,
        ByteOrder::BigEndian => (256 * b0 + b1) as u16,
    }
}

/// The 32-bit integer that four consecutive bytes stand for.
pub open spec fn u32_of(order: ByteOrder, b0: u8, b1: u8, b2: u8, b3: u8) -> u32 {
    match order {
        ByteOrder::LittleEndian => (b0 + 256 * b1 + 65536 * b2 + 16777216 * b3) as u32,
        ByteOrder::BigEndian => (16777216 * b0 + 65536 * b1 + 256 * b2 + b3) as u32,
    }
}

/// The 64-bit integer that two consecutive 32-bit words stand for.
pub open spec fn u64_of(order: ByteOrder, w0: u32, w1: u32) -> u64 {
    match order {
        ByteOrder::LittleEndian => (w0 + 0x1_0000_0000 * w1) as u64,
        ByteOrder::BigEndian => (0x1_0000_0000 * w0 + w1) as u64,
    }
}

/// The 16-bit integer stored at `pos`.
pub open spec fn u16_at(order: ByteOrder, s: Seq<u8>, pos: int) -> u16 {
    u16_of(order, s[pos], s[pos + 1])
}

/// The 32-bit integer stored at `pos`.
pub open spec fn u32_at(order: ByteOrder, s: Seq<u8>, pos: int) -> u32 {
    u32_of(order, s[pos], s[pos + 1], s[pos + 2], s[pos + 3])
}

/// The 64-bit integer stored at `pos`.
pub open spec fn u64_at(order: ByteOrder, s: Seq<u8>, pos: int) -> u64 {
    u64_of(order, u32_at(order, s, pos), u32_at(order, s, pos + 4))
}

/// A byte read as a two's complement number.
pub open spec fn i8_of(b: u8) -> i8 {
    if b < 0x80 {
        b as i8
    } else {
        (b - 0x100) as i8
    }
}

/// A 16-bit word read as a two's complement number.
pub open spec fn i16_of(w: u16) -> i16 {
    if w < 0x8000 {
        w as i16
    } else {
        (w - 0x1_0000) as i16
    }
}

/// A 32-bit word read as a two's complement number.
pub open spec fn i32_of(w: u32) -> i32 {
    if w < 0x8000_0000 {
        w as i32
    } else {
        (w - 0x1_0000_0000) as i32
    }
}

/// The two bytes that store `v` in the given order.
pub open spec fn encode_u16(order: ByteOrder, v: u16) -> Seq<u8> {
    let lo = (v % 256) as u8;
    let hi = (v / 256) as u8;
    match order {
        ByteOrder::LittleEndian => seq![lo, hi],
        ByteOrder::BigEndian => seq![hi, lo],
    }
}

/// The four bytes that store `v` in the given order.
pub open spec fn encode_u32(order: ByteOrder, v: u32) -> Seq<u8> {
    let b0 = (v % 256) as u8;
    let b1 = ((v / 256) % 256) as u8;
    let b2 = ((v / 65536) % 256) as u8;
    let b3 = (v / 16777216) as u8;
    match order {
        ByteOrder::LittleEndian => seq![b0, b1, b2, b3],
        ByteOrder::BigEndian => seq![b3, b2, b1, b0],
    }
}

/// The eight bytes that store `v` in the given order.
pub open spec fn encode_u64(order: ByteOrder, v: u64) -> Seq<u8> {
    let lo = (v % 0x1_0000_0000) as u32;
    let hi = (v / 0x1_0000_0000) as u32;
    match order {
        ByteOrder::LittleEndian => encode_u32(order, lo) + encode_u32(order, hi),
        ByteOrder::BigEndian => encode_u32(order, hi) + encode_u32(order, lo),
    }
}

/// Whether `len` bytes starting at `pos` lie inside a buffer of `total` bytes.
pub open spec fn in_bounds(total: int, pos: int, len: int) -> bool {
    0 <= pos && 0 <= len && pos + len <= total
}

/// Decoding undoes encoding: in either byte order, the bytes written for a
/// 16-bit value read back as that value.
pub proof fn lemma_u16_round_trip(order: ByteOrder, v: u16)
    ensures
        encode_u16(order, v).len() == 2,
        u16_at(order, encode_u16(order, v), 0) == v,
{
}

/// Decoding undoes encoding: in either byte order, the bytes written for a
/// 32-bit value read back as that value.
pub proof fn lemma_u32_round_trip(order: ByteOrder, v: u32)
    ensures
        encode_u32(order, v).len() == 4,
        u32_at(order, encode_u32(order, v), 0) == v,
{
}

/// Decoding undoes encoding: in either byte order, the bytes written for a
/// 64-bit value read back as that value.
pub proof fn lemma_u64_round_trip(order: ByteOrder, v: u64)
    ensures
        encode_u64(order, v).len() == 8,
        u64_at(order, encode_u64(order, v), 0) == v,
{
    let lo = (v % 0x1_0000_0000) as u32;
    let hi = (v / 0x1_0000_0000) as u32;
    lemma_u32_round_trip(order, lo);
    lemma_u32_round_trip(order, hi);
    let s = encode_u64(order, v);
    match order {
        ByteOrder::LittleEndian => {
            assert(u32_at(order, s, 0) == u32_at(order, encode_u32(order, lo), 0));
            assert(u32_at(order, s, 4) == u32_at(order, encode_u32(order, hi), 0));
        },
        ByteOrder::BigEndian => {
            assert(u32_at(order, s, 0) == u32_at(order, encode_u32(order, hi), 0));
            assert(u32_at(order, s, 4) == u32_at(order, encode_u32(order, lo), 0));
        },
    }
}

/// The base-256 digits of a number that is given as the sum of its digits.
proof fn lemma_base_256_digits(b0: int, b1: int, b2: int, b3: int)
    requires
        0 <= b0 < 256,
        0 <= b1 < 256,
        0 <= b2 < 256,
        0 <= b3 < 256,
    ensures
        ({
            let v = b0 + 256 * b1 + 65536 * b2 + 16777216 * b3;
            &&& 0 <= v < 0x1_0000_0000
            &&& v % 256 == b0
            &&& (v / 256) % 256 == b1
            &&& (v / 65536) % 256 == b2
            &&& v / 16777216 == b3
        }),
{
    let v = b0 + 256 * b1 + 65536 * b2 + 16777216 * b3;
    let q1 = b1 + 256 * b2 + 65536 * b3;
    let q2 = b2 + 256 * b3;
    vstd::arithmetic::div_mod::lemma_fundamental_div_mod_converse(v, 256, q1, b0);
    vstd::arithmetic::div_mod::lemma_fundamental_div_mod_converse(q1, 256, q2, b1);
    vstd::arithmetic::div_mod::lemma_fundamental_div_mod_converse(
        v,
        65536,
        q2,
        b0 + 256 * b1,
    );
    vstd::arithmetic::div_mod::lemma_fundamental_div_mod_converse(q2, 256, b3, b2);
    vstd::arithmetic::div_mod::lemma_fundamental_div_mod_converse(
        v,
        16777216,
        b3,
        b0 + 256 * b1 + 65536 * b2,
    );
}

/// Encoding undoes decoding: four bytes are the encoding of the value they
/// stand for, so no two different byte strings decode to the same integer.
pub proof fn lemma_u32_bytes_round_trip(order: ByteOrder, s: Seq<u8>)
    requires
        s.len() == 4,
    ensures
        encode_u32(order, u32_at(order, s, 0)) == s,
{
    match order {
        ByteOrder::LittleEndian => {
            lemma_base_256_digits(s[0] as int, s[1] as int, s[2] as int, s[3] as int);
        },
        ByteOrder::BigEndian => {
            lemma_base_256_digits(s[3] as int, s[2] as int, s[1] as int, s[0] as int);
        },
    }
    assert(encode_u32(order, u32_at(order, s, 0)) =~= s);
}

fn make_u16(order: ByteOrder, b0: u8, b1: u8) -> (r: u16)
    ensures
        r == u16_of(order, b0, b1),
{
    match order {
        ByteOrder::LittleEndian => b0 as u16 + 256 * (b1 as u16),
        ByteOrder::BigEndian => 256 * (b0 as u16) + b1 as u16,
    }
}

fn make_u32(order: ByteOrder, b0: u8, b1: u8, b2: u8, b3: u8) -> (r: u32)
    ensures
        r == u32_of(order, b0, b1, b2, b3),
{
    match order {
        ByteOrder::LittleEndian => {
            b0 as u32 + 256 * (b1 as u32) + 65536 * (b2 as u32) + 16777216 * (b3 as u32)
        },
        ByteOrder::BigEndian => {
            16777216 * (b0 as u32) + 65536 * (b1 as u32) + 256 * (b2 as u32) + b3 as u32
        },
    }
}

/// Reads the 16-bit integer at `pos`, which the caller knows to be there.
pub(crate) fn get_u16(order: ByteOrder, data: &[u8], pos: usize) -> (r: u16)
    requires
        in_bounds(data@.len() as int, pos as int, 2),
    ensures
        r == u16_at(order, data@, pos as int),
{
    make_u16(order, data[pos], data[pos + 1])
}

/// Reads the 32-bit integer at `pos`, which the caller knows to be there.
pub(crate) fn get_u32(order: ByteOrder, data: &[u8], pos: usize) -> (r: u32)
    requires
        in_bounds(data@.len() as int, pos as int, 4),
    ensures
        r == u32_at(order, data@, pos as int),
{
    make_u32(order, data[pos], data[pos + 1], data[pos + 2], data[pos + 3])
}

/// Reads the 64-bit integer at `pos`, which the caller knows to be there.
pub(crate) fn get_u64(order: ByteOrder, data: &[u8], pos: usize) -> (r: u64)
    requires
        in_bounds(data@.len() as int, pos as int, 8),
    ensures
        r == u64_at(order, data@, pos as int),
{
    assert(data.len() == data@.len());
    let w0 = get_u32(order, data, pos);
    let w1 = get_u32(order, data, pos + 4);
    match order {
        ByteOrder::LittleEndian => w0 as u64 + 0x1_0000_0000 * (w1 as u64),
        ByteOrder::BigEndian => 0x1_0000_0000 * (w0 as u64) + w1 as u64,
    }
}

/// Whether `len` bytes starting at `pos` lie inside `data`.
pub fn has_bytes(data: &[u8], pos: usize, len: usize) -> (r: bool)
    ensures
        r == in_bounds(data@.len() as int, pos as int, len as int),
{
    pos <= data.len() && len <= data.len() - pos
}

/// Reads a byte as a two's complement number.
pub fn to_i8(b: u8) -> (r: i8)
    ensures
        r == i8_of(b),
{
    if b < 0x80 {
        b as i8
    } else {
        (b as i16 - 0x100) as i8
    }
}

/// Reads a 16-bit word as a two's complement number.
pub fn to_i16(w: u16) -> (r: i16)
    ensures
        r == i16_of(w),
{
    if w < 0x8000 {
        w as i16
    } else {
        (w as i32 - 0x1_0000) as i16
    }
}

/// Reads a 32-bit word as a two's complement number.
pub fn to_i32(w: u32) -> (r: i32)
    ensures
        r == i32_of(w),
{
    if w < 0x8000_0000 {
        w as i32
    } else {
        (w as i64 - 0x1_0000_0000) as i32
    }
}

/// The four bytes that store `v` in the given order.
pub fn u32_bytes(order: ByteOrder, v: u32) -> (r: [u8; 4])
    ensures
        r@ == encode_u32(order, v),
{
    let b0 = (v % 256) as u8;
    let b1 = ((v / 256) % 256) as u8;
    let b2 = ((v / 65536) % 256) as u8;
    let b3 = (v / 16777216) as u8;
    match order {
        ByteOrder::LittleEndian => [b0, b1, b2, b3],
        ByteOrder::BigEndian => [b3, b2, b1, b0],
    }
}

} // verus!
