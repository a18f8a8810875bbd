//! The typed values that directory entries carry, and how they are read.

use crate::bytes::{
    encode_u32, get_u16, get_u32, get_u64, i16_of, i32_of, i8_of, in_bounds, to_i16, to_i32,
    to_i8, u16_at, u32_at, u32_bytes, u64_at, ByteOrder,
};
use crate::error::DecodeError;
use crate::ifd::IfdEntry;
use vstd::prelude::*;
use vstd::slice::{slice_subrange, slice_to_vec};

verus! {

/// Unsigned 8-bit integers.
pub const TYPE_BYTE: u16 = 1;

/// Text of 8-bit characters, closed by a NUL.
pub const TYPE_ASCII: u16 = 2;

/// Unsigned 16-bit integers.
pub const TYPE_SHORT: u16 = 3;

/// Unsigned 32-bit integers.
pub const TYPE_LONG: u16 = 4;

/// Pairs of unsigned 32-bit integers, numerator first.
pub const TYPE_RATIONAL: u16 = 5;

/// Signed 8-bit integers.
pub const TYPE_SIGNED_BYTE: u16 = 6;

/// Bytes without a prescribed meaning.
pub const TYPE_UNDEFINED: u16 = 7;

/// Signed 16-bit integers.
pub const TYPE_SIGNED_SHORT: u16 = 8;

/// Signed 32-bit integers.
pub const TYPE_SIGNED_LONG: u16 = 9;

/// Pairs of signed 32-bit integers, numerator first.
pub const TYPE_SIGNED_RATIONAL: u16 = 10;

/// IEEE 754 single precision numbers.
pub const TYPE_FLOAT32: u16 = 11;

/// IEEE 754 double precision numbers.
pub const TYPE_FLOAT64: u16 = 12;

/// A fraction of two unsigned integers, kept exactly as stored.
#[derive(Clone, Copy, Debug, PartialEq, Eq, Structural)]
pub struct Rational {
    pub numerator: u32,
    pub denominator: u32,
}

/// A fraction of two signed integers, kept exactly as stored.
#[derive(Clone, Copy, Debug, PartialEq, Eq, Structural)]
pub struct SignedRational {
    pub numerator: i32,
    pub denominator: i32,
}

/// The decoded value of one field.
///
/// Text keeps the bytes it was stored with, whatever their encoding.
/// Floating-point numbers are held as their IEEE 754 bit patterns, so that
/// nothing is rounded on the way. `Unsupported` stands in for the value of
/// a field whose type or count the format does not define.
#[derive(Clone, Debug, PartialEq, Eq)]
pub enum Value {
    Byte(Vec<u8>),
    Ascii(Vec<u8>),
    Short(Vec<u16>),
    Long(Vec<u32>),
    Rational(Vec<Rational>),
    SignedByte(Vec<i8>),
    Undefined(Vec<u8>),
    SignedShort(Vec<i16>),
    SignedLong(Vec<i32>),
    SignedRational(Vec<SignedRational>),
    Float32(Vec<u32>),
    Float64(Vec<u64>),
    Unsupported,
}

/// The mathematical content of a `Value`.
pub enum ValueView {
    Byte(Seq<u8>),
    Ascii(Seq<u8>),
    Short(Seq<u16>),
    Long(Seq<u32>),
    Rational(Seq<Rational>),
    SignedByte(Seq<i8>),
    Undefined(Seq<u8>),
    SignedShort(Seq<i16>),
    SignedLong(Seq<i32>),
    SignedRational(Seq<SignedRational>),
    Float32(Seq<u32>),
    Float64(Seq<u64>),
    Unsupported,
}

impl View for Value {
    type V = ValueView;

    open spec fn view(&self) -> ValueView {
        match self {
            Value::Byte(v) => ValueView::Byte(v@),
            Value::Ascii(v) => ValueView::Ascii(v@),
            Value::Short(v) => ValueView::Short(v@),
            Value::Long(v) => ValueView::Long(v@),
            Value::Rational(v) => ValueView::Rational(v@),
            Value::SignedByte(v) => ValueView::SignedByte(v@),
            Value::Undefined(v) => ValueView::Undefined(v@),
            Value::SignedShort(v) => ValueView::SignedShort(v@),
            Value::SignedLong(v) => ValueView::SignedLong(v@),
            Value::SignedRational(v) => ValueView::SignedRational(v@),
            Value::Float32(v) => ValueView::Float32(v@),
            Value::Float64(v) => ValueView::Float64(v@),
            Value::Unsupported => ValueView::Unsupported,
        }
    }
}

/// The number of bytes that one element of a type takes; 0 for a type that
/// the format does not define.
pub open spec fn element_size(data_type: u16) -> nat {
    if data_type == TYPE_BYTE || data_type == TYPE_ASCII || data_type == TYPE_SIGNED_BYTE
        || data_type == TYPE_UNDEFINED {
        1
    } else if data_type == TYPE_SHORT || data_type == TYPE_SIGNED_SHORT {
        2
    } else if data_type == TYPE_LONG || data_type == TYPE_SIGNED_LONG || data_type
        == TYPE_FLOAT32 {
        4
    } else if data_type == TYPE_RATIONAL || data_type == TYPE_SIGNED_RATIONAL || data_type
        == TYPE_FLOAT64 {
        8
    } else {
        0
    }
}

/// Where the text of an ASCII value ends: at the first NUL at or after
/// `from`, or at the end of the bytes when there is none.
pub open spec fn text_end(s: Seq<u8>, from: int) -> int
    decreases s.len() - from,
{
    if from >= s.len() || s[from] == 0 {
        from
    } else {
        text_end(s, from + 1)
    }
}

/// The text of an ASCII value: its bytes up to the first NUL, which is left
/// out, or all of them when none is a NUL.
pub open spec fn text_of(s: Seq<u8>) -> Seq<u8> {
    s.take(text_end(s, 0))
}

/// `count` unsigned 16-bit integers stored back to back.
pub open spec fn shorts_of(order: ByteOrder, s: Seq<u8>, count: nat) -> Seq<u16> {
    Seq::new(count, |i: int| u16_at(order, s, 2 * i))
}

/// `count` unsigned 32-bit integers stored back to back.
pub open spec fn longs_of(order: ByteOrder, s: Seq<u8>, count: nat) -> Seq<u32> {
    Seq::new(count, |i: int| u32_at(order, s, 4 * i))
}

/// `count` unsigned 64-bit integers stored back to back.
pub open spec fn quads_of(order: ByteOrder, s: Seq<u8>, count: nat) -> Seq<u64> {
    Seq::new(count, |i: int| u64_at(order, s, 8 * i))
}

/// `count` fractions stored back to back, each as numerator and denominator.
pub open spec fn rationals_of(order: ByteOrder, s: Seq<u8>, count: nat) -> Seq<Rational> {
    Seq::new(
        count,
        |i: int|
            Rational {
                numerator: u32_at(order, s, 8 * i),
                denominator: u32_at(order, s, 8 * i + 4),
            },
    )
}

/// `count` signed bytes.
pub open spec fn signed_bytes_of(s: Seq<u8>, count: nat) -> Seq<i8> {
    Seq::new(count, |i: int| i8_of(s[i]))
}

/// `count` signed 16-bit integers stored back to back.
pub open spec fn signed_shorts_of(order: ByteOrder, s: Seq<u8>, count: nat) -> Seq<i16> {
    Seq::new(count, |i: int| i16_of(u16_at(order, s, 2 * i)))
}

/// `count` signed 32-bit integers stored back to back.
pub open spec fn signed_longs_of(order: ByteOrder, s: Seq<u8>, count: nat) -> Seq<i32> {
    Seq::new(count, |i: int| i32_of(u32_at(order, s, 4 * i)))
}

/// `count` signed fractions stored back to back.
pub open spec fn signed_rationals_of(order: ByteOrder, s: Seq<u8>, count: nat) -> Seq<
    SignedRational,
> {
    Seq::new(
        count,
        |i: int|
            SignedRational {
                numerator: i32_of(u32_at(order, s, 8 * i)),
                denominator: i32_of(u32_at(order, s, 8 * i + 4)),
            },
    )
}

/// The value that the bytes `s` hold when read as `count` elements of the
/// given type.
pub open spec fn value_of_bytes(order: ByteOrder, data_type: u16, count: nat, s: Seq<u8>)
    -> ValueView {
    if data_type == TYPE_BYTE {
        ValueView::Byte(s)
    } else if data_type == TYPE_ASCII {
        ValueView::Ascii(text_of(s))
    } else if data_type == TYPE_SHORT {
        ValueView::Short(shorts_of(order, s, count))
    } else if data_type == TYPE_LONG {
        ValueView::Long(longs_of(order, s, count))
    } else if data_type == TYPE_RATIONAL {
        ValueView::Rational(rationals_of(order, s, count))
    } else if data_type == TYPE_SIGNED_BYTE {
        ValueView::SignedByte(signed_bytes_of(s, count))
    } else if data_type == TYPE_UNDEFINED {
        ValueView::Undefined(s)
    } else if data_type == TYPE_SIGNED_SHORT {
        ValueView::SignedShort(signed_shorts_of(order, s, count))
    } else if data_type == TYPE_SIGNED_LONG {
        ValueView::SignedLong(signed_longs_of(order, s, count))
    } else if data_type == TYPE_SIGNED_RATIONAL {
        ValueView::SignedRational(signed_rationals_of(order, s, count))
    } else if data_type == TYPE_FLOAT32 {
        ValueView::Float32(longs_of(order, s, count))
    } else if data_type == TYPE_FLOAT64 {
        ValueView::Float64(quads_of(order, s, count))
    } else {
        ValueView::Unsupported
    }
}

/// Whether the format defines the entry's type and count: the type is one
/// of the twelve, and there is at least one element.
pub open spec fn is_supported(e: IfdEntry) -> bool {
    element_size(e.data_type) != 0 && e.count != 0
}

/// The number of bytes that the entry's value takes.
pub open spec fn value_len(e: IfdEntry) -> int {
    e.count * element_size(e.data_type)
}

/// Whether the entry's value is stored in the entry itself.
pub open spec fn is_inline(e: IfdEntry) -> bool {
    value_len(e) <= 4
}

/// The bytes of the entry's value: the leading bytes of the four-byte slot
/// when the value is stored in place, else the bytes of `tiff` that the
/// slot points to.
pub open spec fn value_bytes(order: ByteOrder, tiff: Seq<u8>, e: IfdEntry) -> Seq<u8> {
    if is_inline(e) {
        encode_u32(order, e.value_or_offset).take(value_len(e))
    } else {
        tiff.subrange(e.value_or_offset as int, e.value_or_offset + value_len(e))
    }
}

/// The value of an entry, or the reason why it has none.
///
/// It is an `UnsupportedFieldType` when the format does not define the
/// entry's type or count, and `Truncated` when the value is stored out of
/// place and reaches past the end of `tiff`.
pub open spec fn spec_decode_value(order: ByteOrder, tiff: Seq<u8>, e: IfdEntry) -> Result<
    ValueView,
    DecodeError,
> {
    if !is_supported(e) {
        Err(DecodeError::UnsupportedFieldType)
    } else if !is_inline(e) && !in_bounds(
        tiff.len() as int,
        e.value_or_offset as int,
        value_len(e),
    ) {
        Err(DecodeError::Truncated)
    } else {
        Ok(value_of_bytes(order, e.data_type, e.count as nat, value_bytes(order, tiff, e)))
    }
}

/// The text of an ASCII value ends at its first NUL: no byte before the end
/// is a NUL, and the end is a NUL unless the bytes ran out. Only one
/// position has both properties.
pub proof fn lemma_text_end(s: Seq<u8>, from: int)
    requires
        0 <= from <= s.len(),
    ensures
        from <= text_end(s, from) <= s.len(),
        forall|i: int| from <= i < text_end(s, from) ==> s[i] != 0,
        text_end(s, from) < s.len() ==> s[text_end(s, from)] == 0,
        forall|k: int|
            from <= k <= s.len() && (forall|i: int| from <= i < k ==> s[i] != 0) && (k < s.len()
                ==> s[k] == 0) ==> k == text_end(s, from),
    decreases s.len() - from,
{
    if from < s.len() && s[from] != 0 {
        lemma_text_end(s, from + 1);
        assert forall|k: int|
            from <= k <= s.len() && (forall|i: int| from <= i < k ==> s[i] != 0) && (k < s.len()
                ==> s[k] == 0) implies k == text_end(s, from) by {
            assert(k != from);
        }
    }
}

/// An ASCII value decodes to the same text wherever it is stored and
/// whatever follows its terminator: text without a NUL, then a NUL, then
/// any bytes at all, reads as that text; and so does the text alone.
pub proof fn lemma_text_of_terminated(text: Seq<u8>, rest: Seq<u8>)
    requires
        forall|i: int| 0 <= i < text.len() ==> text[i] != 0,
    ensures
        text_of(text + seq![0u8] + rest) == text,
        text_of(text) == text,
{
    let s = text + seq![0u8] + rest;
    lemma_text_end(s, 0);
    lemma_text_end(text, 0);
    assert(s[text.len() as int] == 0);
    assert forall|i: int| 0 <= i < text.len() implies s[i] != 0 by {
        assert(s[i] == text[i]);
    }
    assert(text_of(s) =~= text);
    assert(text_of(text) =~= text);
}

/// Text decodes alike from the slot and from an offset. An entry of up to
/// four bytes is read from its slot and a longer one from where its slot
/// points to; if both places hold the same text, closed by a NUL, both
/// entries decode to that text, whatever follows the NUL.
pub proof fn lemma_text_in_place_or_not(
    order: ByteOrder,
    tiff: Seq<u8>,
    small: IfdEntry,
    large: IfdEntry,
    text: Seq<u8>,
)
    requires
        small.data_type == TYPE_ASCII,
        large.data_type == TYPE_ASCII,
        1 <= small.count <= 4,
        large.count >= 5,
        text.len() < small.count,
        forall|i: int| 0 <= i < text.len() ==> text[i] != 0,
        forall|i: int|
            0 <= i < text.len() ==> encode_u32(order, small.value_or_offset)[i] == text[i],
        encode_u32(order, small.value_or_offset)[text.len() as int] == 0,
        in_bounds(tiff.len() as int, large.value_or_offset as int, large.count as int),
        forall|i: int| 0 <= i < text.len() ==> tiff[large.value_or_offset + i] == text[i],
        tiff[large.value_or_offset + text.len()] == 0,
    ensures
        is_inline(small),
        !is_inline(large),
        spec_decode_value(order, tiff, small) == Ok::<ValueView, DecodeError>(
            ValueView::Ascii(text),
        ),
        spec_decode_value(order, tiff, large) == Ok::<ValueView, DecodeError>(
            ValueView::Ascii(text),
        ),
{
    let near = value_bytes(order, tiff, small);
    let far = value_bytes(order, tiff, large);
    let n = text.len() as int;
    lemma_text_end(near, 0);
    lemma_text_end(far, 0);
    assert(near[n] == 0 && far[n] == 0);
    assert forall|i: int| 0 <= i < n implies near[i] != 0 && far[i] != 0 by {
        assert(near[i] == text[i]);
        assert(far[i] == text[i]);
    }
    assert(text_of(near) =~= text);
    assert(text_of(far) =~= text);
}

/// The size of one element of a type, 0 for a type that the format does
/// not define.
pub fn size_of_type(data_type: u16) -> (r: usize)
    ensures
        r == element_size(data_type),
{
    if data_type == TYPE_BYTE || data_type == TYPE_ASCII || data_type == TYPE_SIGNED_BYTE
        || data_type == TYPE_UNDEFINED {
        1
    } else if data_type == TYPE_SHORT || data_type == TYPE_SIGNED_SHORT {
        2
    } else if data_type == TYPE_LONG || data_type == TYPE_SIGNED_LONG || data_type
        == TYPE_FLOAT32 {
        4
    } else if data_type == TYPE_RATIONAL || data_type == TYPE_SIGNED_RATIONAL || data_type
        == TYPE_FLOAT64 {
        8
    } else {
        0
    }
}

fn read_text(s: &[u8]) -> (v: Vec<u8>)
    ensures
        v@ == text_of(s@),
{
    let mut end: usize = 0;
    while end < s.len() && s[end] != 0
        invariant
            end <= s@.len(),
            text_end(s@, 0) == text_end(s@, end as int),
        decreases s@.len() - end,
    {
        end += 1;
    }
    slice_to_vec(slice_subrange(s, 0, end))
}

fn read_shorts(order: ByteOrder, s: &[u8], count: usize) -> (v: Vec<u16>)
    requires
        s@.len() == 2 * count,
    ensures
        v@ == shorts_of(order, s@, count as nat),
{
    let mut v: Vec<u16> = Vec::with_capacity(count);
    let mut i: usize = 0;
    while i < count
        invariant
            i <= count,
            s@.len() == 2 * count,
            v@ == shorts_of(order, s@, i as nat),
        decreases count - i,
    {
        assert(s.len() == s@.len());
        v.push(get_u16(order, s, 2 * i));
        i += 1;
        assert(v@ =~= shorts_of(order, s@, i as nat));
    }
    v
}

fn read_longs(order: ByteOrder, s: &[u8], count: usize) -> (v: Vec<u32>)
    requires
        s@.len() == 4 * count,
    ensures
        v@ == longs_of(order, s@, count as nat),
{
    let mut v: Vec<u32> = Vec::with_capacity(count);
    let mut i: usize = 0;
    while i < count
        invariant
            i <= count,
            s@.len() == 4 * count,
            v@ == longs_of(order, s@, i as nat),
        decreases count - i,
    {
        assert(s.len() == s@.len());
        v.push(get_u32(order, s, 4 * i));
        i += 1;
        assert(v@ =~= longs_of(order, s@, i as nat));
    }
    v
}

fn read_quads(order: ByteOrder, s: &[u8], count: usize) -> (v: Vec<u64>)
    requires
        s@.len() == 8 * count,
    ensures
        v@ == quads_of(order, s@, count as nat),
{
    let mut v: Vec<u64> = Vec::with_capacity(count);
    let mut i: usize = 0;
    while i < count
        invariant
            i <= count,
            s@.len() == 8 * count,
            v@ == quads_of(order, s@, i as nat),
        decreases count - i,
    {
        assert(s.len() == s@.len());
        v.push(get_u64(order, s, 8 * i));
        i += 1;
        assert(v@ =~= quads_of(order, s@, i as nat));
    }
    v
}

fn read_rationals(order: ByteOrder, s: &[u8], count: usize) -> (v: Vec<Rational>)
    requires
        s@.len() == 8 * count,
    ensures
        v@ == rationals_of(order, s@, count as nat),
{
    let mut v: Vec<Rational> = Vec::with_capacity(count);
    let mut i: usize = 0;
    while i < count
        invariant
            i <= count,
            s@.len() == 8 * count,
            v@ == rationals_of(order, s@, i as nat),
        decreases count - i,
    {
        assert(s.len() == s@.len());
        let numerator = get_u32(order, s, 8 * i);
        let denominator = get_u32(order, s, 8 * i + 4);
        v.push(Rational { numerator, denominator });
        i += 1;
        assert(v@ =~= rationals_of(order, s@, i as nat));
    }
    v
}

fn read_signed_bytes(s: &[u8], count: usize) -> (v: Vec<i8>)
    requires
        s@.len() == count,
    ensures
        v@ == signed_bytes_of(s@, count as nat),
{
    let mut v: Vec<i8> = Vec::with_capacity(count);
    let mut i: usize = 0;
    while i < count
        invariant
            i <= count,
            s@.len() == count,
            v@ == signed_bytes_of(s@, i as nat),
        decreases count - i,
    {
        v.push(to_i8(s[i]));
        i += 1;
        assert(v@ =~= signed_bytes_of(s@, i as nat));
    }
    v
}

fn read_signed_shorts(order: ByteOrder, s: &[u8], count: usize) -> (v: Vec<i16>)
    requires
        s@.len() == 2 * count,
    ensures
        v@ == signed_shorts_of(order, s@, count as nat),
{
    let mut v: Vec<i16> = Vec::with_capacity(count);
    let mut i: usize = 0;
    while i < count
        invariant
            i <= count,
            s@.len() == 2 * count,
            v@ == signed_shorts_of(order, s@, i as nat),
        decreases count - i,
    {
        assert(s.len() == s@.len());
        v.push(to_i16(get_u16(order, s, 2 * i)));
        i += 1;
        assert(v@ =~= signed_shorts_of(order, s@, i as nat));
    }
    v
}

fn read_signed_longs(order: ByteOrder, s: &[u8], count: usize) -> (v: Vec<i32>)
    requires
        s@.len() == 4 * count,
    ensures
        v@ == signed_longs_of(order, s@, count as nat),
{
    let mut v: Vec<i32> = Vec::with_capacity(count);
    let mut i: usize = 0;
    while i < count
        invariant
            i <= count,
            s@.len() == 4 * count,
            v@ == signed_longs_of(order, s@, i as nat),
        decreases count - i,
    {
        assert(s.len() == s@.len());
        v.push(to_i32(get_u32(order, s, 4 * i)));
        i += 1;
        assert(v@ =~= signed_longs_of(order, s@, i as nat));
    }
    v
}

fn read_signed_rationals(order: ByteOrder, s: &[u8], count: usize) -> (v: Vec<SignedRational>)
    requires
        s@.len() == 8 * count,
    ensures
        v@ == signed_rationals_of(order, s@, count as nat),
{
    let mut v: Vec<SignedRational> = Vec::with_capacity(count);
    let mut i: usize = 0;
    while i < count
        invariant
            i <= count,
            s@.len() == 8 * count,
            v@ == signed_rationals_of(order, s@, i as nat),
        decreases count - i,
    {
        assert(s.len() == s@.len());
        let numerator = to_i32(get_u32(order, s, 8 * i));
        let denominator = to_i32(get_u32(order, s, 8 * i + 4));
        v.push(SignedRational { numerator, denominator });
        i += 1;
        assert(v@ =~= signed_rationals_of(order, s@, i as nat));
    }
    v
}

/// Reads `count` elements of a type that the format defines from the bytes
/// that hold exactly those elements.
fn read_elements(order: ByteOrder, data_type: u16, count: usize, s: &[u8]) -> (v: Value)
    requires
        element_size(data_type) != 0,
        s@.len() == count * element_size(data_type),
    ensures
        v@ == value_of_bytes(order, data_type, count as nat, s@),
{
    if data_type == TYPE_BYTE {
        Value::Byte(slice_to_vec(s))
    } else if data_type == TYPE_ASCII {
        Value::Ascii(read_text(s))
    } else if data_type == TYPE_SHORT {
        Value::Short(read_shorts(order, s, count))
    } else if data_type == TYPE_LONG {
        Value::Long(read_longs(order, s, count))
    } else if data_type == TYPE_RATIONAL {
        Value::Rational(read_rationals(order, s, count))
    } else if data_type == TYPE_SIGNED_BYTE {
        Value::SignedByte(read_signed_bytes(s, count))
    } else if data_type == TYPE_UNDEFINED {
        Value::Undefined(slice_to_vec(s))
    } else if data_type == TYPE_SIGNED_SHORT {
        Value::SignedShort(read_signed_shorts(order, s, count))
    } else if data_type == TYPE_SIGNED_LONG {
        Value::SignedLong(read_signed_longs(order, s, count))
    } else if data_type == TYPE_SIGNED_RATIONAL {
        Value::SignedRational(read_signed_rationals(order, s, count))
    } else if data_type == TYPE_FLOAT32 {
        Value::Float32(read_longs(order, s, count))
    } else {
        Value::Float64(read_quads(order, s, count))
    }
}

/// Decodes the value of a directory entry of the TIFF structure `tiff`.
pub fn decode_value(order: ByteOrder, tiff: &[u8], entry: &IfdEntry) -> (r: Result<
    Value,
    DecodeError,
>)
    ensures
        match r {
            Ok(v) => spec_decode_value(order, tiff@, *entry) == Ok::<ValueView, DecodeError>(v@),
            Err(e) => spec_decode_value(order, tiff@, *entry) == Err::<ValueView, DecodeError>(e),
        },
{
    let size = size_of_type(entry.data_type);
    if size == 0 || entry.count == 0 {
        return Err(DecodeError::UnsupportedFieldType);
    }
    assert(entry.count * size <= 8 * 0xffff_ffff) by (nonlinear_arith)
        requires
            entry.count <= 0xffff_ffff,
            size <= 8,
    ;
    let total: u64 = entry.count as u64 * size as u64;
    if total <= 4 {
        let slot = u32_bytes(order, entry.value_or_offset);
        let region = slice_subrange(slot.as_slice(), 0, total as usize);
        Ok(read_elements(order, entry.data_type, entry.count as usize, region))
    } else {
        let start = entry.value_or_offset as usize;
        assert(tiff.len() == tiff@.len());
        if start > tiff.len() || total > (tiff.len() - start) as u64 {
            return Err(DecodeError::Truncated);
        }
        let region = slice_subrange(tiff, start, start + total as usize);
        Ok(read_elements(order, entry.data_type, entry.count as usize, region))
    }
}

} // verus!
