//! How values are laid out as bytes, and the proof that reading gives back
//! what was laid out, in whichever byte order.

use crate::bytes::{
    encode_u16, encode_u32, encode_u64, i16_of, i32_of, i8_of, lemma_u16_round_trip,
    lemma_u32_round_trip, lemma_u64_round_trip, u16_at, u32_at, u64_at, ByteOrder,
};
use crate::value::{
    element_size, lemma_text_of_terminated, longs_of, quads_of, rationals_of, shorts_of,
    signed_bytes_of, signed_longs_of, signed_rationals_of, signed_shorts_of, value_of_bytes,
    Rational, SignedRational, ValueView, TYPE_ASCII, TYPE_BYTE, TYPE_FLOAT32, TYPE_FLOAT64,
    TYPE_LONG, TYPE_RATIONAL, TYPE_SHORT, TYPE_SIGNED_BYTE, TYPE_SIGNED_LONG,
    TYPE_SIGNED_RATIONAL, TYPE_SIGNED_SHORT, TYPE_UNDEFINED,
};
use vstd::prelude::*;

verus! {

/// The byte whose two's complement reading is `x`.
pub open spec fn bits_of_i8(x: i8) -> u8 {
    if x < 0 {
        (x + 0x100) as u8
    } else {
        x as u8
    }
}

/// The 16-bit word whose two's complement reading is `x`.
pub open spec fn bits_of_i16(x: i16) -> u16 {
    if x < 0 {
        (x + 0x1_0000) as u16
    } else {
        x as u16
    }
}

/// The 32-bit word whose two's complement reading is `x`.
pub open spec fn bits_of_i32(x: i32) -> u32 {
    if x < 0 {
        (x + 0x1_0000_0000) as u32
    } else {
        x as u32
    }
}

/// 16-bit integers laid out back to back.
#[verifier::opaque]
pub open spec fn encode_shorts(order: ByteOrder, xs: Seq<u16>) -> Seq<u8> {
    Seq::new(2 * xs.len(), |j: int| encode_u16(order, xs[j / 2])[j % 2])
}

/// 32-bit integers laid out back to back.
#[verifier::opaque]
pub open spec fn encode_longs(order: ByteOrder, xs: Seq<u32>) -> Seq<u8> {
    Seq::new(4 * xs.len(), |j: int| encode_u32(order, xs[j / 4])[j % 4])
}

/// 64-bit integers laid out back to back.
#[verifier::opaque]
pub open spec fn encode_quads(order: ByteOrder, xs: Seq<u64>) -> Seq<u8> {
    Seq::new(8 * xs.len(), |j: int| encode_u64(order, xs[j / 8])[j % 8])
}

/// The numerators and denominators of fractions, in the order in which
/// they are stored.
pub open spec fn rational_words(xs: Seq<Rational>) -> Seq<u32> {
    Seq::new(
        2 * xs.len(),
        |j: int|
            if j % 2 == 0 {
                xs[j / 2].numerator
            } else {
                xs[j / 2].denominator
            },
    )
}

/// The numerators and denominators of signed fractions as bit patterns, in
/// the order in which they are stored.
pub open spec fn signed_rational_words(xs: Seq<SignedRational>) -> Seq<u32> {
    Seq::new(
        2 * xs.len(),
        |j: int|
            if j % 2 == 0 {
                bits_of_i32(xs[j / 2].numerator)
            } else {
                bits_of_i32(xs[j / 2].denominator)
            },
    )
}

/// The type that a value is stored with; 0 for the stand-in value that has
/// none.
pub open spec fn type_of(v: ValueView) -> u16 {
    match v {
        ValueView::Byte(_) => TYPE_BYTE,
        ValueView::Ascii(_) => TYPE_ASCII,
        ValueView::Short(_) => TYPE_SHORT,
        ValueView::Long(_) => TYPE_LONG,
        ValueView::Rational(_) => TYPE_RATIONAL,
        ValueView::SignedByte(_) => TYPE_SIGNED_BYTE,
        ValueView::Undefined(_) => TYPE_UNDEFINED,
        ValueView::SignedShort(_) => TYPE_SIGNED_SHORT,
        ValueView::SignedLong(_) => TYPE_SIGNED_LONG,
        ValueView::SignedRational(_) => TYPE_SIGNED_RATIONAL,
        ValueView::Float32(_) => TYPE_FLOAT32,
        ValueView::Float64(_) => TYPE_FLOAT64,
        ValueView::Unsupported => 0,
    }
}

/// The number of elements that a value is stored with. Text counts its
/// terminator.
pub open spec fn count_of(v: ValueView) -> nat {
    match v {
        ValueView::Byte(xs) => xs.len(),
        ValueView::Ascii(xs) => xs.len() + 1,
        ValueView::Short(xs) => xs.len(),
        ValueView::Long(xs) => xs.len(),
        ValueView::Rational(xs) => xs.len(),
        ValueView::SignedByte(xs) => xs.len(),
        ValueView::Undefined(xs) => xs.len(),
        ValueView::SignedShort(xs) => xs.len(),
        ValueView::SignedLong(xs) => xs.len(),
        ValueView::SignedRational(xs) => xs.len(),
        ValueView::Float32(xs) => xs.len(),
        ValueView::Float64(xs) => xs.len(),
        ValueView::Unsupported => 0,
    }
}

/// The bytes that store a value in the given byte order. Text is closed by
/// a NUL.
pub open spec fn encode_value(order: ByteOrder, v: ValueView) -> Seq<u8> {
    match v {
        ValueView::Byte(xs) => xs,
        ValueView::Ascii(xs) => xs.push(0u8),
        ValueView::Short(xs) => encode_shorts(order, xs),
        ValueView::Long(xs) => encode_longs(order, xs),
        ValueView::Rational(xs) => encode_longs(order, rational_words(xs)),
        ValueView::SignedByte(xs) => Seq::new(xs.len(), |i: int| bits_of_i8(xs[i])),
        ValueView::Undefined(xs) => xs,
        ValueView::SignedShort(xs) => encode_shorts(
            order,
            Seq::new(xs.len(), |i: int| bits_of_i16(xs[i])),
        ),
        ValueView::SignedLong(xs) => encode_longs(
            order,
            Seq::new(xs.len(), |i: int| bits_of_i32(xs[i])),
        ),
        ValueView::SignedRational(xs) => encode_longs(order, signed_rational_words(xs)),
        ValueView::Float32(xs) => encode_longs(order, xs),
        ValueView::Float64(xs) => encode_quads(order, xs),
        ValueView::Unsupported => Seq::empty(),
    }
}

/// Whether a value can be stored: it has a type, and if it is text, no NUL
/// stands inside it.
pub open spec fn is_storable(v: ValueView) -> bool {
    match v {
        ValueView::Unsupported => false,
        ValueView::Ascii(xs) => forall|i: int| 0 <= i < xs.len() ==> xs[i] != 0,
        _ => true,
    }
}

proof fn lemma_shorts_round_trip(order: ByteOrder, xs: Seq<u16>)
    ensures
        encode_shorts(order, xs).len() == 2 * xs.len(),
        shorts_of(order, encode_shorts(order, xs), xs.len()) == xs,
{
    reveal(encode_shorts);
    let s = encode_shorts(order, xs);
    assert forall|i: int| 0 <= i < xs.len() implies u16_at(order, s, 2 * i) == xs[i] by {
        lemma_u16_round_trip(order, xs[i]);
        assert(s[2 * i] == encode_u16(order, xs[i])[0]);
        assert(s[2 * i + 1] == encode_u16(order, xs[i])[1]);
    }
    assert(shorts_of(order, s, xs.len()) =~= xs);
}

proof fn lemma_longs_round_trip(order: ByteOrder, xs: Seq<u32>)
    ensures
        encode_longs(order, xs).len() == 4 * xs.len(),
        longs_of(order, encode_longs(order, xs), xs.len()) == xs,
        forall|i: int|
            0 <= i < xs.len() ==> u32_at(order, encode_longs(order, xs), 4 * i) == #[trigger] xs[i],
{
    reveal(encode_longs);
    let s = encode_longs(order, xs);
    assert forall|i: int| 0 <= i < xs.len() implies u32_at(order, s, 4 * i) == xs[i] by {
        lemma_u32_round_trip(order, xs[i]);
        assert(s[4 * i] == encode_u32(order, xs[i])[0]);
        assert(s[4 * i + 1] == encode_u32(order, xs[i])[1]);
        assert(s[4 * i + 2] == encode_u32(order, xs[i])[2]);
        assert(s[4 * i + 3] == encode_u32(order, xs[i])[3]);
    }
    assert(longs_of(order, s, xs.len()) =~= xs);
}

proof fn lemma_quads_byte(order: ByteOrder, xs: Seq<u64>, i: int, k: int)
    requires
        0 <= i < xs.len(),
        0 <= k < 8,
    ensures
        encode_quads(order, xs).len() == 8 * xs.len(),
        encode_quads(order, xs)[8 * i + k] == encode_u64(order, xs[i])[k],
{
    reveal(encode_quads);
    assert((8 * i + k) / 8 == i);
    assert((8 * i + k) % 8 == k);
}

proof fn lemma_u64_at_same_bytes(order: ByteOrder, s: Seq<u8>, pos: int, e: Seq<u8>)
    requires
        forall|k: int| 0 <= k < 8 ==> s[pos + k] == e[k],
    ensures
        u64_at(order, s, pos) == u64_at(order, e, 0),
{
    assert(s[pos + 0] == e[0]);
    assert(s[pos + 1] == e[1]);
    assert(s[pos + 2] == e[2]);
    assert(s[pos + 3] == e[3]);
    assert(s[pos + 4] == e[4]);
    assert(s[pos + 5] == e[5]);
    assert(s[pos + 6] == e[6]);
    assert(s[pos + 7] == e[7]);
}

proof fn lemma_quads_round_trip(order: ByteOrder, xs: Seq<u64>)
    ensures
        encode_quads(order, xs).len() == 8 * xs.len(),
        quads_of(order, encode_quads(order, xs), xs.len()) == xs,
{
    let s = encode_quads(order, xs);
    assert(s.len() == 8 * xs.len()) by {
        reveal(encode_quads);
    }
    assert forall|i: int| 0 <= i < xs.len() implies u64_at(order, s, 8 * i) == xs[i] by {
        let e = encode_u64(order, xs[i]);
        assert forall|k: int| 0 <= k < 8 implies s[8 * i + k] == e[k] by {
            lemma_quads_byte(order, xs, i, k);
        }
        lemma_u64_at_same_bytes(order, s, 8 * i, e);
        lemma_u64_round_trip(order, xs[i]);
    }
    assert(quads_of(order, s, xs.len()) =~= xs);
}

proof fn lemma_rationals_round_trip(order: ByteOrder, xs: Seq<Rational>)
    ensures
        encode_longs(order, rational_words(xs)).len() == 8 * xs.len(),
        rationals_of(order, encode_longs(order, rational_words(xs)), xs.len()) == xs,
{
    let words = rational_words(xs);
    let s = encode_longs(order, words);
    lemma_longs_round_trip(order, words);
    assert forall|i: int| 0 <= i < xs.len() implies rationals_of(order, s, xs.len())[i]
        == xs[i] by {
        assert(words[2 * i] == xs[i].numerator);
        assert(words[2 * i + 1] == xs[i].denominator);
        assert(u32_at(order, s, 4 * (2 * i)) == words[2 * i]);
        assert(u32_at(order, s, 4 * (2 * i + 1)) == words[2 * i + 1]);
    }
    assert(rationals_of(order, s, xs.len()) =~= xs);
}

proof fn lemma_signed_rationals_round_trip(order: ByteOrder, xs: Seq<SignedRational>)
    ensures
        encode_longs(order, signed_rational_words(xs)).len() == 8 * xs.len(),
        signed_rationals_of(order, encode_longs(order, signed_rational_words(xs)), xs.len())
            == xs,
{
    let words = signed_rational_words(xs);
    let s = encode_longs(order, words);
    lemma_longs_round_trip(order, words);
    assert forall|i: int| 0 <= i < xs.len() implies signed_rationals_of(order, s, xs.len())[i]
        == xs[i] by {
        assert(words[2 * i] == bits_of_i32(xs[i].numerator));
        assert(words[2 * i + 1] == bits_of_i32(xs[i].denominator));
        assert(u32_at(order, s, 4 * (2 * i)) == words[2 * i]);
        assert(u32_at(order, s, 4 * (2 * i + 1)) == words[2 * i + 1]);
        assert(i32_of(bits_of_i32(xs[i].numerator)) == xs[i].numerator);
        assert(i32_of(bits_of_i32(xs[i].denominator)) == xs[i].denominator);
    }
    assert(signed_rationals_of(order, s, xs.len()) =~= xs);
}

proof fn lemma_signed_bytes_round_trip(xs: Seq<i8>)
    ensures
        signed_bytes_of(Seq::new(xs.len(), |i: int| bits_of_i8(xs[i])), xs.len()) == xs,
{
    let s = Seq::new(xs.len(), |i: int| bits_of_i8(xs[i]));
    assert forall|i: int| 0 <= i < xs.len() implies signed_bytes_of(s, xs.len())[i] == xs[i] by {
        assert(i8_of(bits_of_i8(xs[i])) == xs[i]);
    }
    assert(signed_bytes_of(s, xs.len()) =~= xs);
}

proof fn lemma_signed_shorts_round_trip(order: ByteOrder, xs: Seq<i16>)
    ensures
        encode_shorts(order, Seq::new(xs.len(), |i: int| bits_of_i16(xs[i]))).len() == 2
            * xs.len(),
        signed_shorts_of(
            order,
            encode_shorts(order, Seq::new(xs.len(), |i: int| bits_of_i16(xs[i]))),
            xs.len(),
        ) == xs,
{
    let words = Seq::new(xs.len(), |i: int| bits_of_i16(xs[i]));
    let s = encode_shorts(order, words);
    lemma_shorts_round_trip(order, words);
    assert forall|i: int| 0 <= i < xs.len() implies signed_shorts_of(order, s, xs.len())[i]
        == xs[i] by {
        assert(shorts_of(order, s, xs.len())[i] == words[i]);
        assert(i16_of(bits_of_i16(xs[i])) == xs[i]);
    }
    assert(signed_shorts_of(order, s, xs.len()) =~= xs);
}

proof fn lemma_signed_longs_round_trip(order: ByteOrder, xs: Seq<i32>)
    ensures
        encode_longs(order, Seq::new(xs.len(), |i: int| bits_of_i32(xs[i]))).len() == 4
            * xs.len(),
        signed_longs_of(
            order,
            encode_longs(order, Seq::new(xs.len(), |i: int| bits_of_i32(xs[i]))),
            xs.len(),
        ) == xs,
{
    let words = Seq::new(xs.len(), |i: int| bits_of_i32(xs[i]));
    let s = encode_longs(order, words);
    lemma_longs_round_trip(order, words);
    assert forall|i: int| 0 <= i < xs.len() implies signed_longs_of(order, s, xs.len())[i]
        == xs[i] by {
        assert(u32_at(order, s, 4 * i) == words[i]);
        assert(i32_of(bits_of_i32(xs[i])) == xs[i]);
    }
    assert(signed_longs_of(order, s, xs.len()) =~= xs);
}

/// Reading gives back what was stored: the bytes of a storable value, read
/// with its type and count, are that value again, in either byte order.
/// In particular both parts of every fraction come back unchanged, and a
/// value stored once in each byte order reads the same from both.
pub proof fn lemma_value_round_trip(order: ByteOrder, v: ValueView)
    requires
        is_storable(v),
    ensures
        encode_value(order, v).len() == count_of(v) * element_size(type_of(v)),
        value_of_bytes(order, type_of(v), count_of(v), encode_value(order, v)) == v,
{
    match v {
        ValueView::Byte(xs) => {},
        ValueView::Ascii(xs) => {
            lemma_text_of_terminated(xs, Seq::empty());
            assert(xs + seq![0u8] + Seq::<u8>::empty() =~= xs.push(0u8));
        },
        ValueView::Short(xs) => {
            lemma_shorts_round_trip(order, xs);
        },
        ValueView::Long(xs) => {
            lemma_longs_round_trip(order, xs);
        },
        ValueView::Rational(xs) => {
            lemma_rationals_round_trip(order, xs);
        },
        ValueView::SignedByte(xs) => {
            lemma_signed_bytes_round_trip(xs);
        },
        ValueView::Undefined(xs) => {},
        ValueView::SignedShort(xs) => {
            lemma_signed_shorts_round_trip(order, xs);
        },
        ValueView::SignedLong(xs) => {
            lemma_signed_longs_round_trip(order, xs);
        },
        ValueView::SignedRational(xs) => {
            lemma_signed_rationals_round_trip(order, xs);
        },
        ValueView::Float32(xs) => {
            lemma_longs_round_trip(order, xs);
        },
        ValueView::Float64(xs) => {
            lemma_quads_round_trip(order, xs);
        },
        ValueView::Unsupported => {},
    }
}

/// The byte order does not show in what is decoded: a value stored least
/// significant byte first and the same value stored most significant byte
/// first read as the same value.
pub proof fn lemma_byte_order_does_not_matter(v: ValueView)
    requires
        is_storable(v),
    ensures
        value_of_bytes(
            ByteOrder::LittleEndian,
            type_of(v),
            count_of(v),
            encode_value(ByteOrder::LittleEndian, v),
        ) == value_of_bytes(
            ByteOrder::BigEndian,
            type_of(v),
            count_of(v),
            encode_value(ByteOrder::BigEndian, v),
        ),
{
    lemma_value_round_trip(ByteOrder::LittleEndian, v);
    lemma_value_round_trip(ByteOrder::BigEndian, v);
}

} // verus!
