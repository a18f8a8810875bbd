//! The layout of a structure that holds one directory, and the theorem
//! that decoding such a structure gives back the fields it was laid out
//! from, in either byte order.

use crate::bytes::{
    encode_u16, encode_u32, lemma_u16_round_trip, lemma_u32_bytes_round_trip,
    lemma_u32_round_trip, u16_at, u32_at, ByteOrder,
};
use crate::decode::spec_decode_tiff;
use crate::encode::{count_of, encode_value, is_storable, lemma_value_round_trip, type_of};
use crate::error::DecodeError;
use crate::header::{spec_parse_header, TiffHeader};
use crate::ifd::{entries_at, entry_at, spec_read_ifd, IfdEntry, MAX_ENTRIES};
use crate::value::{
    element_size, is_inline, is_supported, spec_decode_value, value_bytes, value_len,
    value_of_bytes, ValueView,
};
use crate::walk::{
    is_plain, lemma_walk_plain_run, plain_fields, spec_decode_field, spec_walk, sub_directory,
    FieldView, Group,
};
use vstd::prelude::*;

verus! {

/// The twelve bytes that store an entry.
pub open spec fn entry_bytes(order: ByteOrder, e: IfdEntry) -> Seq<u8> {
    encode_u16(order, e.tag) + encode_u16(order, e.data_type) + encode_u32(order, e.count)
        + encode_u32(order, e.value_or_offset)
}

/// Reading gives back the entry that was stored.
pub proof fn lemma_entry_round_trip(order: ByteOrder, e: IfdEntry)
    ensures
        entry_bytes(order, e).len() == 12,
        entry_at(order, entry_bytes(order, e), 0) == e,
{
    lemma_u16_round_trip(order, e.tag);
    lemma_u16_round_trip(order, e.data_type);
    lemma_u32_round_trip(order, e.count);
    lemma_u32_round_trip(order, e.value_or_offset);
    let s = entry_bytes(order, e);
    let a = encode_u16(order, e.tag);
    let b = encode_u16(order, e.data_type);
    let c = encode_u32(order, e.count);
    let d = encode_u32(order, e.value_or_offset);
    assert(s[0] == a[0] && s[1] == a[1]);
    assert(s[2] == b[0] && s[3] == b[1]);
    assert(s[4] == c[0] && s[5] == c[1] && s[6] == c[2] && s[7] == c[3]);
    assert(s[8] == d[0] && s[9] == d[1] && s[10] == d[2] && s[11] == d[3]);
}

/// An entry is read from its twelve bytes alone.
pub proof fn lemma_entry_at_same_bytes(order: ByteOrder, s: Seq<u8>, pos: int, t: Seq<u8>)
    requires
        forall|k: int| 0 <= k < 12 ==> s[pos + k] == t[k],
    ensures
        entry_at(order, s, pos) == entry_at(order, t, 0),
{
    assert(s[pos + 0] == t[0]);
    assert(s[pos + 1] == t[1]);
    assert(s[pos + 2] == t[2]);
    assert(s[pos + 3] == t[3]);
    assert(s[pos + 4] == t[4]);
    assert(s[pos + 5] == t[5]);
    assert(s[pos + 6] == t[6]);
    assert(s[pos + 7] == t[7]);
    assert(s[pos + 8] == t[8]);
    assert(s[pos + 9] == t[9]);
    assert(s[pos + 10] == t[10]);
    assert(s[pos + 11] == t[11]);
}

/// The two bytes that name a byte order.
pub open spec fn marker(order: ByteOrder) -> Seq<u8> {
    match order {
        ByteOrder::LittleEndian => seq![0x49u8, 0x49u8],
        ByteOrder::BigEndian => seq![0x4du8, 0x4du8],
    }
}

/// The bytes that store the value of a field.
pub open spec fn stored_bytes(order: ByteOrder, f: FieldView) -> Seq<u8> {
    encode_value(order, f.value)
}

/// Whether the value of a field takes more than the four bytes of a slot,
/// and so is stored apart from its entry.
pub open spec fn stored_apart(order: ByteOrder, f: FieldView) -> bool {
    stored_bytes(order, f).len() > 4
}

/// The values of the first `upto` fields that are stored apart, one after
/// another.
pub open spec fn data_area(order: ByteOrder, fields: Seq<FieldView>, upto: nat) -> Seq<u8>
    decreases upto,
{
    if upto == 0 {
        Seq::empty()
    } else {
        let before = data_area(order, fields, (upto - 1) as nat);
        if stored_apart(order, fields[upto - 1]) {
            before + stored_bytes(order, fields[upto - 1])
        } else {
            before
        }
    }
}

/// Where the values that are stored apart begin: after the header, the
/// count, the entries and the link to the next directory.
pub open spec fn data_start(fields: Seq<FieldView>) -> int {
    14 + 12 * (fields.len() as int)
}

/// Up to four bytes, filled up with zeros to four.
pub open spec fn padded(bytes: Seq<u8>) -> Seq<u8> {
    Seq::new(
        4,
        |k: int|
            if k < bytes.len() {
                bytes[k]
            } else {
                0u8
            },
    )
}

/// The entry that stores the field at index `i`. A value of up to four
/// bytes stands in the slot, from its first byte on; a longer one stands
/// in the data area, and the slot holds where.
pub open spec fn stored_entry(order: ByteOrder, fields: Seq<FieldView>, i: int) -> IfdEntry {
    let f = fields[i];
    IfdEntry {
        tag: f.tag,
        data_type: type_of(f.value),
        count: count_of(f.value) as u32,
        value_or_offset: if stored_apart(order, f) {
            (data_start(fields) + data_area(order, fields, i as nat).len()) as u32
        } else {
            u32_at(order, padded(stored_bytes(order, f)), 0)
        },
    }
}

/// The entries of all fields, twelve bytes each.
pub open spec fn entry_table(order: ByteOrder, fields: Seq<FieldView>) -> Seq<u8> {
    Seq::new(
        12 * fields.len(),
        |j: int| entry_bytes(order, stored_entry(order, fields, j / 12))[j % 12],
    )
}

/// A structure that holds the given fields in one directory: the header,
/// which points to the directory right behind it; the count; the entries;
/// a link of 0, for no directory follows; and the values that do not fit
/// into their entries.
pub open spec fn encode_tiff(order: ByteOrder, fields: Seq<FieldView>) -> Seq<u8> {
    marker(order) + encode_u16(order, 42) + encode_u32(order, 8) + encode_u16(
        order,
        fields.len() as u16,
    ) + entry_table(order, fields) + encode_u32(order, 0) + data_area(
        order,
        fields,
        fields.len(),
    )
}

/// Whether the fields can be laid out in one directory: there are not too
/// many, every offset fits in 32 bits, every field carries a tag of TIFF
/// itself and has a value that can be stored, of at least one element,
/// under the type of that value, and none points to another directory.
pub open spec fn can_be_laid_out(order: ByteOrder, fields: Seq<FieldView>) -> bool {
    &&& fields.len() <= MAX_ENTRIES
    &&& data_start(fields) + data_area(order, fields, fields.len()).len() <= u32::MAX
    &&& forall|i: int|
        0 <= i < fields.len() ==> {
            &&& is_storable((#[trigger] fields[i]).value)
            &&& fields[i].group == Group::Tiff
            &&& fields[i].data_type == type_of(fields[i].value)
            &&& 1 <= count_of(fields[i].value) <= u32::MAX
            &&& sub_directory(fields[i]) is None
        }
}

proof fn lemma_data_area_grows(order: ByteOrder, fields: Seq<FieldView>, i: nat, upto: nat)
    requires
        i <= upto,
    ensures
        data_area(order, fields, i).len() <= data_area(order, fields, upto).len(),
        data_area(order, fields, upto).subrange(0, data_area(order, fields, i).len() as int)
            == data_area(order, fields, i),
    decreases upto,
{
    if i < upto {
        lemma_data_area_grows(order, fields, i, (upto - 1) as nat);
        let before = data_area(order, fields, (upto - 1) as nat);
        let whole = data_area(order, fields, upto);
        let part = data_area(order, fields, i);
        assert(whole.subrange(0, before.len() as int) =~= before);
        assert(whole.subrange(0, part.len() as int) =~= before.subrange(0, part.len() as int));
    } else {
        let whole = data_area(order, fields, upto);
        assert(whole.subrange(0, whole.len() as int) =~= whole);
    }
}

/// A value that is stored apart stands in the data area where its entry
/// says.
proof fn lemma_data_area_holds(order: ByteOrder, fields: Seq<FieldView>, i: int)
    requires
        0 <= i < fields.len(),
        stored_apart(order, fields[i]),
    ensures
        data_area(order, fields, i as nat).len() + stored_bytes(order, fields[i]).len()
            <= data_area(order, fields, fields.len()).len(),
        data_area(order, fields, fields.len()).subrange(
            data_area(order, fields, i as nat).len() as int,
            (data_area(order, fields, i as nat).len() + stored_bytes(order, fields[i]).len())
                as int,
        ) == stored_bytes(order, fields[i]),
{
    let before = data_area(order, fields, i as nat);
    let with = data_area(order, fields, (i + 1) as nat);
    let whole = data_area(order, fields, fields.len());
    let b = stored_bytes(order, fields[i]);
    assert(with == before + b);
    lemma_data_area_grows(order, fields, (i + 1) as nat, fields.len());
    assert(whole.subrange(0, with.len() as int) == with);
    let from = before.len() as int;
    let to = (before.len() + b.len()) as int;
    assert(whole.subrange(from, to) =~= with.subrange(from, to));
    assert(with.subrange(from, to) =~= b);
}

/// The entries that store the fields.
pub open spec fn stored_entries(order: ByteOrder, fields: Seq<FieldView>) -> Seq<IfdEntry> {
    Seq::new(fields.len(), |i: int| stored_entry(order, fields, i))
}

/// What stands where in a laid-out structure.
proof fn lemma_parts(order: ByteOrder, fields: Seq<FieldView>)
    ensures
        ({
            let t = encode_tiff(order, fields);
            let n = fields.len() as int;
            &&& t.len() == data_start(fields) + data_area(order, fields, fields.len()).len()
            &&& t.subrange(0, 2) == marker(order)
            &&& t.subrange(2, 4) == encode_u16(order, 42)
            &&& t.subrange(4, 8) == encode_u32(order, 8)
            &&& t.subrange(8, 10) == encode_u16(order, fields.len() as u16)
            &&& t.subrange(10, 10 + 12 * n) == entry_table(order, fields)
            &&& t.subrange(10 + 12 * n, 14 + 12 * n) == encode_u32(order, 0)
            &&& t.subrange(14 + 12 * n, t.len() as int) == data_area(order, fields, fields.len())
        }),
{
    let t = encode_tiff(order, fields);
    let n = fields.len() as int;
    let a = marker(order);
    let b = encode_u16(order, 42);
    let c = encode_u32(order, 8);
    let d = encode_u16(order, fields.len() as u16);
    let e = entry_table(order, fields);
    let f = encode_u32(order, 0);
    let g = data_area(order, fields, fields.len());
    assert(a.len() == 2 && b.len() == 2 && c.len() == 4 && d.len() == 2 && e.len() == 12 * n
        && f.len() == 4);
    assert(t == a + b + c + d + e + f + g);
    assert(t.subrange(0, 2) =~= a);
    assert(t.subrange(2, 4) =~= b);
    assert(t.subrange(4, 8) =~= c);
    assert(t.subrange(8, 10) =~= d);
    assert(t.subrange(10, 10 + 12 * n) =~= e);
    assert(t.subrange(10 + 12 * n, 14 + 12 * n) =~= f);
    assert(t.subrange(14 + 12 * n, t.len() as int) =~= g);
}

proof fn lemma_u16_at_part(order: ByteOrder, s: Seq<u8>, pos: int, part: Seq<u8>)
    requires
        0 <= pos,
        pos + 2 <= s.len(),
        s.subrange(pos, pos + 2) == part,
    ensures
        u16_at(order, s, pos) == u16_at(order, part, 0),
{
    assert(part[0] == s[pos + 0]);
    assert(part[1] == s[pos + 1]);
}

proof fn lemma_u32_at_part(order: ByteOrder, s: Seq<u8>, pos: int, part: Seq<u8>)
    requires
        0 <= pos,
        pos + 4 <= s.len(),
        s.subrange(pos, pos + 4) == part,
    ensures
        u32_at(order, s, pos) == u32_at(order, part, 0),
{
    assert(part[0] == s[pos + 0]);
    assert(part[1] == s[pos + 1]);
    assert(part[2] == s[pos + 2]);
    assert(part[3] == s[pos + 3]);
}

proof fn lemma_laid_out_header(order: ByteOrder, fields: Seq<FieldView>)
    ensures
        spec_parse_header(encode_tiff(order, fields)) == Ok::<TiffHeader, DecodeError>(
            TiffHeader { byte_order: order, ifd0_offset: 8 },
        ),
{
    let t = encode_tiff(order, fields);
    lemma_parts(order, fields);
    let a = marker(order);
    assert(a[0] == t[0] && a[1] == t[1]) by {
        assert(t.subrange(0, 2)[0] == t[0]);
        assert(t.subrange(0, 2)[1] == t[1]);
    }
    lemma_u16_at_part(order, t, 2, encode_u16(order, 42));
    lemma_u16_round_trip(order, 42);
    lemma_u32_at_part(order, t, 4, encode_u32(order, 8));
    lemma_u32_round_trip(order, 8);
}

proof fn lemma_laid_out_entry(order: ByteOrder, fields: Seq<FieldView>, i: int)
    requires
        0 <= i < fields.len(),
    ensures
        entry_at(order, encode_tiff(order, fields), 10 + 12 * i) == stored_entry(order, fields, i),
{
    let t = encode_tiff(order, fields);
    let table = entry_table(order, fields);
    let e = stored_entry(order, fields, i);
    let bytes = entry_bytes(order, e);
    lemma_parts(order, fields);
    lemma_entry_round_trip(order, e);
    assert forall|k: int| 0 <= k < 12 implies t[10 + 12 * i + k] == bytes[k] by {
        assert((12 * i + k) / 12 == i);
        assert((12 * i + k) % 12 == k);
        assert(table[12 * i + k] == bytes[k]);
        assert(t.subrange(10, 10 + 12 * (fields.len() as int))[12 * i + k] == t[10 + (12 * i
            + k)]);
    }
    lemma_entry_at_same_bytes(order, t, 10 + 12 * i, bytes);
}

proof fn lemma_laid_out_directory(order: ByteOrder, fields: Seq<FieldView>)
    requires
        fields.len() <= MAX_ENTRIES,
    ensures
        spec_read_ifd(order, encode_tiff(order, fields), 8) == Ok::<
            (Seq<IfdEntry>, u32),
            DecodeError,
        >((stored_entries(order, fields), 0u32)),
{
    let t = encode_tiff(order, fields);
    let n = fields.len() as int;
    lemma_parts(order, fields);
    lemma_u16_at_part(order, t, 8, encode_u16(order, fields.len() as u16));
    lemma_u16_round_trip(order, fields.len() as u16);
    lemma_u32_at_part(order, t, 10 + 12 * n, encode_u32(order, 0));
    lemma_u32_round_trip(order, 0);
    assert forall|i: int| 0 <= i < n implies entries_at(order, t, 10, n as nat)[i]
        == stored_entries(order, fields)[i] by {
        lemma_laid_out_entry(order, fields, i);
    }
    assert(entries_at(order, t, 10, n as nat) =~= stored_entries(order, fields));
}

proof fn lemma_laid_out_field(order: ByteOrder, fields: Seq<FieldView>, i: int)
    requires
        can_be_laid_out(order, fields),
        0 <= i < fields.len(),
    ensures
        spec_decode_field(
            order,
            encode_tiff(order, fields),
            stored_entry(order, fields, i),
            Group::Tiff,
        ) == Ok::<FieldView, DecodeError>(fields[i]),
{
    let t = encode_tiff(order, fields);
    let f = fields[i];
    let e = stored_entry(order, fields, i);
    let b = stored_bytes(order, f);
    lemma_parts(order, fields);
    lemma_value_round_trip(order, f.value);
    assert(is_supported(e));
    assert(value_len(e) == b.len());
    if stored_apart(order, f) {
        lemma_data_area_holds(order, fields, i);
        let from = data_area(order, fields, i as nat).len() as int;
        let to = from + b.len();
        let data = data_area(order, fields, fields.len());
        assert(e.value_or_offset == data_start(fields) + from);
        let start = data_start(fields);
        let tail = t.subrange(start, t.len() as int);
        assert(tail == data);
        assert(t.subrange(start + from, start + to) =~= tail.subrange(from, to));
        assert(value_bytes(order, t, e) == b);
    } else {
        lemma_u32_bytes_round_trip(order, padded(b));
        assert(value_bytes(order, t, e) =~= b);
    }
    assert(spec_decode_value(order, t, e) == Ok::<ValueView, DecodeError>(f.value));
}

/// Decoding gives back what was laid out: the structure that holds a list
/// of fields in one directory decodes to exactly those fields, in their
/// order, with their tags, types and values, whichever byte order it was
/// laid out in.
pub proof fn lemma_decode_laid_out(order: ByteOrder, fields: Seq<FieldView>)
    requires
        can_be_laid_out(order, fields),
    ensures
        spec_decode_tiff(encode_tiff(order, fields)) == Ok::<Seq<FieldView>, DecodeError>(fields),
{
    let t = encode_tiff(order, fields);
    let entries = stored_entries(order, fields);
    let n = fields.len() as int;
    lemma_laid_out_header(order, fields);
    lemma_laid_out_directory(order, fields);
    assert forall|i: int| 0 <= i < n implies is_plain(order, t, #[trigger] entries[i]) by {
        lemma_laid_out_field(order, fields, i);
    }
    lemma_walk_plain_run(order, t, entries, 0, n, 0, Group::Tiff);
    let found = plain_fields(order, t, entries, 0, n, Group::Tiff);
    assert forall|i: int| 0 <= i < n implies found[i] == fields[i] by {
        lemma_laid_out_field(order, fields, i);
    }
    assert(found =~= fields);
    assert(found + Seq::<FieldView>::empty() =~= found);
}

/// The byte order does not show in what is decoded: the same fields, laid
/// out once least significant byte first and once most significant byte
/// first, decode to the same fields.
pub proof fn lemma_both_orders_decode_alike(fields: Seq<FieldView>)
    requires
        can_be_laid_out(ByteOrder::LittleEndian, fields),
        can_be_laid_out(ByteOrder::BigEndian, fields),
    ensures
        spec_decode_tiff(encode_tiff(ByteOrder::LittleEndian, fields)) == spec_decode_tiff(
            encode_tiff(ByteOrder::BigEndian, fields),
        ),
{
    lemma_decode_laid_out(ByteOrder::LittleEndian, fields);
    lemma_decode_laid_out(ByteOrder::BigEndian, fields);
}

} // verus!
