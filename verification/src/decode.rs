//! Decoding a whole file: the TIFF structure is located, its header is
//! read, and its directories are walked.

use crate::bytes::ByteOrder;
use crate::container::{is_jpeg, is_tiff, lemma_scan_outcome, locate, spec_locate};
use crate::error::DecodeError;
use crate::header::{parse_header, spec_parse_header};
use crate::ifd::{spec_read_ifd, IfdEntry};
use crate::value::{is_inline, is_supported, spec_decode_value, value_len, ValueView};
use crate::walk::{
    is_plain, is_walk_outcome, lemma_walk_cycle, lemma_walk_entries_step, lemma_walk_outcome,
    lemma_walk_plain_run, plain_fields, points_to, spec_walk, views, walk_directory, Field,
    FieldView, Group,
};
use vstd::prelude::*;
use vstd::slice::slice_subrange;

verus! {

/// The decoded fields of a TIFF structure, or the structural error that
/// ends its decoding.
///
/// The header names the byte order and the first directory. An offset of 0
/// means that there is no directory, and so no field. Otherwise the fields
/// are those of the walk that starts at the first directory, which holds
/// tags of TIFF itself.
pub open spec fn spec_decode_tiff(tiff: Seq<u8>) -> Result<Seq<FieldView>, DecodeError> {
    match spec_parse_header(tiff) {
        Err(e) => Err(e),
        Ok(header) => if header.ifd0_offset == 0 {
            Ok(Seq::empty())
        } else {
            spec_walk(header.byte_order, tiff, header.ifd0_offset, 0, Group::Tiff)
        },
    }
}

/// The decoded fields of a buffer: those of the TIFF structure that is
/// located in it.
pub open spec fn spec_decode(data: Seq<u8>) -> Result<Seq<FieldView>, DecodeError> {
    match spec_locate(data) {
        Err(e) => Err(e),
        Ok((_, start, end)) => spec_decode_tiff(data.subrange(start, end)),
    }
}

/// The byte order that the header of a structure names.
pub open spec fn order_of(tiff: Seq<u8>) -> ByteOrder {
    spec_parse_header(tiff)->Ok_0.byte_order
}

/// The offset of the first directory, as the header gives it.
pub open spec fn first_offset(tiff: Seq<u8>) -> u32 {
    spec_parse_header(tiff)->Ok_0.ifd0_offset
}

/// The entries of the first directory.
pub open spec fn first_entries(tiff: Seq<u8>) -> Seq<IfdEntry> {
    spec_read_ifd(order_of(tiff), tiff, first_offset(tiff) as int)->Ok_0.0
}

/// Whether a structure has a header and a first directory that can be read.
pub open spec fn has_first_directory(tiff: Seq<u8>) -> bool {
    &&& spec_parse_header(tiff) is Ok
    &&& first_offset(tiff) != 0
    &&& spec_read_ifd(order_of(tiff), tiff, first_offset(tiff) as int) is Ok
}

/// Whether a structure is a header and one directory and no more: no
/// directory follows the first, none of its entries points to another, and
/// the value of every entry lies inside the structure.
pub open spec fn is_single_directory(tiff: Seq<u8>) -> bool {
    &&& has_first_directory(tiff)
    &&& spec_read_ifd(order_of(tiff), tiff, first_offset(tiff) as int)->Ok_0.1 == 0
    &&& forall|i: int|
        0 <= i < first_entries(tiff).len() ==> is_plain(
            order_of(tiff),
            tiff,
            #[trigger] first_entries(tiff)[i],
        )
}

/// A structure of a header and one directory decodes to exactly one field
/// for each entry of that directory, in the order of the entries: the
/// field at an index has the tag and the type of the entry at that index,
/// and the value that the entry decodes to.
pub proof fn lemma_single_directory(tiff: Seq<u8>)
    requires
        is_single_directory(tiff),
    ensures
        spec_decode_tiff(tiff) == Ok::<Seq<FieldView>, DecodeError>(
            plain_fields(
                order_of(tiff),
                tiff,
                first_entries(tiff),
                0,
                first_entries(tiff).len() as int,
                Group::Tiff,
            ),
        ),
        spec_decode_tiff(tiff)->Ok_0.len() == first_entries(tiff).len(),
        forall|i: int|
            0 <= i < first_entries(tiff).len() ==> {
                &&& (#[trigger] spec_decode_tiff(tiff)->Ok_0[i]).tag == first_entries(tiff)[i].tag
                &&& spec_decode_tiff(tiff)->Ok_0[i].data_type == first_entries(tiff)[i].data_type
            },
{
    let order = order_of(tiff);
    let entries = first_entries(tiff);
    let n = entries.len() as int;
    lemma_walk_plain_run(order, tiff, entries, 0, n, 0, Group::Tiff);
    let fields = plain_fields(order, tiff, entries, 0, n, Group::Tiff);
    assert(fields + Seq::<FieldView>::empty() =~= fields);
    assert forall|i: int| 0 <= i < n implies fields[i].tag == entries[i].tag && fields[i].data_type
        == entries[i].data_type by {
        assert(is_plain(order, tiff, entries[i]));
    }
}

/// Decoding a structure ends with fields or with a structural error. A
/// field whose type or count the format does not define is recorded in its
/// value and never ends the decoding; and what is wrong with a container
/// or a header is found before the first directory is read.
pub proof fn lemma_decode_outcome(tiff: Seq<u8>)
    ensures
        spec_decode_tiff(tiff) != Err::<Seq<FieldView>, DecodeError>(
            DecodeError::UnsupportedFieldType,
        ),
        spec_parse_header(tiff) is Ok ==> is_walk_outcome(spec_decode_tiff(tiff)),
{
    if let Ok(header) = spec_parse_header(tiff) {
        lemma_walk_outcome(header.byte_order, tiff, header.ifd0_offset, 0, Group::Tiff);
    }
}

/// Decoding a file never ends as an `UnsupportedFieldType`: that error
/// belongs to single fields and stays with them.
pub proof fn lemma_file_outcome(data: Seq<u8>)
    ensures
        spec_decode(data) != Err::<Seq<FieldView>, DecodeError>(
            DecodeError::UnsupportedFieldType,
        ),
{
    match spec_locate(data) {
        Ok((_, start, end)) => {
            lemma_decode_outcome(data.subrange(start, end));
        },
        Err(e) => {
            if is_jpeg(data) && !is_tiff(data) {
                lemma_scan_outcome(data, 2);
            }
        },
    }
}

/// A header that points past the end of the structure makes it
/// `Truncated`: the first directory cannot even begin.
pub proof fn lemma_directory_out_of_reach(tiff: Seq<u8>)
    requires
        spec_parse_header(tiff) is Ok,
        first_offset(tiff) + 2 > tiff.len(),
    ensures
        spec_decode_tiff(tiff) == Err::<Seq<FieldView>, DecodeError>(DecodeError::Truncated),
{
}

/// An entry whose value is stored out of place and reaches past the end of
/// the structure makes it `Truncated`, if the entries in front of it give
/// a field each and point nowhere.
pub proof fn lemma_value_out_of_reach(tiff: Seq<u8>, k: int)
    requires
        has_first_directory(tiff),
        0 <= k < first_entries(tiff).len(),
        forall|i: int|
            0 <= i < k ==> is_plain(order_of(tiff), tiff, #[trigger] first_entries(tiff)[i]),
        is_supported(first_entries(tiff)[k]),
        !is_inline(first_entries(tiff)[k]),
        first_entries(tiff)[k].value_or_offset + value_len(first_entries(tiff)[k]) > tiff.len(),
    ensures
        spec_decode_tiff(tiff) == Err::<Seq<FieldView>, DecodeError>(DecodeError::Truncated),
{
    let order = order_of(tiff);
    let entries = first_entries(tiff);
    lemma_walk_plain_run(order, tiff, entries, 0, k, 0, Group::Tiff);
    lemma_walk_entries_step(order, tiff, entries, k, 0, Group::Tiff);
    assert(spec_decode_value(order, tiff, entries[k]) == Err::<ValueView, DecodeError>(
        DecodeError::Truncated,
    ));
}

/// A first directory with an entry that points back to it makes the
/// structure a `MalformedDirectory`, if the entries in front of that entry
/// give a field each and point nowhere: the walk ends, it does not go
/// round for ever.
pub proof fn lemma_cycle_is_malformed(tiff: Seq<u8>, k: int)
    requires
        has_first_directory(tiff),
        0 <= k < first_entries(tiff).len(),
        forall|i: int|
            0 <= i < k ==> is_plain(order_of(tiff), tiff, #[trigger] first_entries(tiff)[i]),
        points_to(order_of(tiff), tiff, first_entries(tiff)[k], first_offset(tiff)),
    ensures
        spec_decode_tiff(tiff) == Err::<Seq<FieldView>, DecodeError>(
            DecodeError::MalformedDirectory,
        ),
{
    lemma_walk_cycle(order_of(tiff), tiff, first_offset(tiff), k, 0, Group::Tiff);
}

/// Decodes the TIFF structure that `tiff` holds from its first byte on.
pub fn decode_tiff(tiff: &[u8]) -> (r: Result<Vec<Field>, DecodeError>)
    ensures
        match r {
            Ok(fields) => spec_decode_tiff(tiff@) == Ok::<Seq<FieldView>, DecodeError>(
                views(fields@),
            ),
            Err(e) => spec_decode_tiff(tiff@) == Err::<Seq<FieldView>, DecodeError>(e),
        },
{
    match parse_header(tiff) {
        Err(e) => Err(e),
        Ok(header) => {
            if header.ifd0_offset == 0 {
                let fields: Vec<Field> = Vec::new();
                assert(views(fields@) =~= Seq::<FieldView>::empty());
                Ok(fields)
            } else {
                walk_directory(header.byte_order, tiff, header.ifd0_offset, 0, Group::Tiff)
            }
        },
    }
}

/// Decodes the metadata of an image file held in `data`: every field of
/// its TIFF structure, in directory order, or the structural error that
/// ended the decoding.
pub fn decode(data: &[u8]) -> (r: Result<Vec<Field>, DecodeError>)
    ensures
        match r {
            Ok(fields) => spec_decode(data@) == Ok::<Seq<FieldView>, DecodeError>(views(fields@)),
            Err(e) => spec_decode(data@) == Err::<Seq<FieldView>, DecodeError>(e),
        },
{
    match locate(data) {
        Ok(found) => decode_tiff(slice_subrange(data, found.start, found.end)),
        Err(e) => Err(e),
    }
}

} // verus!
