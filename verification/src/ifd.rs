//! Image file directories: a count, that many 12-byte entries, and the
//! offset of the directory that follows.

use crate::bytes::{get_u16, get_u32, has_bytes, in_bounds, u16_at, u32_at, ByteOrder};
use crate::error::DecodeError;
use vstd::prelude::*;

verus! {

/// The number of bytes in one directory entry.
pub const ENTRY_SIZE: usize = 12;

/// The largest number of entries that a directory may claim.
pub const MAX_ENTRIES: u16 = 10000;

/// One 12-byte record of a directory.
///
/// When `count` elements of the entry's type fit in four bytes they are
/// stored in place, and `value_or_offset` holds those bytes read as one
/// integer. Otherwise `value_or_offset` is where the elements start,
/// counted from the first byte of the TIFF header.
#[derive(Clone, Copy, Debug, PartialEq, Eq, Structural)]
pub struct IfdEntry {
    pub tag: u16,
    pub data_type: u16,
    pub count: u32,
    pub value_or_offset: u32,
}

/// A directory as it is stored: its entries in order, and the offset of the
/// next directory of the chain (0 when it is the last).
#[derive(Clone, Debug, PartialEq, Eq)]
pub struct Directory {
    pub entries: Vec<IfdEntry>,
    pub next_offset: u32,
}

/// The entry stored in the twelve bytes at `pos`.
pub open spec fn entry_at(order: ByteOrder, tiff: Seq<u8>, pos: int) -> IfdEntry {
    IfdEntry {
        tag: u16_at(order, tiff, pos),
        data_type: u16_at(order, tiff, pos + 2),
        count: u32_at(order, tiff, pos + 4),
        value_or_offset: u32_at(order, tiff, pos + 8),
    }
}

/// The `count` entries stored back to back from `first` on.
pub open spec fn entries_at(order: ByteOrder, tiff: Seq<u8>, first: int, count: nat) -> Seq<
    IfdEntry,
> {
    Seq::new(count, |i: int| entry_at(order, tiff, first + 12 * i))
}

/// The directory stored at `offset`: its entries and the offset of the next
/// directory, or the reason why there is none.
///
/// It is `Truncated` when the two bytes of the count, the entries or the
/// four bytes of the next offset reach past the end of `tiff`, and a
/// `MalformedDirectory` when the count is above `MAX_ENTRIES`.
pub open spec fn spec_read_ifd(order: ByteOrder, tiff: Seq<u8>, offset: int) -> Result<
    (Seq<IfdEntry>, u32),
    DecodeError,
> {
    if !in_bounds(tiff.len() as int, offset, 2) {
        Err(DecodeError::Truncated)
    } else {
        let n = u16_at(order, tiff, offset);
        if n > MAX_ENTRIES {
            Err(DecodeError::MalformedDirectory)
        } else if !in_bounds(tiff.len() as int, offset + 2, 12 * n + 4) {
            Err(DecodeError::Truncated)
        } else {
            Ok(
                (
                    entries_at(order, tiff, offset + 2, n as nat),
                    u32_at(order, tiff, offset + 2 + 12 * n),
                ),
            )
        }
    }
}

fn get_entry(order: ByteOrder, tiff: &[u8], pos: usize) -> (r: IfdEntry)
    requires
        in_bounds(tiff@.len() as int, pos as int, 12),
    ensures
        r == entry_at(order, tiff@, pos as int),
{
    assert(tiff.len() == tiff@.len());
    IfdEntry {
        tag: get_u16(order, tiff, pos),
        data_type: get_u16(order, tiff, pos + 2),
        count: get_u32(order, tiff, pos + 4),
        value_or_offset: get_u32(order, tiff, pos + 8),
    }
}

/// Reads the directory stored at `offset`.
pub fn read_ifd(order: ByteOrder, tiff: &[u8], offset: u32) -> (r: Result<Directory, DecodeError>)
    ensures
        match r {
            Ok(dir) => spec_read_ifd(order, tiff@, offset as int) == Ok::<
                (Seq<IfdEntry>, u32),
                DecodeError,
            >((dir.entries@, dir.next_offset)),
            Err(e) => spec_read_ifd(order, tiff@, offset as int) == Err::<
                (Seq<IfdEntry>, u32),
                DecodeError,
            >(e),
        },
{
    let start = offset as usize;
    if !has_bytes(tiff, start, 2) {
        return Err(DecodeError::Truncated);
    }
    assert(tiff.len() == tiff@.len());
    let n = get_u16(order, tiff, start);
    if n > MAX_ENTRIES {
        return Err(DecodeError::MalformedDirectory);
    }
    let count = n as usize;
    let first = start + 2;
    if !has_bytes(tiff, first, ENTRY_SIZE * count + 4) {
        return Err(DecodeError::Truncated);
    }
    let mut entries: Vec<IfdEntry> = Vec::with_capacity(count);
    let mut i: usize = 0;
    while i < count
        invariant
            i <= count <= MAX_ENTRIES,
            first == offset + 2,
            in_bounds(tiff@.len() as int, first as int, 12 * count + 4),
            tiff.len() == tiff@.len(),
            entries@ == entries_at(order, tiff@, first as int, i as nat),
        decreases count - i,
    {
        entries.push(get_entry(order, tiff, first + ENTRY_SIZE * i));
        i += 1;
        assert(entries@ =~= entries_at(order, tiff@, first as int, i as nat));
    }
    let next_offset = get_u32(order, tiff, first + ENTRY_SIZE * count);
    Ok(Directory { entries, next_offset })
}

} // verus!
