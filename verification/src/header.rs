//! The eight bytes that open every TIFF structure.

use crate::bytes::{get_u16, get_u32, u16_at, u32_at, ByteOrder};
use crate::error::DecodeError;
use vstd::prelude::*;

verus! {

/// The number of bytes in a TIFF header.
pub const HEADER_SIZE: usize = 8;

/// The constant that follows the byte-order marker.
pub const TIFF_MAGIC: u16 = 42;

/// What the TIFF header says: the byte order of everything that follows and
/// where the first directory starts, counted from the header's first byte.
#[derive(Clone, Copy, Debug, PartialEq, Eq, Structural)]
pub struct TiffHeader {
    pub byte_order: ByteOrder,
    pub ifd0_offset: u32,
}

/// The byte order that a two-byte marker names: `II` or `MM`.
pub open spec fn marker_order(b0: u8, b1: u8) -> Option<ByteOrder> {
    if b0 == 0x49 && b1 == 0x49 {
        Some(ByteOrder::LittleEndian)
    } else if b0 == 0x4d && b1 == 0x4d {
        Some(ByteOrder::BigEndian)
    } else {
        None
    }
}

/// The header of a TIFF structure, or the reason why it has none.
///
/// A structure shorter than a header is `Truncated`; one that opens with
/// anything but `II` or `MM` is an `UnsupportedContainer`; one whose magic
/// constant, read in the order just found, is not 42 has an `InvalidMagic`.
pub open spec fn spec_parse_header(tiff: Seq<u8>) -> Result<TiffHeader, DecodeError> {
    if tiff.len() < 8 {
        Err(DecodeError::Truncated)
    } else {
        match marker_order(tiff[0], tiff[1]) {
            None => Err(DecodeError::UnsupportedContainer),
            Some(order) => if u16_at(order, tiff, 2) != 42 {
                Err(DecodeError::InvalidMagic)
            } else {
                Ok(TiffHeader { byte_order: order, ifd0_offset: u32_at(order, tiff, 4) })
            },
        }
    }
}

/// Reads the byte-order marker.
pub fn byte_order_of(b0: u8, b1: u8) -> (r: Option<ByteOrder>)
    ensures
        r == marker_order(b0, b1),
{
    if b0 == 0x49 && b1 == 0x49 {
        Some(ByteOrder::LittleEndian)
    } else if b0 == 0x4d && b1 == 0x4d {
        Some(ByteOrder::BigEndian)
    } else {
        None
    }
}

/// Parses the header at the start of `tiff`.
pub fn parse_header(tiff: &[u8]) -> (r: Result<TiffHeader, DecodeError>)
    ensures
        r == spec_parse_header(tiff@),
{
    if tiff.len() < HEADER_SIZE {
        return Err(DecodeError::Truncated);
    }
    match byte_order_of(tiff[0], tiff[1]) {
        None => Err(DecodeError::UnsupportedContainer),
        Some(order) => {
            if get_u16(order, tiff, 2) != TIFF_MAGIC {
                Err(DecodeError::InvalidMagic)
            } else {
                Ok(TiffHeader { byte_order: order, ifd0_offset: get_u32(order, tiff, 4) })
            }
        },
    }
}

} // verus!
