//! The failures that decoding can end in.

use vstd::prelude::*;

verus! {

/// Why a buffer, a directory or a single field could not be decoded.
///
/// The first four kinds are structural and end the decoding of the whole
/// buffer. `UnsupportedFieldType` concerns one field only: the walk records
/// it in that field's value and goes on.
#[derive(Clone, Copy, Debug, PartialEq, Eq, Structural)]
pub enum DecodeError {
    /// The buffer holds neither a JPEG file with an Exif segment nor a TIFF
    /// structure.
    UnsupportedContainer,
    /// The TIFF header does not carry the constant 42.
    InvalidMagic,
    /// A length or an offset reaches past the bytes that are available.
    Truncated,
    /// A directory nests too deeply or claims too many entries.
    MalformedDirectory,
    /// A field has a data type or a count that the format does not define.
    UnsupportedFieldType,
}

} // verus!
