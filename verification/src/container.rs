//! Telling what kind of file a buffer holds and where its TIFF structure
//! lies.

use crate::bytes::{get_u16, u16_at, ByteOrder};
use crate::decode::{decode_tiff, spec_decode_tiff};
use crate::error::DecodeError;
use crate::walk::{views, Field, FieldView};
use vstd::prelude::*;
use vstd::slice::slice_subrange;

verus! {

/// The second byte of the marker that opens an APP1 segment.
pub const MARKER_APP1: u8 = 0xe1;

/// The second byte of the marker that opens the compressed image data.
pub const MARKER_START_OF_SCAN: u8 = 0xda;

/// The second byte of the marker that closes a JPEG file.
pub const MARKER_END_OF_IMAGE: u8 = 0xd9;

/// What a buffer was recognised as.
#[derive(Clone, Copy, Debug, PartialEq, Eq, Structural)]
pub enum ContainerKind {
    /// A JPEG file that carries its metadata in an APP1 segment.
    Jpeg,
    /// A file that opens with a TIFF signature.
    Tiff,
    /// A bare TIFF structure that was handed over as such, without a
    /// signature check.
    RawTiff,
}

/// Whether the buffer opens with the start-of-image marker of JPEG.
pub open spec fn is_jpeg(data: Seq<u8>) -> bool {
    data.len() >= 2 && data[0] == 0xff && data[1] == 0xd8
}

/// Whether the buffer opens with a TIFF signature: `II*\0` or `MM\0*`.
pub open spec fn is_tiff(data: Seq<u8>) -> bool {
    data.len() >= 4 && ((data[0] == 0x49 && data[1] == 0x49 && data[2] == 0x2a && data[3] == 0)
        || (data[0] == 0x4d && data[1] == 0x4d && data[2] == 0 && data[3] == 0x2a))
}

/// Whether the six bytes at `pos` read `Exif\0\0`.
pub open spec fn is_exif_id(data: Seq<u8>, pos: int) -> bool {
    data[pos] == 0x45 && data[pos + 1] == 0x78 && data[pos + 2] == 0x69 && data[pos + 3] == 0x66
        && data[pos + 4] == 0 && data[pos + 5] == 0
}

/// The TIFF structure found by scanning the marker segments of a JPEG file
/// from `pos` on: where it starts and where it ends.
///
/// A segment is a marker of two bytes, the first of them `0xff`, and a
/// length of two bytes, most significant first, that counts itself and the
/// payload. The scan ends at the first APP1 segment whose payload opens
/// with `Exif\0\0`; the structure is the rest of that payload. A segment
/// that claims more bytes than the buffer has makes the file `Truncated`.
/// The scan gives up with `UnsupportedContainer` where no segment follows:
/// at the end of the buffer, at a byte that opens no marker, at a length
/// below 2, and at the markers that open the image data or close the file.
pub open spec fn spec_scan_segments(data: Seq<u8>, pos: int) -> Result<(int, int), DecodeError>
    decreases data.len() - pos,
{
    if pos < 0 || pos + 4 > data.len() || data[pos] != 0xff {
        Err(DecodeError::UnsupportedContainer)
    } else {
        let marker = data[pos + 1];
        let length = u16_at(ByteOrder::BigEndian, data, pos + 2);
        if marker == MARKER_START_OF_SCAN || marker == MARKER_END_OF_IMAGE || length < 2 {
            Err(DecodeError::UnsupportedContainer)
        } else if pos + 2 + length > data.len() {
            Err(DecodeError::Truncated)
        } else if marker == MARKER_APP1 && length >= 8 && is_exif_id(data, pos + 4) {
            Ok((pos + 10, pos + 2 + length))
        } else {
            spec_scan_segments(data, pos + 2 + length)
        }
    }
}

/// The kind of a buffer and the range of bytes that its TIFF structure
/// takes, or the reason why it has none.
///
/// A buffer that opens with a TIFF signature is itself the structure. In a
/// JPEG file the structure lies in the Exif segment. Anything else is an
/// `UnsupportedContainer`.
pub open spec fn spec_locate(data: Seq<u8>) -> Result<(ContainerKind, int, int), DecodeError> {
    if is_tiff(data) {
        Ok((ContainerKind::Tiff, 0, data.len() as int))
    } else if is_jpeg(data) {
        match spec_scan_segments(data, 2) {
            Ok((start, end)) => Ok((ContainerKind::Jpeg, start, end)),
            Err(e) => Err(e),
        }
    } else {
        Err(DecodeError::UnsupportedContainer)
    }
}

/// A structure found by the scan lies inside the buffer, after the
/// identifier of its segment.
pub proof fn lemma_scan_in_bounds(data: Seq<u8>, pos: int)
    requires
        0 <= pos,
        spec_scan_segments(data, pos) is Ok,
    ensures
        pos + 10 <= spec_scan_segments(data, pos)->Ok_0.0 <= spec_scan_segments(data, pos)->Ok_0.1
            <= data.len(),
    decreases data.len() - pos,
{
    let marker = data[pos + 1];
    let length = u16_at(ByteOrder::BigEndian, data, pos + 2);
    if !(marker == MARKER_APP1 && length >= 8 && is_exif_id(data, pos + 4)) {
        lemma_scan_in_bounds(data, pos + 2 + length);
    }
}

/// A scan that finds no structure ends as an `UnsupportedContainer` or as
/// `Truncated`, and in no other way.
pub proof fn lemma_scan_outcome(data: Seq<u8>, pos: int)
    requires
        0 <= pos,
    ensures
        match spec_scan_segments(data, pos) {
            Ok(_) => true,
            Err(e) => e == DecodeError::UnsupportedContainer || e == DecodeError::Truncated,
        },
    decreases data.len() - pos,
{
    if pos + 4 <= data.len() && data[pos] == 0xff {
        let marker = data[pos + 1];
        let length = u16_at(ByteOrder::BigEndian, data, pos + 2);
        if !(marker == MARKER_START_OF_SCAN || marker == MARKER_END_OF_IMAGE || length < 2)
            && pos + 2 + length <= data.len() && !(marker == MARKER_APP1 && length >= 8
            && is_exif_id(data, pos + 4)) {
            lemma_scan_outcome(data, pos + 2 + length);
        }
    }
}

/// The range that `spec_locate` gives lies inside the buffer.
pub proof fn lemma_locate_in_bounds(data: Seq<u8>)
    requires
        spec_locate(data) is Ok,
    ensures
        0 <= spec_locate(data)->Ok_0.1 <= spec_locate(data)->Ok_0.2 <= data.len(),
{
    if !is_tiff(data) {
        lemma_scan_in_bounds(data, 2);
    }
}

/// Where the TIFF structure of a buffer lies.
#[derive(Clone, Copy, Debug, PartialEq, Eq, Structural)]
pub struct Located {
    pub kind: ContainerKind,
    /// The index of the first byte of the TIFF header.
    pub start: usize,
    /// The index after the last byte of the structure.
    pub end: usize,
}

fn has_tiff_signature(data: &[u8]) -> (r: bool)
    ensures
        r == is_tiff(data@),
{
    data.len() >= 4 && ((data[0] == 0x49 && data[1] == 0x49 && data[2] == 0x2a && data[3] == 0)
        || (data[0] == 0x4d && data[1] == 0x4d && data[2] == 0 && data[3] == 0x2a))
}

fn has_exif_id(data: &[u8], pos: usize) -> (r: bool)
    requires
        pos + 6 <= data@.len(),
    ensures
        r == is_exif_id(data@, pos as int),
{
    data[pos] == 0x45 && data[pos + 1] == 0x78 && data[pos + 2] == 0x69 && data[pos + 3] == 0x66
        && data[pos + 4] == 0 && data[pos + 5] == 0
}

fn scan_segments(data: &[u8]) -> (r: Result<(usize, usize), DecodeError>)
    requires
        data@.len() >= 2,
    ensures
        match r {
            Ok((start, end)) => spec_scan_segments(data@, 2) == Ok::<(int, int), DecodeError>(
                (start as int, end as int),
            ),
            Err(e) => spec_scan_segments(data@, 2) == Err::<(int, int), DecodeError>(e),
        },
{
    let mut pos: usize = 2;
    loop
        invariant
            2 <= pos <= data@.len(),
            data.len() == data@.len(),
            spec_scan_segments(data@, pos as int) == spec_scan_segments(data@, 2),
        decreases data@.len() - pos,
    {
        if data.len() - pos < 4 || data[pos] != 0xff {
            return Err(DecodeError::UnsupportedContainer);
        }
        let marker = data[pos + 1];
        let length = get_u16(ByteOrder::BigEndian, data, pos + 2) as usize;
        if marker == MARKER_START_OF_SCAN || marker == MARKER_END_OF_IMAGE || length < 2 {
            return Err(DecodeError::UnsupportedContainer);
        }
        if length > data.len() - pos - 2 {
            return Err(DecodeError::Truncated);
        }
        if marker == MARKER_APP1 && length >= 8 && has_exif_id(data, pos + 4) {
            return Ok((pos + 10, pos + 2 + length));
        }
        pos = pos + 2 + length;
    }
}

/// Finds out what kind of file `data` holds and where its TIFF structure
/// lies.
pub fn locate(data: &[u8]) -> (r: Result<Located, DecodeError>)
    ensures
        match r {
            Ok(found) => spec_locate(data@) == Ok::<(ContainerKind, int, int), DecodeError>(
                (found.kind, found.start as int, found.end as int),
            ) && found.start <= found.end <= data@.len(),
            Err(e) => spec_locate(data@) == Err::<(ContainerKind, int, int), DecodeError>(e),
        },
{
    if has_tiff_signature(data) {
        Ok(Located { kind: ContainerKind::Tiff, start: 0, end: data.len() })
    } else if data.len() >= 2 && data[0] == 0xff && data[1] == 0xd8 {
        match scan_segments(data) {
            Ok((start, end)) => {
                proof {
                    lemma_scan_in_bounds(data@, 2);
                }
                Ok(Located { kind: ContainerKind::Jpeg, start, end })
            },
            Err(e) => Err(e),
        }
    } else {
        Err(DecodeError::UnsupportedContainer)
    }
}

/// What is known of a `Container`: its bytes, its kind, and the range of
/// bytes that its TIFF structure takes.
pub struct ContainerView {
    pub bytes: Seq<u8>,
    pub kind: ContainerKind,
    pub start: int,
    pub end: int,
}

impl ContainerView {
    /// The bytes of the TIFF structure.
    pub open spec fn tiff(self) -> Seq<u8> {
        self.bytes.subrange(self.start, self.end)
    }
}

/// A buffer together with what was found out about it. It owns its bytes,
/// and nothing about it changes once it is made.
pub struct Container {
    data: Vec<u8>,
    kind: ContainerKind,
    start: usize,
    end: usize,
}

impl View for Container {
    type V = ContainerView;

    closed spec fn view(&self) -> ContainerView {
        ContainerView {
            bytes: self.data@,
            kind: self.kind,
            start: self.start as int,
            end: self.end as int,
        }
    }
}

impl Container {
    #[verifier::type_invariant]
    spec fn in_range(self) -> bool {
        self.start <= self.end <= self.data@.len()
    }

    /// Recognises the buffer as a JPEG or a TIFF file and keeps it.
    pub fn sniff(data: Vec<u8>) -> (r: Result<Container, DecodeError>)
        ensures
            match r {
                Ok(c) => c@.bytes == data@ && spec_locate(data@) == Ok::<
                    (ContainerKind, int, int),
                    DecodeError,
                >((c@.kind, c@.start, c@.end)),
                Err(e) => spec_locate(data@) == Err::<(ContainerKind, int, int), DecodeError>(e),
            },
    {
        match locate(data.as_slice()) {
            Ok(found) => Ok(
                Container { data, kind: found.kind, start: found.start, end: found.end },
            ),
            Err(e) => Err(e),
        }
    }

    /// Keeps a buffer that is a TIFF structure from its first byte to its
    /// last, such as the payload of a metadata block that was taken out of
    /// some other kind of file. Nothing is checked here: decoding reports
    /// what is wrong with the header.
    pub fn raw(data: Vec<u8>) -> (c: Container)
        ensures
            c@.bytes == data@,
            c@.kind == ContainerKind::RawTiff,
            c@.start == 0,
            c@.end == data@.len(),
    {
        let end = data.len();
        Container { data, kind: ContainerKind::RawTiff, start: 0, end }
    }

    /// What the buffer was recognised as.
    pub fn kind(&self) -> (k: ContainerKind)
        ensures
            k == self@.kind,
    {
        self.kind
    }

    /// All bytes of the buffer.
    pub fn bytes(&self) -> (s: &[u8])
        ensures
            s@ == self@.bytes,
    {
        self.data.as_slice()
    }

    /// The bytes of the TIFF structure; every offset in it counts from the
    /// first of them.
    pub fn tiff(&self) -> (s: &[u8])
        ensures
            s@ == self@.tiff(),
            0 <= self@.start <= self@.end <= self@.bytes.len(),
    {
        proof {
            use_type_invariant(self);
        }
        slice_subrange(self.data.as_slice(), self.start, self.end)
    }

    /// Decodes every field of the TIFF structure, in directory order.
    pub fn decode(&self) -> (r: Result<Vec<Field>, DecodeError>)
        ensures
            match r {
                Ok(fields) => spec_decode_tiff(self@.tiff()) == Ok::<Seq<FieldView>, DecodeError>(
                    views(fields@),
                ),
                Err(e) => spec_decode_tiff(self@.tiff()) == Err::<Seq<FieldView>, DecodeError>(e),
            },
    {
        decode_tiff(self.tiff())
    }
}

} // verus!
