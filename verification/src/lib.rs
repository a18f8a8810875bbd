//! A verified decoder for EXIF metadata.
//!
//! The decoder takes the bytes of an image file, finds the TIFF structure
//! that carries the metadata (directly, or inside the APP1 segment of a
//! JPEG file), walks its directories and hands back the decoded fields in
//! directory order. Every executable function has a contract that relates
//! its result to a mathematical model of the format, and the modules state
//! and prove what holds of the decoder as a whole.
//!
//! - [`decode`] puts everything together and holds the theorems on whole
//!   structures; [`decode::decode`] is the way in for a file.
//! - [`container`] tells what kind of file a buffer holds and where its
//!   TIFF structure lies.
//! - [`header`] reads the eight bytes that open a TIFF structure.
//! - [`ifd`] reads one directory: its entries and the link to the next.
//! - [`value`] reads the typed value of an entry.
//! - [`walk`] follows the chain of directories and the pointers to
//!   sub-directories, to a bounded depth.
//! - [`encode`] is the model of how values are laid out, with the proof
//!   that what is laid out is what is read, in either byte order.
//! - [`layout`] is the model of a whole structure with one directory, with
//!   the proof that decoding it gives back the fields it holds.
//! - [`format`] and [`text`] write the value of a field, with its unit.
//! - [`report`] writes the line that reports a field under the name of its
//!   tag.
//! - [`bytes`] reads integers in either byte order.

pub mod bytes;
pub mod container;
pub mod decode;
pub mod encode;
pub mod error;
pub mod format;
pub mod header;
pub mod ifd;
pub mod layout;
pub mod report;
pub mod text;
pub mod value;
pub mod walk;

pub use container::{Container, ContainerKind};
pub use error::DecodeError;
pub use format::format_field;
pub use report::describe;
pub use value::{Rational, SignedRational, Value};
pub use walk::{Field, Group};
