//! The line that reports a field to a reader: the name of its tag, a bar,
//! and its value with its unit.

use crate::format::{display_text, format_field};
use crate::walk::{views, Field, Group};
use vstd::prelude::*;
use vstd::string::{StrSliceExecFns, StringExecFns};

verus! {

/// The width to which the name of a tag is filled up with spaces.
pub const NAME_WIDTH: usize = 10;

/// The name that the `exif` crate has for a tag: what `Display` of
/// `exif::Tag` writes for the tag with the given number in the context of
/// the given group. Nothing more is known of it here.
pub uninterp spec fn tag_name(group: Group, tag: u16) -> Seq<char>;

/// `Display` of `exif::Tag`, reached through `to_string`. The tag is made
/// from the context that stands for the group and from the number. The
/// claim is that the text depends on these two alone: the crate looks the
/// tag up in a table that is fixed when it is built, and writes the name it
/// finds there, or the context and the number where it finds none.
#[verifier::external_body]
fn name_from_exif(group: Group, tag: u16) -> (name: String)
    ensures
        name@ == tag_name(group, tag),
{
    let context = match group {
        Group::Tiff => exif::Context::Tiff,
        Group::Exif => exif::Context::Exif,
        Group::Gps => exif::Context::Gps,
    };
    exif::Tag(context, tag).to_string()
}

/// A run of spaces.
pub open spec fn spaces(n: nat) -> Seq<char> {
    Seq::new(n, |i: int| ' ')
}

/// A text filled up with spaces at its end to the given width; a text that
/// is as wide or wider stays as it is.
pub open spec fn filled(s: Seq<char>, width: nat) -> Seq<char> {
    if s.len() >= width {
        s
    } else {
        s + spaces((width - s.len()) as nat)
    }
}

/// The line for a name and a text: the name, filled up to `NAME_WIDTH`,
/// then a bar between two spaces, then the text.
pub open spec fn line_text(name: Seq<char>, text: Seq<char>) -> Seq<char> {
    filled(name, NAME_WIDTH as nat) + seq![' ', '|', ' '] + text
}

/// Writes the line for a name and a text.
pub fn report_line(name: &str, text: &str) -> (line: String)
    ensures
        line@ == line_text(name@, text@),
{
    let mut line = String::from_str(name);
    let mut width = name.unicode_len();
    assert(line@ =~= name@ + spaces(0));
    while width < NAME_WIDTH
        invariant
            name@.len() <= width,
            width <= NAME_WIDTH || width == name@.len(),
            line@ == name@ + spaces((width - name@.len()) as nat),
        decreases NAME_WIDTH - width,
    {
        line.push(' ');
        width += 1;
        assert(line@ =~= name@ + spaces((width - name@.len()) as nat));
    }
    assert(line@ =~= filled(name@, NAME_WIDTH as nat));
    line.push(' ');
    line.push('|');
    line.push(' ');
    line.append(text);
    assert(line@ =~= line_text(name@, text@));
    line
}

/// The name of the tag of a field.
pub fn name_of(field: &Field) -> (name: String)
    ensures
        name@ == tag_name(field@.group, field@.tag),
{
    name_from_exif(field.group, field.tag)
}

/// Writes the line that reports a field: the name of its tag, and its
/// value with its unit. `all` is the set of fields that `field` was decoded
/// with.
pub fn describe(field: &Field, all: &Vec<Field>) -> (line: String)
    ensures
        line@ == line_text(tag_name(field@.group, field@.tag), display_text(field@, views(all@))),
{
    let name = name_of(field);
    let text = format_field(field, all);
    report_line(name.as_str(), text.as_str())
}

} // verus!
