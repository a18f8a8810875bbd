//! Turning a decoded field into a line of text for a reader.

use crate::text::{
    decimal, hex, joined, push_decimal, push_hex, push_signed, signed_decimal, Style,
};
use crate::value::{Rational, SignedRational, Value, ValueView};
use crate::walk::{views, Field, FieldView, Group};
use vstd::prelude::*;
use vstd::string::StringExecFns;

verus! {

/// ExposureTime of the EXIF group, in seconds.
pub const TAG_EXPOSURE_TIME: u16 = 0x829a;

/// FocalLength of the EXIF group, in millimetres.
pub const TAG_FOCAL_LENGTH: u16 = 0x920a;

/// FocalLengthIn35mmFilm of the EXIF group, in millimetres.
pub const TAG_FOCAL_LENGTH_35MM: u16 = 0xa405;

/// SubjectDistance of the EXIF group, in metres.
pub const TAG_SUBJECT_DISTANCE: u16 = 0x9206;

/// XResolution of the TIFF group, in pixels per ResolutionUnit.
pub const TAG_X_RESOLUTION: u16 = 0x011a;

/// YResolution of the TIFF group, in pixels per ResolutionUnit.
pub const TAG_Y_RESOLUTION: u16 = 0x011b;

/// ResolutionUnit of the TIFF group: 2 for inches, 3 for centimetres.
pub const TAG_RESOLUTION_UNIT: u16 = 0x0128;

/// GPSLatitudeRef of the GPS group: `N` or `S`.
pub const TAG_GPS_LATITUDE_REF: u16 = 0x0001;

/// GPSLatitude of the GPS group, in degrees, minutes and seconds.
pub const TAG_GPS_LATITUDE: u16 = 0x0002;

/// GPSLongitudeRef of the GPS group: `E` or `W`.
pub const TAG_GPS_LONGITUDE_REF: u16 = 0x0003;

/// GPSLongitude of the GPS group, in degrees, minutes and seconds.
pub const TAG_GPS_LONGITUDE: u16 = 0x0004;

/// GPSAltitude of the GPS group, in metres.
pub const TAG_GPS_ALTITUDE: u16 = 0x0006;

/// An element of a value that can be written as text.
pub trait Shown {
    /// The element as text in the given style.
    spec fn text(&self, style: Style) -> Seq<char>;

    /// Appends the element to `out`.
    fn show(&self, style: Style, out: &mut String)
        ensures
            final(out)@ == old(out)@ + self.text(style),
    ;
}

impl Shown for u8 {
    open spec fn text(&self, style: Style) -> Seq<char> {
        match style {
            Style::Decimal => decimal(*self as nat),
            Style::Hex => hex(*self as nat, 2),
        }
    }

    fn show(&self, style: Style, out: &mut String) {
        match style {
            Style::Decimal => push_decimal(out, *self as u64),
            Style::Hex => push_hex(out, *self as u64, 2),
        }
    }
}

impl Shown for u16 {
    open spec fn text(&self, style: Style) -> Seq<char> {
        match style {
            Style::Decimal => decimal(*self as nat),
            Style::Hex => hex(*self as nat, 4),
        }
    }

    fn show(&self, style: Style, out: &mut String) {
        match style {
            Style::Decimal => push_decimal(out, *self as u64),
            Style::Hex => push_hex(out, *self as u64, 4),
        }
    }
}

impl Shown for u32 {
    open spec fn text(&self, style: Style) -> Seq<char> {
        match style {
            Style::Decimal => decimal(*self as nat),
            Style::Hex => hex(*self as nat, 8),
        }
    }

    fn show(&self, style: Style, out: &mut String) {
        match style {
            Style::Decimal => push_decimal(out, *self as u64),
            Style::Hex => push_hex(out, *self as u64, 8),
        }
    }
}

impl Shown for u64 {
    open spec fn text(&self, style: Style) -> Seq<char> {
        match style {
            Style::Decimal => decimal(*self as nat),
            Style::Hex => hex(*self as nat, 16),
        }
    }

    fn show(&self, style: Style, out: &mut String) {
        match style {
            Style::Decimal => push_decimal(out, *self),
            Style::Hex => push_hex(out, *self, 16),
        }
    }
}

impl Shown for i8 {
    /// Signed numbers are written in base ten in either style.
    open spec fn text(&self, style: Style) -> Seq<char> {
        signed_decimal(*self as int)
    }

    fn show(&self, _style: Style, out: &mut String) {
        push_signed(out, *self as i32);
    }
}

impl Shown for i16 {
    /// Signed numbers are written in base ten in either style.
    open spec fn text(&self, style: Style) -> Seq<char> {
        signed_decimal(*self as int)
    }

    fn show(&self, _style: Style, out: &mut String) {
        push_signed(out, *self as i32);
    }
}

impl Shown for i32 {
    /// Signed numbers are written in base ten in either style.
    open spec fn text(&self, style: Style) -> Seq<char> {
        signed_decimal(*self as int)
    }

    fn show(&self, _style: Style, out: &mut String) {
        push_signed(out, *self);
    }
}

impl Shown for Rational {
    /// Numerator, a slash, denominator: nothing is divided.
    open spec fn text(&self, style: Style) -> Seq<char> {
        self.numerator.text(style) + seq!['/'] + self.denominator.text(style)
    }

    fn show(&self, style: Style, out: &mut String) {
        self.numerator.show(style, out);
        out.push('/');
        self.denominator.show(style, out);
        assert(final(out)@ =~= old(out)@ + self.text(style));
    }
}

impl Shown for SignedRational {
    /// Numerator, a slash, denominator: nothing is divided.
    open spec fn text(&self, style: Style) -> Seq<char> {
        self.numerator.text(style) + seq!['/'] + self.denominator.text(style)
    }

    fn show(&self, style: Style, out: &mut String) {
        self.numerator.show(style, out);
        out.push('/');
        self.denominator.show(style, out);
        assert(final(out)@ =~= old(out)@ + self.text(style));
    }
}

/// The texts of the elements, in order.
pub open spec fn texts<T: Shown>(items: Seq<T>, style: Style) -> Seq<Seq<char>> {
    Seq::new(items.len(), |i: int| items[i].text(style))
}

/// What stands between two elements: a comma and a space, or nothing.
pub open spec fn separator(spaced: bool) -> Seq<char> {
    if spaced {
        seq![',', ' ']
    } else {
        Seq::empty()
    }
}

/// The elements of a list as one text.
pub open spec fn list_text<T: Shown>(items: Seq<T>, style: Style, spaced: bool) -> Seq<char> {
    joined(texts(items, style), separator(spaced))
}

/// Each byte of a text as the character with that code.
pub open spec fn chars_of(bytes: Seq<u8>) -> Seq<char> {
    Seq::new(bytes.len(), |i: int| bytes[i] as char)
}

/// A value as text.
///
/// Integers are written in base ten and fractions as numerator, slash and
/// denominator, the elements separated by a comma and a space. Text is
/// written as it is, each byte as the character with that code. Bytes
/// without a prescribed meaning are written as one run of hexadecimal
/// digits, and floating-point numbers as the hexadecimal digits of their
/// bit patterns. The value of a field that could not be decoded is a
/// question mark.
pub open spec fn value_text(v: ValueView) -> Seq<char> {
    match v {
        ValueView::Byte(xs) => list_text(xs, Style::Decimal, true),
        ValueView::Ascii(xs) => chars_of(xs),
        ValueView::Short(xs) => list_text(xs, Style::Decimal, true),
        ValueView::Long(xs) => list_text(xs, Style::Decimal, true),
        ValueView::Rational(xs) => list_text(xs, Style::Decimal, true),
        ValueView::SignedByte(xs) => list_text(xs, Style::Decimal, true),
        ValueView::Undefined(xs) => list_text(xs, Style::Hex, false),
        ValueView::SignedShort(xs) => list_text(xs, Style::Decimal, true),
        ValueView::SignedLong(xs) => list_text(xs, Style::Decimal, true),
        ValueView::SignedRational(xs) => list_text(xs, Style::Decimal, true),
        ValueView::Float32(xs) => list_text(xs, Style::Hex, true),
        ValueView::Float64(xs) => list_text(xs, Style::Hex, true),
        ValueView::Unsupported => seq!['?'],
    }
}

/// The first field from index `from` on that has the given tag in the
/// given group.
pub open spec fn first_with_tag(all: Seq<FieldView>, group: Group, tag: u16, from: int) -> Option<
    FieldView,
>
    decreases all.len() - from,
{
    if from < 0 || from >= all.len() {
        None
    } else if all[from].group == group && all[from].tag == tag {
        Some(all[from])
    } else {
        first_with_tag(all, group, tag, from + 1)
    }
}

/// The unit of a resolution, which the ResolutionUnit field names: inches
/// when it holds 2 or is missing, centimetres when it holds 3, and none
/// when it holds anything else.
pub open spec fn resolution_unit(unit: Option<FieldView>) -> Seq<char> {
    match unit {
        None => " pixels per inch"@,
        Some(f) => match f.value {
            ValueView::Short(xs) => if xs.len() == 1 && xs[0] == 2 {
                " pixels per inch"@
            } else if xs.len() == 1 && xs[0] == 3 {
                " pixels per cm"@
            } else {
                Seq::empty()
            },
            _ => Seq::empty(),
        },
    }
}

/// The hemisphere of a coordinate, which its reference field names: a
/// space and the text of that field, or nothing when it is missing or
/// holds no text.
pub open spec fn hemisphere(reference: Option<FieldView>) -> Seq<char> {
    match reference {
        Some(f) => match f.value {
            ValueView::Ascii(xs) => seq![' '] + chars_of(xs),
            _ => Seq::empty(),
        },
        None => Seq::empty(),
    }
}

/// The unit that follows the value of the field with the given tag in the
/// given group. Where it depends on another field, that field is looked up
/// among `all`, in the same group.
pub open spec fn unit_text(group: Group, tag: u16, all: Seq<FieldView>) -> Seq<char> {
    match group {
        Group::Tiff => if tag == TAG_X_RESOLUTION || tag == TAG_Y_RESOLUTION {
            resolution_unit(first_with_tag(all, Group::Tiff, TAG_RESOLUTION_UNIT, 0))
        } else {
            Seq::empty()
        },
        Group::Exif => if tag == TAG_EXPOSURE_TIME {
            " s"@
        } else if tag == TAG_FOCAL_LENGTH || tag == TAG_FOCAL_LENGTH_35MM {
            " mm"@
        } else if tag == TAG_SUBJECT_DISTANCE {
            " m"@
        } else {
            Seq::empty()
        },
        Group::Gps => if tag == TAG_GPS_ALTITUDE {
            " m"@
        } else if tag == TAG_GPS_LATITUDE {
            " deg"@ + hemisphere(first_with_tag(all, Group::Gps, TAG_GPS_LATITUDE_REF, 0))
        } else if tag == TAG_GPS_LONGITUDE {
            " deg"@ + hemisphere(first_with_tag(all, Group::Gps, TAG_GPS_LONGITUDE_REF, 0))
        } else {
            Seq::empty()
        },
    }
}

/// The line of text for a field: its value, then its unit.
pub open spec fn display_text(field: FieldView, all: Seq<FieldView>) -> Seq<char> {
    value_text(field.value) + unit_text(field.group, field.tag, all)
}

proof fn lemma_joined_push(parts: Seq<Seq<char>>, part: Seq<char>, sep: Seq<char>)
    ensures
        joined(parts.push(part), sep) == if parts.len() == 0 {
            part
        } else {
            joined(parts, sep) + sep + part
        },
{
    let all = parts.push(part);
    assert(all.drop_last() =~= parts);
    assert(all.last() == part);
    if parts.len() == 0 {
        assert(all[0] == part);
    }
}

fn push_separator(out: &mut String, spaced: bool)
    ensures
        final(out)@ == old(out)@ + separator(spaced),
{
    if spaced {
        out.push(',');
        out.push(' ');
    }
    assert(final(out)@ =~= old(out)@ + separator(spaced));
}

/// Appends the elements of a list.
pub fn push_list<T: Shown>(out: &mut String, items: &Vec<T>, style: Style, spaced: bool)
    ensures
        final(out)@ == old(out)@ + list_text(items@, style, spaced),
{
    let ghost start = out@;
    let ghost sep = separator(spaced);
    let mut i: usize = 0;
    assert(texts(items@.take(0), style) =~= Seq::<Seq<char>>::empty());
    assert(out@ =~= start + joined(texts(items@.take(0), style), sep));
    while i < items.len()
        invariant
            i <= items@.len(),
            sep == separator(spaced),
            out@ == start + joined(texts(items@.take(i as int), style), sep),
        decreases items@.len() - i,
    {
        let ghost done = texts(items@.take(i as int), style);
        let ghost part = items@[i as int].text(style);
        if i > 0 {
            push_separator(out, spaced);
        }
        items[i].show(style, out);
        proof {
            lemma_joined_push(done, part, sep);
            assert(texts(items@.take(i + 1), style) =~= done.push(part));
            if i == 0 {
                assert(out@ =~= start + part);
            } else {
                assert(out@ =~= start + (joined(done, sep) + sep + part));
            }
        }
        i += 1;
    }
    assert(items@.take(i as int) =~= items@);
}

/// Appends a text, each byte as the character with that code.
pub fn push_chars(out: &mut String, bytes: &Vec<u8>)
    ensures
        final(out)@ == old(out)@ + chars_of(bytes@),
{
    let ghost start = out@;
    let mut i: usize = 0;
    assert(out@ =~= start + chars_of(bytes@.take(0)));
    while i < bytes.len()
        invariant
            i <= bytes@.len(),
            out@ == start + chars_of(bytes@.take(i as int)),
        decreases bytes@.len() - i,
    {
        out.push(bytes[i] as char);
        i += 1;
        assert(out@ =~= start + chars_of(bytes@.take(i as int)));
    }
    assert(bytes@.take(i as int) =~= bytes@);
}

/// Appends a value as text.
pub fn push_value(out: &mut String, value: &Value)
    ensures
        final(out)@ == old(out)@ + value_text(value@),
{
    match value {
        Value::Byte(xs) => push_list(out, xs, Style::Decimal, true),
        Value::Ascii(xs) => push_chars(out, xs),
        Value::Short(xs) => push_list(out, xs, Style::Decimal, true),
        Value::Long(xs) => push_list(out, xs, Style::Decimal, true),
        Value::Rational(xs) => push_list(out, xs, Style::Decimal, true),
        Value::SignedByte(xs) => push_list(out, xs, Style::Decimal, true),
        Value::Undefined(xs) => push_list(out, xs, Style::Hex, false),
        Value::SignedShort(xs) => push_list(out, xs, Style::Decimal, true),
        Value::SignedLong(xs) => push_list(out, xs, Style::Decimal, true),
        Value::SignedRational(xs) => push_list(out, xs, Style::Decimal, true),
        Value::Float32(xs) => push_list(out, xs, Style::Hex, true),
        Value::Float64(xs) => push_list(out, xs, Style::Hex, true),
        Value::Unsupported => {
            out.push('?');
            assert(final(out)@ =~= old(out)@ + seq!['?']);
        },
    }
}

/// Finds the first field that has the given tag in the given group.
pub fn find_tag(all: &Vec<Field>, group: Group, tag: u16) -> (r: Option<usize>)
    ensures
        match r {
            Some(i) => i < all@.len() && first_with_tag(views(all@), group, tag, 0) == Some(
                all@[i as int]@,
            ),
            None => first_with_tag(views(all@), group, tag, 0) == None::<FieldView>,
        },
{
    let mut i: usize = 0;
    while i < all.len()
        invariant
            i <= all@.len(),
            first_with_tag(views(all@), group, tag, 0) == first_with_tag(
                views(all@),
                group,
                tag,
                i as int,
            ),
        decreases all@.len() - i,
    {
        if all[i].group == group && all[i].tag == tag {
            return Some(i);
        }
        i += 1;
    }
    None
}

fn push_resolution_unit(out: &mut String, all: &Vec<Field>)
    ensures
        final(out)@ == old(out)@ + resolution_unit(
            first_with_tag(views(all@), Group::Tiff, TAG_RESOLUTION_UNIT, 0),
        ),
{
    match find_tag(all, Group::Tiff, TAG_RESOLUTION_UNIT) {
        None => out.append(" pixels per inch"),
        Some(i) => match &all[i].value {
            Value::Short(xs) => {
                if xs.len() == 1 && xs[0] == 2 {
                    out.append(" pixels per inch");
                } else if xs.len() == 1 && xs[0] == 3 {
                    out.append(" pixels per cm");
                }
            },
            _ => {},
        },
    }
    assert(final(out)@ =~= old(out)@ + resolution_unit(
        first_with_tag(views(all@), Group::Tiff, TAG_RESOLUTION_UNIT, 0),
    ));
}

fn push_hemisphere(out: &mut String, all: &Vec<Field>, reference_tag: u16)
    ensures
        final(out)@ == old(out)@ + hemisphere(
            first_with_tag(views(all@), Group::Gps, reference_tag, 0),
        ),
{
    match find_tag(all, Group::Gps, reference_tag) {
        None => {},
        Some(i) => match &all[i].value {
            Value::Ascii(xs) => {
                out.push(' ');
                push_chars(out, xs);
            },
            _ => {},
        },
    }
    assert(final(out)@ =~= old(out)@ + hemisphere(
        first_with_tag(views(all@), Group::Gps, reference_tag, 0),
    ));
}

/// Appends the unit of the field with the given tag in the given group.
pub fn push_unit(out: &mut String, group: Group, tag: u16, all: &Vec<Field>)
    ensures
        final(out)@ == old(out)@ + unit_text(group, tag, views(all@)),
{
    match group {
        Group::Tiff => {
            if tag == TAG_X_RESOLUTION || tag == TAG_Y_RESOLUTION {
                push_resolution_unit(out, all);
            }
        },
        Group::Exif => {
            if tag == TAG_EXPOSURE_TIME {
                out.append(" s");
            } else if tag == TAG_FOCAL_LENGTH || tag == TAG_FOCAL_LENGTH_35MM {
                out.append(" mm");
            } else if tag == TAG_SUBJECT_DISTANCE {
                out.append(" m");
            }
        },
        Group::Gps => {
            if tag == TAG_GPS_ALTITUDE {
                out.append(" m");
            } else if tag == TAG_GPS_LATITUDE {
                out.append(" deg");
                push_hemisphere(out, all, TAG_GPS_LATITUDE_REF);
            } else if tag == TAG_GPS_LONGITUDE {
                out.append(" deg");
                push_hemisphere(out, all, TAG_GPS_LONGITUDE_REF);
            }
        },
    }
    assert(final(out)@ =~= old(out)@ + unit_text(group, tag, views(all@)));
}

/// Writes the line of text for a field: its value and, where its tag has
/// one, its unit. `all` is the set of fields that `field` was decoded
/// with; a unit that another field names is looked up there. Nothing is
/// changed: the text is new.
pub fn format_field(field: &Field, all: &Vec<Field>) -> (line: String)
    ensures
        line@ == display_text(field@, views(all@)),
{
    let mut line = String::new();
    push_value(&mut line, &field.value);
    push_unit(&mut line, field.group, field.tag, all);
    assert(line@ =~= display_text(field@, views(all@)));
    line
}

} // verus!
