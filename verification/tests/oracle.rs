use exif::experimental::Writer;
use exif::{Context, In, Tag};
use exif_decoder::container::locate;
use exif_decoder::decode::{decode, decode_tiff};
use exif_decoder::value::Value;
use exif_decoder::walk::{Field, Group};
use std::io::Cursor;

fn same(ours: &Value, theirs: &exif::Value) -> bool {
    match (ours, theirs) {
        (Value::Byte(a), exif::Value::Byte(b)) => a == b,
        (Value::Ascii(a), exif::Value::Ascii(b)) => match b.first() {
            Some(text) => text == a,
            None => a.is_empty(),
        },
        (Value::Short(a), exif::Value::Short(b)) => a == b,
        (Value::Long(a), exif::Value::Long(b)) => a == b,
        (Value::Rational(a), exif::Value::Rational(b)) => {
            a.len() == b.len()
                && a.iter().zip(b).all(|(x, y)| x.numerator == y.num && x.denominator == y.denom)
        }
        (Value::SignedByte(a), exif::Value::SByte(b)) => a == b,
        (Value::Undefined(a), exif::Value::Undefined(b, _)) => a == b,
        (Value::SignedShort(a), exif::Value::SShort(b)) => a == b,
        (Value::SignedLong(a), exif::Value::SLong(b)) => a == b,
        (Value::SignedRational(a), exif::Value::SRational(b)) => {
            a.len() == b.len()
                && a.iter().zip(b).all(|(x, y)| x.numerator == y.num && x.denominator == y.denom)
        }
        (Value::Float32(a), exif::Value::Float(b)) => {
            a.len() == b.len() && a.iter().zip(b).all(|(x, y)| *x == y.to_bits())
        }
        (Value::Float64(a), exif::Value::Double(b)) => {
            a.len() == b.len() && a.iter().zip(b).all(|(x, y)| *x == y.to_bits())
        }
        _ => false,
    }
}

fn context_of(group: Group) -> Context {
    match group {
        Group::Tiff => Context::Tiff,
        Group::Exif => Context::Exif,
        Group::Gps => Context::Gps,
    }
}

fn without_pointers(fields: Vec<Field>) -> Vec<Field> {
    fields.into_iter().filter(|f| f.tag != 0x8769 && f.tag != 0x8825).collect()
}

fn assert_agree(tiff: &[u8]) -> usize {
    let (theirs, _) = exif::parse_exif(tiff).unwrap();
    let ours = without_pointers(decode_tiff(tiff).unwrap());
    assert_eq!(ours.len(), theirs.len());
    for (a, b) in ours.iter().zip(&theirs) {
        assert_eq!(a.tag, b.tag.number());
        assert_eq!(context_of(a.group), b.tag.context());
        assert!(same(&a.value, &b.value), "{:?} against {:?}", a, b);
    }
    ours.len()
}

fn sample_fields() -> Vec<exif::Field> {
    let f = |tag: Tag, ifd_num: In, value: exif::Value| exif::Field { tag, ifd_num, value };
    vec![
        f(Tag::Make, In::PRIMARY, exif::Value::Ascii(vec![b"Verified Optics".to_vec()])),
        f(Tag::Orientation, In::PRIMARY, exif::Value::Short(vec![6])),
        f(Tag::XResolution, In::PRIMARY, exif::Value::Rational(vec![(72, 1).into()])),
        f(Tag::ImageWidth, In::PRIMARY, exif::Value::Long(vec![4000])),
        f(Tag::ExposureTime, In::PRIMARY, exif::Value::Rational(vec![(1, 3).into()])),
        f(Tag::ExifVersion, In::PRIMARY, exif::Value::Undefined(b"0231".to_vec(), 0)),
        f(
            Tag::ExposureBiasValue,
            In::PRIMARY,
            exif::Value::SRational(vec![(-2, 3).into()]),
        ),
        f(Tag::ISOSpeed, In::PRIMARY, exif::Value::Long(vec![0xffff_ffff])),
        f(Tag::GPSLatitudeRef, In::PRIMARY, exif::Value::Ascii(vec![b"N".to_vec()])),
        f(
            Tag::GPSLatitude,
            In::PRIMARY,
            exif::Value::Rational(vec![(35, 1).into(), (40, 1).into(), (3012, 100).into()]),
        ),
        f(Tag(Context::Tiff, 0xc000), In::PRIMARY, exif::Value::SByte(vec![-1, 0, 1, -128, 127])),
        f(Tag(Context::Tiff, 0xc001), In::PRIMARY, exif::Value::SShort(vec![-32768, 32767, -2])),
        f(Tag(Context::Tiff, 0xc002), In::PRIMARY, exif::Value::SLong(vec![i32::MIN, -1])),
        f(Tag(Context::Tiff, 0xc003), In::PRIMARY, exif::Value::Float(vec![1.5, -0.0])),
        f(Tag(Context::Tiff, 0xc004), In::PRIMARY, exif::Value::Double(vec![std::f64::consts::E])),
        f(Tag(Context::Tiff, 0xc005), In::PRIMARY, exif::Value::Byte(vec![1, 2, 3, 4, 5, 6])),
        f(Tag(Context::Tiff, 0xc006), In::PRIMARY, exif::Value::Short(vec![1, 2, 3])),
        f(Tag::Compression, In::THUMBNAIL, exif::Value::Short(vec![6])),
    ]
}

fn written(little_endian: bool) -> Vec<u8> {
    let fields = sample_fields();
    let mut writer = Writer::new();
    for f in &fields {
        writer.push_field(f);
    }
    let mut out = Cursor::new(Vec::new());
    writer.write(&mut out, little_endian).unwrap();
    out.into_inner()
}

#[test]
fn reads_what_the_exif_writer_wrote() {
    for little_endian in [true, false] {
        let tiff = written(little_endian);
        assert_eq!(assert_agree(&tiff), sample_fields().len());
    }
}

#[test]
fn finds_every_value_that_was_written() {
    let ours = decode_tiff(&written(true)).unwrap();
    for f in sample_fields() {
        let found = ours
            .iter()
            .find(|g| g.tag == f.tag.number() && context_of(g.group) == f.tag.context())
            .unwrap();
        assert!(same(&found.value, &f.value), "{:?} against {:?}", found, f);
    }
    let pointers: Vec<u16> =
        ours.iter().map(|f| f.tag).filter(|t| *t == 0x8769 || *t == 0x8825).collect();
    assert_eq!(pointers, vec![0x8769, 0x8825]);
}

#[test]
fn both_byte_orders_of_the_writer_decode_alike() {
    let strip = |fields: Vec<Field>| -> Vec<(Group, u16, u16, Value)> {
        without_pointers(fields)
            .into_iter()
            .map(|f| (f.group, f.tag, f.data_type, f.value))
            .collect()
    };
    let little = strip(decode_tiff(&written(true)).unwrap());
    let big = strip(decode_tiff(&written(false)).unwrap());
    assert_eq!(little, big);
}

#[test]
fn finds_the_same_structure_in_a_jpeg_file() {
    let tiff = written(false);
    let mut data: Vec<u8> = vec![0xff, 0xd8, 0xff, 0xe0, 0x00, 0x04, 0x00, 0x00, 0xff, 0xe1];
    data.extend_from_slice(&((tiff.len() + 8) as u16).to_be_bytes());
    data.extend_from_slice(b"Exif\0\0");
    data.extend_from_slice(&tiff);
    data.extend_from_slice(&[0xff, 0xd9]);
    let theirs = exif::get_exif_attr_from_jpeg(&mut &data[..]).unwrap();
    let found = locate(&data).unwrap();
    assert_eq!(&data[found.start..found.end], &theirs[..]);
    assert_eq!(decode(&data), decode_tiff(&tiff));
    let read = exif::Reader::new().read_from_container(&mut Cursor::new(&data)).unwrap();
    assert_eq!(read.fields().count(), without_pointers(decode(&data).unwrap()).len());
}

#[test]
fn every_cut_of_a_structure_fails_or_agrees() {
    let tiff = written(true);
    for cut in 0..tiff.len() {
        let part = &tiff[..cut];
        match (decode_tiff(part), exif::parse_exif(part)) {
            (Ok(ours), Ok((theirs, _))) => {
                assert_eq!(without_pointers(ours).len(), theirs.len());
            }
            (Err(_), Err(_)) => {}
            (ours, theirs) => panic!("cut at {}: {:?} against {:?}", cut, ours, theirs.map(|t| t.0.len())),
        }
    }
}
