use exif_decoder::decode::decode_tiff;
use exif_decoder::value::{Rational, SignedRational, Value};
use exif_decoder::walk::{Field, Group};

fn word16(big: bool, v: u16) -> [u8; 2] {
    if big {
        v.to_be_bytes()
    } else {
        v.to_le_bytes()
    }
}

fn word32(big: bool, v: u32) -> [u8; 4] {
    if big {
        v.to_be_bytes()
    } else {
        v.to_le_bytes()
    }
}

fn word64(big: bool, v: u64) -> [u8; 8] {
    if big {
        v.to_be_bytes()
    } else {
        v.to_le_bytes()
    }
}

/// The type, the count and the bytes that a value is stored with.
fn stored(big: bool, value: &Value) -> (u16, u32, Vec<u8>) {
    let mut b: Vec<u8> = Vec::new();
    let (data_type, count) = match value {
        Value::Byte(xs) => {
            b.extend_from_slice(xs);
            (1, xs.len())
        }
        Value::Ascii(xs) => {
            b.extend_from_slice(xs);
            b.push(0);
            (2, xs.len() + 1)
        }
        Value::Short(xs) => {
            xs.iter().for_each(|x| b.extend_from_slice(&word16(big, *x)));
            (3, xs.len())
        }
        Value::Long(xs) => {
            xs.iter().for_each(|x| b.extend_from_slice(&word32(big, *x)));
            (4, xs.len())
        }
        Value::Rational(xs) => {
            for x in xs {
                b.extend_from_slice(&word32(big, x.numerator));
                b.extend_from_slice(&word32(big, x.denominator));
            }
            (5, xs.len())
        }
        Value::SignedByte(xs) => {
            xs.iter().for_each(|x| b.push(*x as u8));
            (6, xs.len())
        }
        Value::Undefined(xs) => {
            b.extend_from_slice(xs);
            (7, xs.len())
        }
        Value::SignedShort(xs) => {
            xs.iter().for_each(|x| b.extend_from_slice(&word16(big, *x as u16)));
            (8, xs.len())
        }
        Value::SignedLong(xs) => {
            xs.iter().for_each(|x| b.extend_from_slice(&word32(big, *x as u32)));
            (9, xs.len())
        }
        Value::SignedRational(xs) => {
            for x in xs {
                b.extend_from_slice(&word32(big, x.numerator as u32));
                b.extend_from_slice(&word32(big, x.denominator as u32));
            }
            (10, xs.len())
        }
        Value::Float32(xs) => {
            xs.iter().for_each(|x| b.extend_from_slice(&word32(big, *x)));
            (11, xs.len())
        }
        Value::Float64(xs) => {
            xs.iter().for_each(|x| b.extend_from_slice(&word64(big, *x)));
            (12, xs.len())
        }
        Value::Unsupported => panic!("nothing to store"),
    };
    (data_type, count as u32, b)
}

/// A structure with one directory that holds the given tags and values:
/// header, count, entries, a link of 0, then the values that do not fit
/// into their entries.
fn lay_out(big: bool, fields: &[(u16, Value)]) -> Vec<u8> {
    let mut t: Vec<u8> = if big { b"MM".to_vec() } else { b"II".to_vec() };
    t.extend_from_slice(&word16(big, 42));
    t.extend_from_slice(&word32(big, 8));
    t.extend_from_slice(&word16(big, fields.len() as u16));
    let mut data: Vec<u8> = Vec::new();
    let data_start = 14 + 12 * fields.len();
    for (tag, value) in fields {
        let (data_type, count, bytes) = stored(big, value);
        t.extend_from_slice(&word16(big, *tag));
        t.extend_from_slice(&word16(big, data_type));
        t.extend_from_slice(&word32(big, count));
        if bytes.len() <= 4 {
            let mut slot = bytes.clone();
            slot.resize(4, 0);
            t.extend_from_slice(&slot);
        } else {
            t.extend_from_slice(&word32(big, (data_start + data.len()) as u32));
            data.extend_from_slice(&bytes);
        }
    }
    t.extend_from_slice(&word32(big, 0));
    assert_eq!(t.len(), data_start);
    t.extend_from_slice(&data);
    t
}

fn expected(fields: &[(u16, Value)]) -> Vec<Field> {
    fields
        .iter()
        .map(|(tag, value)| Field {
            group: Group::Tiff,
            tag: *tag,
            data_type: stored(false, value).0,
            value: value.clone(),
        })
        .collect()
}

fn every_kind() -> Vec<(u16, Value)> {
    let r = |numerator, denominator| Rational { numerator, denominator };
    let s = |numerator, denominator| SignedRational { numerator, denominator };
    vec![
        (0x0001, Value::Byte(vec![7])),
        (0x0002, Value::Byte(vec![1, 2, 3, 4])),
        (0x0003, Value::Byte(vec![1, 2, 3, 4, 5])),
        (0x0004, Value::Ascii(vec![])),
        (0x0005, Value::Ascii(b"abc".to_vec())),
        (0x0006, Value::Ascii(b"abcd".to_vec())),
        (0x0007, Value::Ascii(b"a longer text, with spaces".to_vec())),
        (0x0008, Value::Short(vec![0xfffe])),
        (0x0009, Value::Short(vec![1, 2])),
        (0x000a, Value::Short(vec![1, 2, 3])),
        (0x000b, Value::Long(vec![0x8000_0001])),
        (0x000c, Value::Long(vec![1, 0xffff_ffff])),
        (0x000d, Value::Rational(vec![r(1, 3)])),
        (0x000e, Value::Rational(vec![r(0, 0), r(0xffff_ffff, 1), r(1, 0xffff_ffff)])),
        (0x000f, Value::SignedByte(vec![-128, -1, 0, 127])),
        (0x0010, Value::SignedByte(vec![-3, 3, -3, 3, -3])),
        (0x0011, Value::Undefined(vec![0, 0, 0])),
        (0x0012, Value::Undefined(vec![0xff; 9])),
        (0x0013, Value::SignedShort(vec![-32768, 32767])),
        (0x0014, Value::SignedShort(vec![-1, 0, 1])),
        (0x0015, Value::SignedLong(vec![i32::MIN])),
        (0x0016, Value::SignedLong(vec![i32::MAX, -1, 0])),
        (0x0017, Value::SignedRational(vec![s(-1, 3), s(i32::MIN, i32::MAX)])),
        (0x0018, Value::Float32(vec![0.1f32.to_bits()])),
        (0x0019, Value::Float32(vec![f32::NAN.to_bits(), f32::INFINITY.to_bits()])),
        (0x001a, Value::Float64(vec![(-0.0f64).to_bits(), f64::MAX.to_bits()])),
        (0xffff, Value::Short(vec![0])),
    ]
}

#[test]
fn laid_out_fields_decode_to_themselves() {
    let fields = every_kind();
    for big in [false, true] {
        let t = lay_out(big, &fields);
        assert_eq!(decode_tiff(&t), Ok(expected(&fields)));
    }
}

#[test]
fn both_layouts_decode_alike() {
    let fields = every_kind();
    let little = lay_out(false, &fields);
    let big = lay_out(true, &fields);
    assert_ne!(little, big);
    assert_eq!(little.len(), big.len());
    assert_eq!(decode_tiff(&little), decode_tiff(&big));
}

#[test]
fn each_field_alone_decodes_to_itself() {
    for field in every_kind() {
        for big in [false, true] {
            let one = vec![field.clone()];
            assert_eq!(decode_tiff(&lay_out(big, &one)), Ok(expected(&one)));
        }
    }
}

#[test]
fn every_number_of_fields_up_to_forty_keeps_its_count_and_order() {
    for n in 0..=40u16 {
        let fields: Vec<(u16, Value)> = (0..n)
            .map(|i| {
                let seed = (i as u32).wrapping_mul(2654435761).wrapping_add(n as u32);
                match i % 4 {
                    0 => (0x0100 + i, Value::Short(vec![seed as u16; 1 + (seed % 5) as usize])),
                    1 => (0x0100 + i, Value::Long(vec![seed; 1 + (seed % 3) as usize])),
                    2 => (0x0100 + i, Value::Ascii(vec![b'a' + (seed % 26) as u8; (seed % 9) as usize])),
                    _ => (
                        0x0100 + i,
                        Value::Rational(vec![Rational { numerator: seed, denominator: !seed }]),
                    ),
                }
            })
            .collect();
        for big in [false, true] {
            let decoded = decode_tiff(&lay_out(big, &fields)).unwrap();
            assert_eq!(decoded.len(), n as usize);
            assert_eq!(decoded, expected(&fields));
        }
    }
}

#[test]
fn a_cut_layout_is_truncated() {
    let fields = every_kind();
    let t = lay_out(true, &fields);
    for cut in 8..t.len() {
        assert_eq!(
            decode_tiff(&t[..cut]),
            Err(exif_decoder::error::DecodeError::Truncated),
            "cut at {}",
            cut
        );
    }
}
