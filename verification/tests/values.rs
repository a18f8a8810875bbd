use exif_decoder::bytes::{has_bytes, to_i16, to_i32, to_i8, u32_bytes, ByteOrder};
use exif_decoder::error::DecodeError;
use exif_decoder::ifd::IfdEntry;
use exif_decoder::value::{decode_value, size_of_type, Rational, SignedRational, Value};
use exif_decoder::walk::{decode_field, first_unsigned_of, pointer_target, Field, Group};

const LE: ByteOrder = ByteOrder::LittleEndian;
const BE: ByteOrder = ByteOrder::BigEndian;

fn at(data_type: u16, count: u32, value_or_offset: u32) -> IfdEntry {
    IfdEntry { tag: 0x9000, data_type, count, value_or_offset }
}

#[test]
fn element_sizes() {
    let sizes: Vec<usize> = (0..=13).map(size_of_type).collect();
    assert_eq!(sizes, vec![0, 1, 1, 2, 4, 8, 1, 1, 2, 4, 8, 4, 8, 0]);
    assert_eq!(size_of_type(0xffff), 0);
}

#[test]
fn bytes_in_the_slot() {
    assert_eq!(decode_value(LE, &[], &at(1, 4, 0x04030201)), Ok(Value::Byte(vec![1, 2, 3, 4])));
    assert_eq!(decode_value(BE, &[], &at(1, 4, 0x04030201)), Ok(Value::Byte(vec![4, 3, 2, 1])));
    assert_eq!(decode_value(LE, &[], &at(1, 2, 0x04030201)), Ok(Value::Byte(vec![1, 2])));
    assert_eq!(decode_value(BE, &[], &at(1, 2, 0x04030201)), Ok(Value::Byte(vec![4, 3])));
    assert_eq!(decode_value(BE, &[], &at(7, 3, 0x0a0b0c0d)), Ok(Value::Undefined(vec![10, 11, 12])));
}

#[test]
fn bytes_at_an_offset() {
    let data = [9, 8, 7, 6, 5, 4, 3, 2, 1, 0];
    assert_eq!(decode_value(LE, &data, &at(1, 5, 2)), Ok(Value::Byte(vec![7, 6, 5, 4, 3])));
    assert_eq!(decode_value(BE, &data, &at(7, 10, 0)), Ok(Value::Undefined(data.to_vec())));
    assert_eq!(decode_value(BE, &data, &at(7, 5, 6)), Err(DecodeError::Truncated));
    assert_eq!(decode_value(BE, &data, &at(7, 5, 5)), Ok(Value::Undefined(vec![4, 3, 2, 1, 0])));
    assert_eq!(decode_value(BE, &data, &at(7, 5, 11)), Err(DecodeError::Truncated));
}

#[test]
fn shorts_in_the_slot() {
    assert_eq!(decode_value(LE, &[], &at(3, 2, 0x00020001)), Ok(Value::Short(vec![1, 2])));
    assert_eq!(decode_value(BE, &[], &at(3, 2, 0x00020001)), Ok(Value::Short(vec![2, 1])));
    assert_eq!(decode_value(LE, &[], &at(3, 1, 0xabcd1234)), Ok(Value::Short(vec![0x1234])));
    assert_eq!(decode_value(BE, &[], &at(3, 1, 0xabcd1234)), Ok(Value::Short(vec![0xabcd])));
}

#[test]
fn shorts_at_an_offset() {
    let data = [0x01, 0x02, 0x03, 0x04, 0x05, 0x06, 0x07];
    assert_eq!(
        decode_value(LE, &data, &at(3, 3, 1)),
        Ok(Value::Short(vec![0x0302, 0x0504, 0x0706]))
    );
    assert_eq!(
        decode_value(BE, &data, &at(3, 3, 0)),
        Ok(Value::Short(vec![0x0102, 0x0304, 0x0506]))
    );
    assert_eq!(decode_value(BE, &data, &at(3, 3, 2)), Err(DecodeError::Truncated));
}

#[test]
fn longs() {
    assert_eq!(decode_value(LE, &[], &at(4, 1, 0xdeadbeef)), Ok(Value::Long(vec![0xdeadbeef])));
    assert_eq!(decode_value(BE, &[], &at(4, 1, 0xdeadbeef)), Ok(Value::Long(vec![0xdeadbeef])));
    let data = [0x78, 0x56, 0x34, 0x12, 0xff, 0xff, 0xff, 0xff];
    assert_eq!(
        decode_value(LE, &data, &at(4, 2, 0)),
        Ok(Value::Long(vec![0x12345678, 0xffffffff]))
    );
    assert_eq!(
        decode_value(BE, &data, &at(4, 2, 0)),
        Ok(Value::Long(vec![0x78563412, 0xffffffff]))
    );
}

#[test]
fn rationals() {
    let data = [0, 0, 0, 1, 0, 0, 0, 3, 0, 0, 1, 0, 0xff, 0xff, 0xff, 0xff];
    assert_eq!(
        decode_value(BE, &data, &at(5, 2, 0)),
        Ok(Value::Rational(vec![
            Rational { numerator: 1, denominator: 3 },
            Rational { numerator: 256, denominator: 0xffff_ffff },
        ]))
    );
    assert_eq!(
        decode_value(LE, &data, &at(5, 1, 0)),
        Ok(Value::Rational(vec![Rational { numerator: 0x0100_0000, denominator: 0x0300_0000 }]))
    );
    assert_eq!(decode_value(LE, &data, &at(5, 3, 0)), Err(DecodeError::Truncated));
}

#[test]
fn signed_bytes() {
    assert_eq!(
        decode_value(LE, &[], &at(6, 4, 0x7f80ff00)),
        Ok(Value::SignedByte(vec![0, -1, -128, 127]))
    );
    assert_eq!(to_i8(0), 0);
    assert_eq!(to_i8(0x7f), 127);
    assert_eq!(to_i8(0x80), -128);
    assert_eq!(to_i8(0xff), -1);
}

#[test]
fn signed_shorts() {
    assert_eq!(
        decode_value(BE, &[], &at(8, 2, 0x8000ffff)),
        Ok(Value::SignedShort(vec![-32768, -1]))
    );
    assert_eq!(
        decode_value(LE, &[], &at(8, 2, 0x8000ffff)),
        Ok(Value::SignedShort(vec![-1, -32768]))
    );
    assert_eq!(to_i16(0x7fff), 32767);
    assert_eq!(to_i16(0x8000), -32768);
    assert_eq!(to_i16(0xfffe), -2);
}

#[test]
fn signed_longs() {
    assert_eq!(decode_value(BE, &[], &at(9, 1, 0xffff_fffe)), Ok(Value::SignedLong(vec![-2])));
    assert_eq!(
        decode_value(LE, &[], &at(9, 1, 0x8000_0000)),
        Ok(Value::SignedLong(vec![i32::MIN]))
    );
    assert_eq!(to_i32(0x7fff_ffff), i32::MAX);
    assert_eq!(to_i32(0x8000_0000), i32::MIN);
    assert_eq!(to_i32(0xffff_ffff), -1);
    assert_eq!(to_i32(5), 5);
}

#[test]
fn signed_rationals() {
    let data = [0xff, 0xff, 0xff, 0xff, 0x03, 0, 0, 0];
    assert_eq!(
        decode_value(LE, &data, &at(10, 1, 0)),
        Ok(Value::SignedRational(vec![SignedRational { numerator: -1, denominator: 3 }]))
    );
    assert_eq!(
        decode_value(BE, &data, &at(10, 1, 0)),
        Ok(Value::SignedRational(vec![SignedRational { numerator: -1, denominator: 0x0300_0000 }]))
    );
}

#[test]
fn floating_point_numbers_keep_their_bits() {
    let one = 1.0f32.to_bits();
    assert_eq!(decode_value(BE, &[], &at(11, 1, one)), Ok(Value::Float32(vec![0x3f80_0000])));
    let v = decode_value(LE, &[], &at(11, 1, (-2.5f32).to_bits())).unwrap();
    match v {
        Value::Float32(bits) => assert_eq!(f32::from_bits(bits[0]), -2.5),
        other => panic!("{:?}", other),
    }
    let pi = std::f64::consts::PI;
    let data = pi.to_le_bytes();
    match decode_value(LE, &data, &at(12, 1, 0)).unwrap() {
        Value::Float64(bits) => {
            assert_eq!(bits, vec![0x4009_21fb_5444_2d18]);
            assert_eq!(f64::from_bits(bits[0]), pi);
        }
        other => panic!("{:?}", other),
    }
    let data = pi.to_be_bytes();
    assert_eq!(
        decode_value(BE, &data, &at(12, 1, 0)),
        Ok(Value::Float64(vec![0x4009_21fb_5444_2d18]))
    );
}

#[test]
fn undefined_type_is_an_error_of_the_field() {
    assert_eq!(decode_value(LE, &[], &at(0, 1, 0)), Err(DecodeError::UnsupportedFieldType));
    assert_eq!(decode_value(LE, &[], &at(13, 1, 0)), Err(DecodeError::UnsupportedFieldType));
    assert_eq!(decode_value(BE, &[], &at(0xffff, 9, 0)), Err(DecodeError::UnsupportedFieldType));
    assert_eq!(decode_value(BE, &[], &at(3, 0, 0)), Err(DecodeError::UnsupportedFieldType));
}

#[test]
fn largest_count_is_truncated_not_a_crash() {
    for data_type in 1..=12 {
        let size = size_of_type(data_type) as u64;
        let r = decode_value(LE, &[0; 16], &at(data_type, u32::MAX, 0));
        assert!(size * (u32::MAX as u64) > 16);
        assert_eq!(r, Err(DecodeError::Truncated));
        let r = decode_value(BE, &[0; 16], &at(data_type, u32::MAX, u32::MAX));
        assert_eq!(r, Err(DecodeError::Truncated));
    }
}

#[test]
fn fields_carry_tag_and_type() {
    let e = IfdEntry { tag: 0x0112, data_type: 3, count: 1, value_or_offset: 6 };
    assert_eq!(
        decode_field(LE, &[], &e, Group::Tiff),
        Ok(Field { group: Group::Tiff, tag: 0x0112, data_type: 3, value: Value::Short(vec![6]) })
    );
    let e = IfdEntry { tag: 0x0112, data_type: 99, count: 1, value_or_offset: 6 };
    assert_eq!(
        decode_field(LE, &[], &e, Group::Gps),
        Ok(Field { group: Group::Gps, tag: 0x0112, data_type: 99, value: Value::Unsupported })
    );
    let e = IfdEntry { tag: 0x0112, data_type: 5, count: 1, value_or_offset: 6 };
    assert_eq!(decode_field(LE, &[0; 13], &e, Group::Exif), Err(DecodeError::Truncated));
}

#[test]
fn pointers_are_told_apart() {
    let f = |tag, value| Field { group: Group::Tiff, tag, data_type: 0, value };
    assert_eq!(pointer_target(&f(0x8769, Value::Long(vec![100]))), Some((100, Group::Exif)));
    assert_eq!(pointer_target(&f(0x8825, Value::Long(vec![7, 9]))), Some((7, Group::Gps)));
    assert_eq!(pointer_target(&f(0x8825, Value::Short(vec![300]))), Some((300, Group::Gps)));
    assert_eq!(pointer_target(&f(0x8769, Value::Byte(vec![255]))), Some((255, Group::Exif)));
    assert_eq!(pointer_target(&f(0x8769, Value::Long(vec![0]))), None);
    assert_eq!(pointer_target(&f(0x8769, Value::Long(vec![]))), None);
    assert_eq!(pointer_target(&f(0x8769, Value::SignedLong(vec![100]))), None);
    assert_eq!(pointer_target(&f(0x8769, Value::Ascii(vec![100]))), None);
    assert_eq!(pointer_target(&f(0x8769, Value::Unsupported)), None);
    assert_eq!(pointer_target(&f(0xa005, Value::Long(vec![100]))), None);
    assert_eq!(pointer_target(&f(0x0112, Value::Long(vec![100]))), None);
    let inside = Field { group: Group::Exif, tag: 0x8825, data_type: 4, value: Value::Long(vec![9]) };
    assert_eq!(pointer_target(&inside), Some((9, Group::Gps)));
    assert_eq!(first_unsigned_of(&Value::Short(vec![4, 5])), Some(4));
    assert_eq!(first_unsigned_of(&Value::Undefined(vec![4, 5])), None);
}

#[test]
fn slot_bytes_in_both_orders() {
    assert_eq!(u32_bytes(LE, 0x0102_0304), [4, 3, 2, 1]);
    assert_eq!(u32_bytes(BE, 0x0102_0304), [1, 2, 3, 4]);
    assert_eq!(u32_bytes(LE, 0), [0, 0, 0, 0]);
    assert_eq!(u32_bytes(BE, 0xffff_ff00), [0xff, 0xff, 0xff, 0]);
}

#[test]
fn bounds() {
    let data = [0u8; 4];
    assert!(has_bytes(&data, 0, 4));
    assert!(has_bytes(&data, 4, 0));
    assert!(has_bytes(&data, 3, 1));
    assert!(!has_bytes(&data, 3, 2));
    assert!(!has_bytes(&data, 5, 0));
    assert!(!has_bytes(&data, usize::MAX, 2));
    assert!(!has_bytes(&data, 2, usize::MAX));
}
