use exif_decoder::format::{find_tag, format_field, push_chars, push_list, push_unit, push_value};
use exif_decoder::text::{push_decimal, push_hex, push_signed, Style};
use exif_decoder::value::{Rational, SignedRational, Value};
use exif_decoder::walk::{Field, Group};

fn field(tag: u16, data_type: u16, value: Value) -> Field {
    let group = if tag < 0x0020 {
        Group::Gps
    } else if tag < 0x8000 {
        Group::Tiff
    } else {
        Group::Exif
    };
    Field { group, tag, data_type, value }
}

fn rational(numerator: u32, denominator: u32) -> Rational {
    Rational { numerator, denominator }
}

fn line(f: &Field) -> String {
    format_field(f, &vec![f.clone()])
}

fn decimal(n: u64) -> String {
    let mut s = String::new();
    push_decimal(&mut s, n);
    s
}

fn signed(n: i32) -> String {
    let mut s = String::new();
    push_signed(&mut s, n);
    s
}

fn hex(n: u64, width: u8) -> String {
    let mut s = String::new();
    push_hex(&mut s, n, width);
    s
}

#[test]
fn decimal_numbers() {
    assert_eq!(decimal(0), "0");
    assert_eq!(decimal(7), "7");
    assert_eq!(decimal(10), "10");
    assert_eq!(decimal(4294967295), "4294967295");
    assert_eq!(decimal(u64::MAX), "18446744073709551615");
    assert_eq!(decimal(1000000), "1000000");
}

#[test]
fn signed_numbers() {
    assert_eq!(signed(0), "0");
    assert_eq!(signed(-1), "-1");
    assert_eq!(signed(42), "42");
    assert_eq!(signed(i32::MIN), "-2147483648");
    assert_eq!(signed(i32::MAX), "2147483647");
}

#[test]
fn hexadecimal_numbers() {
    assert_eq!(hex(0, 2), "00");
    assert_eq!(hex(0xab, 2), "ab");
    assert_eq!(hex(0x1ab, 2), "ab");
    assert_eq!(hex(0x3f800000, 8), "3f800000");
    assert_eq!(hex(0x0123456789abcdef, 16), "0123456789abcdef");
    assert_eq!(hex(5, 0), "");
}

#[test]
fn appending_keeps_what_is_there() {
    let mut s = String::from("x=");
    push_decimal(&mut s, 12);
    push_signed(&mut s, -3);
    push_hex(&mut s, 255, 4);
    assert_eq!(s, "x=12-300ff");
}

#[test]
fn lists() {
    let mut s = String::from("[");
    push_list(&mut s, &vec![1u16, 20, 300], Style::Decimal, true);
    s.push(']');
    assert_eq!(s, "[1, 20, 300]");

    let mut s = String::new();
    push_list(&mut s, &vec![1u8, 0xa0, 0xff], Style::Hex, false);
    assert_eq!(s, "01a0ff");

    let mut s = String::new();
    push_list(&mut s, &Vec::<u32>::new(), Style::Decimal, true);
    assert_eq!(s, "");

    let mut s = String::new();
    push_list(&mut s, &vec![-5i16], Style::Hex, true);
    assert_eq!(s, "-5");

    let mut s = String::new();
    push_list(&mut s, &vec![255u16, 1], Style::Hex, true);
    assert_eq!(s, "00ff, 0001");
}

#[test]
fn text_is_written_byte_for_byte() {
    let mut s = String::from(">");
    push_chars(&mut s, &b"Canon EOS".to_vec());
    assert_eq!(s, ">Canon EOS");
    let mut s = String::new();
    push_chars(&mut s, &vec![0x41, 0xe9, 0xff]);
    assert_eq!(s, "A\u{e9}\u{ff}");
}

#[test]
fn values_as_text() {
    let text = |v: Value| {
        let mut s = String::new();
        push_value(&mut s, &v);
        s
    };
    assert_eq!(text(Value::Byte(vec![1, 2, 255])), "1, 2, 255");
    assert_eq!(text(Value::Ascii(b"Nikon".to_vec())), "Nikon");
    assert_eq!(text(Value::Short(vec![1])), "1");
    assert_eq!(text(Value::Short(vec![])), "");
    assert_eq!(text(Value::Long(vec![4294967295, 0])), "4294967295, 0");
    assert_eq!(text(Value::Rational(vec![rational(1, 3)])), "1/3");
    assert_eq!(text(Value::Rational(vec![rational(35, 1), rational(40, 1), rational(3012, 100)])), "35/1, 40/1, 3012/100");
    assert_eq!(text(Value::SignedByte(vec![-128, 127])), "-128, 127");
    assert_eq!(text(Value::Undefined(b"0231".to_vec())), "30323331");
    assert_eq!(text(Value::SignedShort(vec![-1, 2])), "-1, 2");
    assert_eq!(text(Value::SignedLong(vec![i32::MIN])), "-2147483648");
    assert_eq!(
        text(Value::SignedRational(vec![SignedRational { numerator: -1, denominator: 3 }])),
        "-1/3"
    );
    assert_eq!(text(Value::Float32(vec![1.0f32.to_bits(), 2.0f32.to_bits()])), "3f800000, 40000000");
    assert_eq!(text(Value::Float64(vec![1.0f64.to_bits()])), "3ff0000000000000");
    assert_eq!(text(Value::Unsupported), "?");
}

#[test]
fn fixed_units() {
    assert_eq!(line(&field(0x829a, 5, Value::Rational(vec![rational(1, 250)]))), "1/250 s");
    assert_eq!(line(&field(0x920a, 5, Value::Rational(vec![rational(50, 1)]))), "50/1 mm");
    assert_eq!(line(&field(0xa405, 3, Value::Short(vec![75]))), "75 mm");
    assert_eq!(line(&field(0x9206, 5, Value::Rational(vec![rational(3, 2)]))), "3/2 m");
    assert_eq!(line(&field(0x0006, 5, Value::Rational(vec![rational(1203, 10)]))), "1203/10 m");
    assert_eq!(line(&field(0x0112, 3, Value::Short(vec![1]))), "1");
    assert_eq!(line(&field(0x010f, 2, Value::Ascii(b"Canon".to_vec()))), "Canon");
}

#[test]
fn resolution_takes_its_unit_from_another_field() {
    let x = field(0x011a, 5, Value::Rational(vec![rational(72, 1)]));
    let y = field(0x011b, 5, Value::Rational(vec![rational(300, 1)]));
    let inch = field(0x0128, 3, Value::Short(vec![2]));
    let cm = field(0x0128, 3, Value::Short(vec![3]));
    let other = field(0x0128, 3, Value::Short(vec![1]));
    let odd = field(0x0128, 2, Value::Ascii(b"cm".to_vec()));
    let two = field(0x0128, 3, Value::Short(vec![3, 3]));

    assert_eq!(format_field(&x, &vec![x.clone(), y.clone(), inch.clone()]), "72/1 pixels per inch");
    assert_eq!(format_field(&y, &vec![x.clone(), y.clone(), cm.clone()]), "300/1 pixels per cm");
    assert_eq!(format_field(&x, &vec![x.clone(), y.clone()]), "72/1 pixels per inch");
    assert_eq!(format_field(&x, &vec![]), "72/1 pixels per inch");
    assert_eq!(format_field(&x, &vec![other, cm.clone()]), "72/1");
    assert_eq!(format_field(&x, &vec![odd]), "72/1");
    assert_eq!(format_field(&x, &vec![two]), "72/1");
    assert_eq!(format_field(&x, &vec![cm.clone(), inch.clone()]), "72/1 pixels per cm");
    assert_eq!(format_field(&cm, &vec![x, cm.clone()]), "3");
}

#[test]
fn coordinates_take_their_hemisphere_from_another_field() {
    let lat = field(0x0002, 5, Value::Rational(vec![rational(35, 1), rational(40, 1), rational(30, 1)]));
    let lon = field(0x0004, 5, Value::Rational(vec![rational(139, 1), rational(45, 1), rational(0, 1)]));
    let north = field(0x0001, 2, Value::Ascii(b"N".to_vec()));
    let east = field(0x0003, 2, Value::Ascii(b"E".to_vec()));
    let all = vec![north.clone(), lat.clone(), east.clone(), lon.clone()];
    assert_eq!(format_field(&lat, &all), "35/1, 40/1, 30/1 deg N");
    assert_eq!(format_field(&lon, &all), "139/1, 45/1, 0/1 deg E");
    assert_eq!(format_field(&north, &all), "N");
    assert_eq!(format_field(&lat, &vec![lat.clone()]), "35/1, 40/1, 30/1 deg");
    assert_eq!(format_field(&lat, &vec![east]), "35/1, 40/1, 30/1 deg");
    let number = field(0x0001, 3, Value::Short(vec![1]));
    assert_eq!(format_field(&lat, &vec![number, north]), "35/1, 40/1, 30/1 deg");
}

#[test]
fn units_go_by_the_group_of_the_tag() {
    let gps_number_in_tiff =
        Field { group: Group::Tiff, tag: 0x0006, data_type: 3, value: Value::Short(vec![5]) };
    assert_eq!(line(&gps_number_in_tiff), "5");
    let altitude =
        Field { group: Group::Gps, tag: 0x0006, data_type: 3, value: Value::Short(vec![5]) };
    assert_eq!(line(&altitude), "5 m");
    let x = Field {
        group: Group::Tiff,
        tag: 0x011a,
        data_type: 5,
        value: Value::Rational(vec![rational(72, 1)]),
    };
    let unit_elsewhere =
        Field { group: Group::Exif, tag: 0x0128, data_type: 3, value: Value::Short(vec![3]) };
    assert_eq!(format_field(&x, &vec![unit_elsewhere]), "72/1 pixels per inch");
    let lat = field(0x0002, 5, Value::Rational(vec![rational(1, 1)]));
    let reference_elsewhere =
        Field { group: Group::Tiff, tag: 0x0001, data_type: 2, value: Value::Ascii(b"N".to_vec()) };
    assert_eq!(format_field(&lat, &vec![reference_elsewhere]), "1/1 deg");
}

#[test]
fn units_alone() {
    let mut s = String::from("1");
    push_unit(&mut s, Group::Exif, 0x829a, &vec![]);
    assert_eq!(s, "1 s");
    let mut s = String::from("1");
    push_unit(&mut s, Group::Tiff, 0x829a, &vec![]);
    assert_eq!(s, "1");
    let mut s = String::from("1");
    push_unit(&mut s, Group::Tiff, 0x0100, &vec![]);
    assert_eq!(s, "1");
}

#[test]
fn first_field_with_a_tag_is_found() {
    let all = vec![
        field(0x0100, 3, Value::Short(vec![1])),
        field(0x0128, 3, Value::Short(vec![2])),
        field(0x0128, 3, Value::Short(vec![3])),
    ];
    assert_eq!(find_tag(&all, Group::Tiff, 0x0128), Some(1));
    assert_eq!(find_tag(&all, Group::Tiff, 0x0100), Some(0));
    assert_eq!(find_tag(&all, Group::Tiff, 0x0101), None);
    assert_eq!(find_tag(&all, Group::Exif, 0x0128), None);
    assert_eq!(find_tag(&vec![], Group::Tiff, 0x0101), None);
}

#[test]
fn formatting_leaves_the_field_as_it_was() {
    let f = field(0x829a, 5, Value::Rational(vec![rational(1, 3)]));
    let all = vec![f.clone()];
    let before = all.clone();
    let text = format_field(&all[0], &all);
    assert_eq!(text, "1/3 s");
    assert_eq!(all, before);
}
