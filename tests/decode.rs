use std::collections::BTreeMap;

use gasworks::decode::{decode_bits, decode_int, decode_loc_item, decode_loc_layout, decode_prim, DecodeError};
use gasworks::layout::{decode_to_map, Layout};
use gasworks::prim::{BitPrim, Endianness, Enum, FloatPrim, IntPrim, IntSize, Prim, Signedness};
use gasworks::types::{Item, LocItem, LocLayout};
use gasworks::value::{Value, ValueEntry, ValueMap};

fn enum_prim() -> Prim {
    let mut enum_map = BTreeMap::new();
    enum_map.insert(0, "Zero".to_string());
    enum_map.insert(1, "One".to_string());
    enum_map.insert(2, "Two".to_string());
    enum_map.insert(5, "Five".to_string());
    let int_prim = IntPrim::new(IntSize::Bits32, Signedness::Unsigned, Endianness::BigEndian);
    Prim::Enum(Enum { map: enum_map, int_prim: int_prim })
}

#[test]
fn test_decode_layout() {
    let bit_entries = vec![
        ("bits0".to_string(), 4, IntPrim::u8_be()),
        ("bits1".to_string(), 12, IntPrim::u16_be()),
        ("bits2".to_string(), 2, IntPrim::u8_be()),
        ("bits3".to_string(), 14, IntPrim::u32_be()),
    ];
    let bits_layout = Layout::Bits(BitPrim { entries: bit_entries, num_bytes: 4 });

    let all_vec = vec![
        Layout::Prim(Item::new("all0".to_string(), Prim::Int(IntPrim::u8_be()))),
        Layout::Prim(Item::new("all1".to_string(), Prim::Int(IntPrim::u32_be()))),
        Layout::Prim(Item::new("all2".to_string(), Prim::Int(IntPrim::u8_be()))),
    ];
    let all_layout = Layout::All("all".to_string(), all_vec);

    let prim_layout = Layout::Prim(Item::new("prim0".to_string(), Prim::Int(IntPrim::u8_be())));

    let v: Vec<u8> = vec![0x12, 0x34, 0x56, 0x78, 0x12, 0x34, 0x56, 0x78, 0xAA];
    let mut pos: usize = 0;

    let layout = Layout::Sequence("seq".to_string(), vec![bits_layout, all_layout, prim_layout]);

    let value_map = decode_to_map(&layout, &v, &mut pos).unwrap();

    let value_bits0 = value_map.lookup(&"bits0".to_string()).unwrap();
    assert!(value_bits0 == Value::U8(0x01));

    let value_bits1 = value_map.lookup(&"bits1".to_string()).unwrap();
    assert!(value_bits1 == Value::U16(0x0234));

    let value_bits2 = value_map.lookup(&"bits2".to_string()).unwrap();
    assert!(value_bits2 == Value::U8(0x01));

    let value_bits3 = value_map.lookup(&"bits3".to_string()).unwrap();
    assert!(value_bits3 == Value::U32(0x00001678));

    let value_all0 = value_map.lookup(&"all0".to_string()).unwrap();
    assert!(value_all0 == Value::U8(0x12));

    let value_all1 = value_map.lookup(&"all1".to_string()).unwrap();
    assert!(value_all1 == Value::U32(0x12345678));

    let value_all2 = value_map.lookup(&"all2".to_string()).unwrap();
    assert!(value_all2 == Value::U8(0x12));

    let value_prim0 = value_map.lookup(&"prim0".to_string()).unwrap();
    assert!(value_prim0 == Value::U8(0xAA));
}

#[test]
fn test_decode_prim() {
    let byte_prim = Prim::Int(IntPrim::new(IntSize::Bits8, Signedness::Unsigned, Endianness::BigEndian));

    let float32_be = Prim::Float(FloatPrim::F32(Endianness::BigEndian));
    let float64_be = Prim::Float(FloatPrim::F64(Endianness::BigEndian));

    let float32_le = Prim::Float(FloatPrim::F32(Endianness::LittleEndian));
    let float64_le = Prim::Float(FloatPrim::F64(Endianness::LittleEndian));

    let enum_prim = enum_prim();

    let v: Vec<u8> = vec![
        0xAA, 0x3D, 0xCC, 0xCC, 0xCD, 0x3F, 0xC9, 0x99, 0x99, 0x99, 0x99, 0x99, 0x9A, 0xCD, 0xCC, 0xCC, 0x3D, 0x9A,
        0x99, 0x99, 0x99, 0x99, 0x99, 0xC9, 0x3F, 0x00, 0x00, 0x00, 0x00, 0x00, 0x00, 0x00, 0x01, 0x00, 0x00, 0x00,
        0x02, 0x00, 0x00, 0x00, 0x05,
    ];
    let mut pos: usize = 0;
    let byte_value = decode_prim(&byte_prim, &v, &mut pos).unwrap();

    let float32_value_be = decode_prim(&float32_be, &v, &mut pos).unwrap();
    let float64_value_be = decode_prim(&float64_be, &v, &mut pos).unwrap();

    let float32_value_le = decode_prim(&float32_le, &v, &mut pos).unwrap();
    let float64_value_le = decode_prim(&float64_le, &v, &mut pos).unwrap();

    let enum_value_zero = decode_prim(&enum_prim, &v, &mut pos).unwrap();
    let enum_value_one = decode_prim(&enum_prim, &v, &mut pos).unwrap();
    let enum_value_two = decode_prim(&enum_prim, &v, &mut pos).unwrap();
    let enum_value_five = decode_prim(&enum_prim, &v, &mut pos).unwrap();

    assert!(byte_value == Value::U8(0xAA));

    assert!(float32_value_be == Value::F32(0.1f32.to_bits()));
    assert!(float64_value_be == Value::F64(0.2f64.to_bits()));

    assert!(float32_value_le == Value::F32(0.1f32.to_bits()));
    assert!(float64_value_le == Value::F64(0.2f64.to_bits()));

    assert!(enum_value_zero == Value::Enum("Zero".to_string(), 0));
    assert!(enum_value_one == Value::Enum("One".to_string(), 1));
    assert!(enum_value_two == Value::Enum("Two".to_string(), 2));
    assert!(enum_value_five == Value::Enum("Five".to_string(), 5));
}

#[test]
fn test_decode_int() {
    let byte_prim = IntPrim::new(IntSize::Bits8, Signedness::Unsigned, Endianness::BigEndian);

    let short_prim_be = IntPrim::new(IntSize::Bits16, Signedness::Unsigned, Endianness::BigEndian);
    let short_prim_le = IntPrim::new(IntSize::Bits16, Signedness::Unsigned, Endianness::LittleEndian);

    let int_prim_be = IntPrim::new(IntSize::Bits32, Signedness::Unsigned, Endianness::BigEndian);
    let int_prim_le = IntPrim::new(IntSize::Bits32, Signedness::Unsigned, Endianness::LittleEndian);

    let long_prim_be = IntPrim::new(IntSize::Bits64, Signedness::Unsigned, Endianness::BigEndian);
    let long_prim_le = IntPrim::new(IntSize::Bits64, Signedness::Unsigned, Endianness::LittleEndian);

    let v: Vec<u8> = vec![
        0xAA, 0x11, 0x22, 0x33, 0x44, 0x11, 0x22, 0x33, 0x44, 0x44, 0x33, 0x22, 0x11, 0x11, 0x22, 0x33, 0x44, 0x55,
        0x66, 0x77, 0x88, 0x88, 0x77, 0x66, 0x55, 0x44, 0x33, 0x22, 0x11,
    ];
    let mut pos: usize = 0;
    let byte = decode_int(&byte_prim, &v, &mut pos).unwrap();
    let short_be = decode_int(&short_prim_be, &v, &mut pos).unwrap();
    let short_le = decode_int(&short_prim_le, &v, &mut pos).unwrap();

    let int_be = decode_int(&int_prim_be, &v, &mut pos).unwrap();
    let int_le = decode_int(&int_prim_le, &v, &mut pos).unwrap();

    let long_be = decode_int(&long_prim_be, &v, &mut pos).unwrap();
    let long_le = decode_int(&long_prim_le, &v, &mut pos).unwrap();

    assert!(byte == Value::U8(0xAA));

    assert!(short_be == Value::U16(0x1122));
    assert!(short_le == Value::U16(0x4433));

    assert!(int_be == Value::U32(0x11223344));
    assert!(int_le == Value::U32(0x11223344));

    assert!(long_be == Value::U64(0x1122334455667788));
    assert!(long_le == Value::U64(0x1122334455667788));
}

#[test]
fn exact_width_is_consumed() {
    let prims = vec![
        (Prim::Int(IntPrim::u8_be()), 1usize),
        (Prim::Int(IntPrim::i16_le()), 2),
        (Prim::Int(IntPrim::u32_be()), 4),
        (Prim::Int(IntPrim::i64_le()), 8),
        (Prim::Float(FloatPrim::f32_le()), 4),
        (Prim::Float(FloatPrim::f64_be()), 8),
    ];
    for (p, w) in prims {
        let bytes = vec![0x7Fu8; w];
        let mut pos: usize = 0;
        assert!(decode_prim(&p, &bytes, &mut pos).is_ok());
        assert_eq!(pos, w);
        let short = vec![0x7Fu8; w - 1];
        let mut pos: usize = 0;
        assert!(decode_prim(&p, &short, &mut pos) == Err(DecodeError::Truncated));
        assert_eq!(pos, 0);
    }
}

#[test]
fn endianness_of_four_bytes() {
    let bytes: Vec<u8> = vec![0x11, 0x22, 0x33, 0x44];
    let mut pos: usize = 0;
    assert!(decode_int(&IntPrim::u32_be(), &bytes, &mut pos) == Ok(Value::U32(0x11223344)));
    let mut pos: usize = 0;
    assert!(decode_int(&IntPrim::u32_le(), &bytes, &mut pos) == Ok(Value::U32(0x44332211)));
}

#[test]
fn signed_integers_are_twos_complement() {
    let bytes: Vec<u8> = vec![0xFF, 0xFE, 0x80, 0x00, 0x00, 0x00, 0x00, 0x00, 0x00, 0x00];
    let mut pos: usize = 0;
    assert!(decode_int(&IntPrim::i16_be(), &bytes, &mut pos) == Ok(Value::I16(-2)));
    let mut pos: usize = 0;
    assert!(decode_int(&IntPrim::i16_le(), &bytes, &mut pos) == Ok(Value::I16(-257)));
    let mut pos: usize = 0;
    assert!(decode_int(&IntPrim::i8_be(), &bytes, &mut pos) == Ok(Value::I8(-1)));
    let mut pos: usize = 2;
    assert!(decode_int(&IntPrim::i64_be(), &bytes, &mut pos) == Ok(Value::I64(i64::MIN)));
    let mut pos: usize = 2;
    assert!(decode_int(&IntPrim::i32_be(), &bytes, &mut pos) == Ok(Value::I32(i32::MIN)));
}

#[test]
fn unknown_enum_value_is_an_error() {
    let p = enum_prim();
    let bytes: Vec<u8> = vec![0x00, 0x00, 0x00, 0x00, 0x00, 0x00, 0x00, 0x01, 0x00, 0x00, 0x00, 0x02, 0x00, 0x00, 0x00, 0x05];
    let mut pos: usize = 0;
    let mut got = Vec::new();
    for _ in 0..4 {
        got.push(decode_prim(&p, &bytes, &mut pos).unwrap());
    }
    assert!(got[0] == Value::Enum("Zero".to_string(), 0));
    assert!(got[1] == Value::Enum("One".to_string(), 1));
    assert!(got[2] == Value::Enum("Two".to_string(), 2));
    assert!(got[3] == Value::Enum("Five".to_string(), 5));

    let three: Vec<u8> = vec![0x00, 0x00, 0x00, 0x03];
    let mut pos: usize = 0;
    assert!(decode_prim(&p, &three, &mut pos) == Err(DecodeError::UnknownEnumValue(3)));
    assert_eq!(pos, 0);
}

#[test]
fn bit_fields_advance_the_whole_span() {
    let entries = vec![
        ("a".to_string(), 4, IntPrim::u8_be()),
        ("b".to_string(), 12, IntPrim::u16_be()),
        ("c".to_string(), 2, IntPrim::u8_be()),
        ("d".to_string(), 14, IntPrim::u32_be()),
    ];
    let bits = BitPrim { entries: entries, num_bytes: 4 };
    let bytes: Vec<u8> = vec![0x12, 0x34, 0x56, 0x78, 0x99];
    let mut pos: usize = 0;
    let mut map = ValueMap::new(Vec::new());
    assert!(decode_bits(&bits, &bytes, &mut pos, &mut map).is_ok());
    assert_eq!(pos, 4);
    assert!(map.lookup(&"a".to_string()) == Some(Value::U8(0x1)));
    assert!(map.lookup(&"b".to_string()) == Some(Value::U16(0x234)));
    assert!(map.lookup(&"c".to_string()) == Some(Value::U8(0x1)));
    assert!(map.lookup(&"d".to_string()) == Some(Value::U32(0x1678)));
}

#[test]
fn bit_fields_with_padding_and_sign() {
    let entries = vec![("s".to_string(), 4, IntPrim::i8_be()), ("t".to_string(), 3, IntPrim::u8_be())];
    let bits = BitPrim { entries: entries, num_bytes: 2 };
    let bytes: Vec<u8> = vec![0xF4, 0xFF];
    let mut pos: usize = 0;
    let mut map = ValueMap::new(Vec::new());
    assert!(decode_bits(&bits, &bytes, &mut pos, &mut map).is_ok());
    assert_eq!(pos, 2);
    assert!(map.lookup(&"s".to_string()) == Some(Value::I8(-1)));
    assert!(map.lookup(&"t".to_string()) == Some(Value::U8(2)));
}

#[test]
fn bad_bit_fields_are_refused() {
    let too_wide = BitPrim { entries: vec![("w".to_string(), 9, IntPrim::u8_be())], num_bytes: 2 };
    let bytes: Vec<u8> = vec![0xFF, 0xFF];
    let mut pos: usize = 0;
    let mut map = ValueMap::new(Vec::new());
    assert!(decode_bits(&too_wide, &bytes, &mut pos, &mut map) == Err(DecodeError::BadBitField));
    let past_span = BitPrim { entries: vec![("w".to_string(), 16, IntPrim::u16_be())], num_bytes: 1 };
    assert!(decode_bits(&past_span, &bytes, &mut pos, &mut map) == Err(DecodeError::BadBitField));
    let truncated = BitPrim { entries: vec![], num_bytes: 3 };
    assert!(decode_bits(&truncated, &bytes, &mut pos, &mut map) == Err(DecodeError::Truncated));
    assert_eq!(pos, 0);
    assert!(map.values().is_empty());
}

#[test]
fn located_items_decode_at_their_offsets() {
    let items = vec![
        LocItem::new(vec!["r".to_string(), "b".to_string()], Prim::Int(IntPrim::u16_le()), 2),
        LocItem::new(vec!["r".to_string(), "a".to_string()], Prim::Int(IntPrim::u8_be()), 0),
    ];
    let layout = LocLayout::with_items(items);
    let bytes: Vec<u8> = vec![0x05, 0x00, 0x34, 0x12];
    let points = decode_loc_layout(&layout, &bytes).unwrap();
    assert_eq!(points.len(), 2);
    assert_eq!(points[0].name, "b");
    assert!(points[0].val == Value::U16(0x1234));
    assert_eq!(points[1].name, "a");
    assert!(points[1].val == Value::U8(5));
    assert!(decode_loc_item(&layout.loc_items[0], &bytes[..3]) == Err(DecodeError::Truncated));
    assert!(decode_loc_layout(&layout, &bytes[..3]) == Err(DecodeError::Truncated));
    assert_eq!(layout.num_bytes(), Some(4));
}

#[test]
fn value_map_insert_replaces_in_place() {
    let mut map = ValueMap::new(Vec::new());
    map.insert("a".to_string(), ValueEntry::Leaf(Value::U8(1)));
    map.insert("b".to_string(), ValueEntry::Leaf(Value::U8(2)));
    map.insert("a".to_string(), ValueEntry::Leaf(Value::U8(3)));
    assert_eq!(map.value_map.len(), 2);
    assert_eq!(map.value_map[0].0, "a");
    let values = map.values();
    assert!(values[0] == Value::U8(3));
    assert!(values[1] == Value::U8(2));
    let mut outer = ValueMap::new(Vec::new());
    outer.insert("sec".to_string(), ValueEntry::Section(map));
    outer.insert("arr".to_string(), ValueEntry::Array(vec![ValueMap::new(vec![("hidden".to_string(), ValueEntry::Leaf(Value::I8(-1)))])]));
    assert!(outer.lookup(&"b".to_string()) == Some(Value::U8(2)));
    assert!(outer.lookup(&"hidden".to_string()).is_none());
    assert_eq!(outer.values().len(), 3);
}
