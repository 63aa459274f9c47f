use gasworks::choice::{choice_points, identify_locpacket, identify_locpacket_with};
use gasworks::csv::{csv_line, field_names, layout_csvheader, layoutpacket_csvheader, loclayout_csvheader};
use gasworks::decode::DecodeError;
use gasworks::dynamic::{decode_layoutpacket, decode_layoutpacket_with, SubcomPolicy};
use gasworks::layout::Layout;
use gasworks::prim::{IntPrim, NumBytes, Prim};
use gasworks::types::{ArrSize, Item, LayoutPacketDef, LocItem, LocPacketDef, PacketDef};
use gasworks::value::{Value, ValueEntry};
use gasworks::{array_fixed, array_var, item, leaf, u16_be, u32_le, u8_be, val_enum, val_i16, val_u8};

fn names_of(items: &[LocItem]) -> Vec<Vec<String>> {
    items.iter().map(|i| i.name.clone()).collect()
}

#[test]
fn locate_nests_paths_and_offsets() {
    let def: LayoutPacketDef = gasworks::seq(
        "pkt".to_string(),
        vec![u8_be("a"), gasworks::seq("hdr".to_string(), vec![u16_be("b"), u32_le("c")]), u8_be("d")],
    );
    let located = def.locate().unwrap();
    let locs: Vec<u64> = located.loc_items.iter().map(|i| i.loc).collect();
    assert_eq!(locs, vec![0, 1, 3, 7]);
    assert_eq!(
        names_of(&located.loc_items),
        vec![
            vec!["pkt".to_string(), "a".to_string()],
            vec!["pkt".to_string(), "hdr".to_string(), "b".to_string()],
            vec!["pkt".to_string(), "hdr".to_string(), "c".to_string()],
            vec!["pkt".to_string(), "d".to_string()],
        ]
    );
    assert_eq!(def.num_bytes(), Some(8));
    assert_eq!(located.num_bytes(), Some(8));
}

#[test]
fn fixed_array_offsets_are_linear() {
    let element = gasworks::seq("e".to_string(), vec![u16_be("x"), u8_be("y")]);
    let def = gasworks::seq("p".to_string(), vec![u8_be("head"), array_fixed("arr".to_string(), 3, element)]);
    let located = def.locate().unwrap();
    let locs: Vec<u64> = located.loc_items.iter().map(|i| i.loc).collect();
    assert_eq!(locs, vec![0, 1, 3, 4, 6, 7, 9]);
    assert_eq!(located.loc_items[3].name, vec!["p".to_string(), "arr[1]".to_string(), "e".to_string(), "x".to_string()]);
    assert_eq!(located.loc_items[6].name[1], "arr[2]");
    assert_eq!(def.num_bytes(), Some(10));
}

#[test]
fn branches_and_variable_arrays_are_not_locatable() {
    let var = gasworks::seq("p".to_string(), vec![u8_be("n"), array_var("xs".to_string(), "n".to_string(), u8_be("x"))]);
    assert!(var.locate().is_none());
    assert_eq!(var.num_bytes(), None);
    let sub: LayoutPacketDef = PacketDef::Subcom(
        "s".to_string(),
        item("kind", Prim::Int(IntPrim::u8_be())),
        vec![
            (item("k1", Prim::Int(IntPrim::u8_be())), u32_le("wide")),
            (item("k2", Prim::Int(IntPrim::u8_be())), u8_be("narrow")),
        ],
    );
    assert!(sub.locate().is_none());
    assert_eq!(sub.num_bytes(), Some(4));
}

#[test]
fn names_are_listed_once() {
    let def = gasworks::seq("p".to_string(), vec![u8_be("a"), u8_be("b"), gasworks::seq("q".to_string(), vec![u8_be("a")])]);
    let mut names = def.names();
    names.sort();
    assert_eq!(names, vec!["a".to_string(), "b".to_string()]);
}

#[test]
fn dynamic_decoder_nests_sections_and_arrays() {
    let def = gasworks::seq(
        "p".to_string(),
        vec![
            u8_be("count"),
            array_var("xs".to_string(), "count".to_string(), gasworks::seq("e".to_string(), vec![u8_be("x")])),
            array_fixed("fixed".to_string(), 2, u8_be("f")),
            array_var("none".to_string(), "missing".to_string(), u8_be("z")),
        ],
    );
    let bytes: Vec<u8> = vec![2, 10, 11, 20, 21, 99];
    let mut pos: usize = 0;
    let map = decode_layoutpacket(&def, &bytes, &mut pos).unwrap();
    assert_eq!(pos, 5);
    assert!(map.lookup(&"count".to_string()) == Some(Value::U8(2)));
    let values = map.values();
    assert_eq!(values.len(), 5);
    assert!(values[1] == Value::U8(10));
    assert!(values[2] == Value::U8(11));
    assert!(values[4] == Value::U8(21));
    match &map.value_map[0].1 {
        ValueEntry::Section(p) => match &p.value_map[1].1 {
            ValueEntry::Array(xs) => assert_eq!(xs.len(), 2),
            _ => panic!("expected an array"),
        },
        _ => panic!("expected a section"),
    }
    assert!(map.lookup(&"x".to_string()).is_none());
}

#[test]
fn dynamic_decoder_reports_bad_counts_and_truncation() {
    let def = gasworks::seq(
        "p".to_string(),
        vec![gasworks::i8_be("count"), array_var("xs".to_string(), "count".to_string(), u8_be("x"))],
    );
    let bytes: Vec<u8> = vec![0xFF, 1];
    let mut pos: usize = 0;
    assert!(decode_layoutpacket(&def, &bytes, &mut pos).err() == Some(DecodeError::BadArrayCount));
    let short: Vec<u8> = vec![3, 1];
    let unsigned = gasworks::seq("p".to_string(), vec![u8_be("count"), array_var("xs".to_string(), "count".to_string(), u8_be("x"))]);
    let mut pos: usize = 0;
    assert!(decode_layoutpacket(&unsigned, &short, &mut pos).err() == Some(DecodeError::Truncated));
}

fn subcom_def() -> LayoutPacketDef {
    gasworks::seq(
        "p".to_string(),
        vec![
            u8_be("one"),
            u8_be("two"),
            PacketDef::Subcom(
                "s".to_string(),
                item("kind", Prim::Int(IntPrim::u8_be())),
                vec![
                    (item("one", Prim::Int(IntPrim::u8_be())), u16_be("first")),
                    (item("two", Prim::Int(IntPrim::u8_be())), u8_be("second")),
                ],
            ),
            u8_be("tail"),
        ],
    )
}

#[test]
fn subcom_decodes_the_first_matching_branch() {
    let bytes: Vec<u8> = vec![1, 2, 2, 7, 8];
    let mut pos: usize = 0;
    let map = decode_layoutpacket(&subcom_def(), &bytes, &mut pos).unwrap();
    assert_eq!(pos, 5);
    assert!(map.lookup(&"second".to_string()) == Some(Value::U8(7)));
    assert!(map.lookup(&"first".to_string()).is_none());
    assert!(map.lookup(&"tail".to_string()) == Some(Value::U8(8)));
}

#[test]
fn subcom_without_a_match_is_skipped() {
    let bytes: Vec<u8> = vec![1, 2, 9, 7];
    let mut pos: usize = 0;
    let map = decode_layoutpacket(&subcom_def(), &bytes, &mut pos).unwrap();
    assert_eq!(pos, 4);
    assert!(map.lookup(&"kind".to_string()) == Some(Value::U8(9)));
    assert!(map.lookup(&"first".to_string()).is_none());
    assert!(map.lookup(&"second".to_string()).is_none());
    assert!(map.lookup(&"tail".to_string()) == Some(Value::U8(7)));
    assert_eq!(map.values().len(), 4);
}

#[test]
fn choice_points_list_discriminants_and_counts() {
    let mut def = subcom_def();
    if let PacketDef::Sequence(_, children) = &mut def {
        children.push(array_var("xs".to_string(), "one".to_string(), u8_be("x")));
    }
    let points = choice_points(&def);
    let mut names: Vec<String> = points.iter().map(|p| p.0.clone()).collect();
    names.sort();
    assert_eq!(names, vec!["kind".to_string(), "one".to_string()]);
    assert!(points.iter().all(|p| p.1.is_none()));
}

#[test]
fn identify_resolves_branches_for_one_record() {
    let li = |n: &str, loc: u64| LocItem::new(vec![n.to_string()], Prim::Int(IntPrim::u8_be()), loc);
    let def: LocPacketDef = PacketDef::Sequence(
        "p".to_string(),
        vec![
            PacketDef::Leaf(li("n", 0)),
            PacketDef::Subcom(
                "s".to_string(),
                li("n", 0),
                vec![(li("k0", 1), PacketDef::Leaf(li("a", 3))), (li("k1", 2), PacketDef::Leaf(li("b", 4)))],
            ),
            PacketDef::Array("xs".to_string(), ArrSize::Var("n".to_string()), Box::new(PacketDef::Leaf(li("x", 5)))),
        ],
    );
    let bytes: Vec<u8> = vec![2, 1, 2, 0, 0, 0];
    let layout = identify_locpacket(&def, &bytes).unwrap();
    let locs: Vec<u64> = layout.loc_items.iter().map(|i| i.loc).collect();
    assert_eq!(locs, vec![0, 4, 5, 5]);
    assert!(identify_locpacket(&def, &bytes[..1]).is_err());
}

#[test]
fn layout_locates_alternatives_over_the_same_bytes() {
    let layout = Layout::Sequence(
        "s".to_string(),
        vec![
            Layout::All(
                "all".to_string(),
                vec![
                    Layout::Prim(Item::new("a".to_string(), Prim::Int(IntPrim::u32_be()))),
                    Layout::Prim(Item::new("b".to_string(), Prim::Int(IntPrim::u8_be()))),
                ],
            ),
            Layout::Array("arr".to_string(), 2, Box::new(Layout::Prim(Item::new("c".to_string(), Prim::Int(IntPrim::u16_be()))))),
        ],
    );
    assert_eq!(layout.num_bytes(), Some(8));
    let located = layout.locate().unwrap();
    let locs: Vec<u64> = located.loc_items.iter().map(|i| i.loc).collect();
    assert_eq!(locs, vec![0, 0, 4, 6]);
    assert_eq!(located.loc_items[3].name, vec!["s".to_string(), "arr[1]".to_string(), "c".to_string()]);
    let mut names = layout.names();
    names.sort();
    assert_eq!(names, vec!["a".to_string(), "b".to_string(), "c".to_string()]);
    let bits = Layout::Bits(gasworks::prim::BitPrim { entries: vec![], num_bytes: 1 });
    assert!(bits.locate().is_none());
}

#[test]
fn header_lines_and_filtering() {
    let def = gasworks::seq("p".to_string(), vec![u8_be("a"), u16_be("b"), u8_be("c")]);
    let mut located = def.locate().unwrap();
    assert_eq!(loclayout_csvheader(&located), "a,b,c,\n");
    located.retain_named(&vec!["c".to_string(), "a".to_string()]);
    assert_eq!(field_names(&located), vec!["a".to_string(), "c".to_string()]);
    assert_eq!(csv_line(&vec![]), "\n");
    let twice = gasworks::seq("p".to_string(), vec![u8_be("a"), u8_be("a")]);
    assert_eq!(layoutpacket_csvheader(&twice), "a,\n");
    let layout = Layout::Prim(Item::new("only".to_string(), Prim::Int(IntPrim::u8_be())));
    assert_eq!(layout_csvheader(&layout), "only,\n");
}

#[test]
fn values_convert_to_integers() {
    assert_eq!(val_u8(7).value(), Some(7));
    assert_eq!(val_i16(-3).value(), Some(-3));
    assert_eq!(val_enum("Five".to_string(), 5).value(), Some(5));
    assert_eq!(Value::U64(u64::MAX).value(), Some(u64::MAX as i128));
    assert_eq!(Value::F32(1.5f32.to_bits()).value(), None);
    assert_eq!(Value::F64(1.5f64.to_bits()).value(), None);
    assert!(val_enum("A".to_string(), 1) != val_enum("B".to_string(), 1));
    assert_eq!(Prim::Int(IntPrim::u64_le()).num_bytes(), 8);
}

#[test]
fn leaf_builders_carry_their_types() {
    match gasworks::f64_le("t") {
        PacketDef::Leaf(it) => {
            assert_eq!(it.name, "t");
            assert_eq!(it.num_bytes(), 8);
        },
        _ => panic!("expected a leaf"),
    }
    match gasworks::i8_be("s") {
        PacketDef::Leaf(it) => assert!(it.typ == Prim::Int(IntPrim::i8_be())),
        _ => panic!("expected a leaf"),
    }
    let l: LayoutPacketDef = leaf(item("z", Prim::Int(IntPrim::u16_le())));
    assert_eq!(l.num_bytes(), Some(2));
}

#[test]
fn strict_policy_refuses_an_unmatched_branch() {
    let bytes: Vec<u8> = vec![1, 2, 9, 7];
    let mut pos: usize = 0;
    let r = decode_layoutpacket_with(SubcomPolicy::Strict, &subcom_def(), &bytes, &mut pos);
    assert!(r.err() == Some(DecodeError::NoBranchMatch));
    let matched: Vec<u8> = vec![1, 2, 2, 7, 8];
    let mut pos: usize = 0;
    let map = decode_layoutpacket_with(SubcomPolicy::Strict, &subcom_def(), &matched, &mut pos).unwrap();
    assert!(map.lookup(&"second".to_string()) == Some(Value::U8(7)));
    let mut pos: usize = 0;
    assert!(decode_layoutpacket_with(SubcomPolicy::Permissive, &subcom_def(), &bytes, &mut pos).is_ok());
}

#[test]
fn strict_policy_applies_to_located_branches() {
    let li = |n: &str, loc: u64| LocItem::new(vec![n.to_string()], Prim::Int(IntPrim::u8_be()), loc);
    let def: LocPacketDef = PacketDef::Subcom(
        "s".to_string(),
        li("d", 0),
        vec![(li("k", 1), PacketDef::Leaf(li("a", 2)))],
    );
    let unmatched: Vec<u8> = vec![4, 5, 6];
    assert!(identify_locpacket(&def, &unmatched).unwrap().loc_items.is_empty());
    assert!(identify_locpacket_with(SubcomPolicy::Strict, &def, &unmatched).err() == Some(DecodeError::NoBranchMatch));
    let matched: Vec<u8> = vec![5, 5, 6];
    assert_eq!(identify_locpacket_with(SubcomPolicy::Strict, &def, &matched).unwrap().loc_items.len(), 1);
}
