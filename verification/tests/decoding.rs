use nbt::nbt_parser::parse_binary;
use nbt::{NbtParseError, NbtTag};

fn named(id: u8, name: &str, value: &[u8]) -> Vec<u8> {
    let mut out = vec![id, (name.len() >> 8) as u8, name.len() as u8];
    out.extend_from_slice(name.as_bytes());
    out.extend_from_slice(value);
    out
}

#[test]
fn every_primitive_decodes_to_its_variant_name_and_value() {
    assert_eq!(parse_binary(named(1, "byte", &[0xcc])), Ok(NbtTag::Byte("byte".to_string(), -52)));
    assert_eq!(parse_binary(named(2, "s", &[0xff, 0xfe])), Ok(NbtTag::Short("s".to_string(), -2)));
    assert_eq!(
        parse_binary(named(3, "i", &[0x7f, 0xff, 0xff, 0xff])),
        Ok(NbtTag::Int("i".to_string(), i32::MAX))
    );
    assert_eq!(
        parse_binary(named(4, "l", &[0x80, 0, 0, 0, 0, 0, 0, 1])),
        Ok(NbtTag::Long("l".to_string(), i64::MIN + 1))
    );
    assert_eq!(
        parse_binary(named(5, "f", &1.5_f32.to_be_bytes())),
        Ok(NbtTag::Float("f".to_string(), 1.5_f32.to_bits()))
    );
    assert_eq!(
        parse_binary(named(6, "d", &(-0.25_f64).to_be_bytes())),
        Ok(NbtTag::Double("d".to_string(), (-0.25_f64).to_bits()))
    );
    assert_eq!(
        parse_binary(named(8, "", &[0, 3, b'a', b'b', b'c'])),
        Ok(NbtTag::String(String::new(), "abc".to_string()))
    );
}

#[test]
fn a_name_may_hold_any_utf8() {
    assert_eq!(
        parse_binary(named(1, "naïve ☃", &[1])),
        Ok(NbtTag::Byte("naïve ☃".to_string(), 1))
    );
}

#[test]
fn the_root_may_be_end() {
    assert_eq!(parse_binary(vec![0]), Ok(NbtTag::End));
    assert_eq!(parse_binary(vec![0, 1, 2, 3]), Ok(NbtTag::End));
}

#[test]
fn empty_input_is_end_of_data() {
    assert_eq!(parse_binary(vec![]), Err(NbtParseError::EndOfData));
}

#[test]
fn bytes_behind_the_root_are_ignored() {
    let mut data = named(3, "n", &[0, 0, 0, 7]);
    data.extend_from_slice(&[13, 0xff, 0xff, 0xff]);
    assert_eq!(parse_binary(data), Ok(NbtTag::Int("n".to_string(), 7)));
}

#[test]
fn an_unknown_id_at_the_root_is_refused() {
    assert_eq!(parse_binary(vec![13, 0, 0, 0]), Err(NbtParseError::UnknownNBT(13)));
    assert_eq!(parse_binary(vec![13]), Err(NbtParseError::UnknownNBT(13)));
    assert_eq!(parse_binary(vec![127, 0, 0]), Err(NbtParseError::UnknownNBT(127)));
    assert_eq!(parse_binary(vec![0xff, 0, 0]), Err(NbtParseError::UnknownNBT(-1)));
}

#[test]
fn an_unknown_id_as_list_element_type_is_refused() {
    let data = named(9, "l", &[13, 0, 0, 0, 1, 0]);
    assert_eq!(parse_binary(data), Err(NbtParseError::UnknownNBT(13)));
    let data = named(9, "l", &[0, 0, 0, 0, 1, 0]);
    assert_eq!(parse_binary(data), Err(NbtParseError::UnknownNBT(0)));
}

#[test]
fn an_unknown_id_inside_a_compound_is_refused() {
    let data = named(10, "c", &[1, 0, 0, 5, 14, 0, 0, 0]);
    assert_eq!(parse_binary(data), Err(NbtParseError::UnknownNBT(14)));
}

#[test]
fn an_empty_list_of_any_element_type_is_accepted() {
    for id in [0_u8, 1, 9, 10, 13, 200] {
        let data = named(9, "l", &[id, 0, 0, 0, 0]);
        assert_eq!(parse_binary(data), Ok(NbtTag::List("l".to_string(), vec![])));
        let data = named(9, "l", &[id, 0xff, 0xff, 0xff, 0xff]);
        assert_eq!(parse_binary(data), Ok(NbtTag::List("l".to_string(), vec![])));
    }
}

#[test]
fn arrays_with_counts_of_zero_or_less_are_empty() {
    for count in [[0_u8, 0, 0, 0], [0xff, 0xff, 0xff, 0xff], [0x80, 0, 0, 0]] {
        assert_eq!(parse_binary(named(7, "a", &count)), Ok(NbtTag::ByteArray("a".to_string(), vec![])));
        assert_eq!(parse_binary(named(11, "a", &count)), Ok(NbtTag::IntArray("a".to_string(), vec![])));
        assert_eq!(parse_binary(named(12, "a", &count)), Ok(NbtTag::LongArray("a".to_string(), vec![])));
    }
}

#[test]
fn a_compound_keeps_its_children_in_order_without_the_end() {
    let data = named(
        10,
        "comp",
        &[
            1, 0, 1, b'a', 1, // byte
            8, 0, 1, b'b', 0, 1, b'x', // string
            11, 0, 1, b'c', 0, 0, 0, 1, 0, 0, 0, 9, // int array
            4, 0, 1, b'a', 0, 0, 0, 0, 0, 0, 0, 2, // long, name used twice
            0,
        ],
    );
    let tree = parse_binary(data).unwrap();
    let expected = vec![
        NbtTag::Byte("a".to_string(), 1),
        NbtTag::String("b".to_string(), "x".to_string()),
        NbtTag::IntArray("c".to_string(), vec![9]),
        NbtTag::Long("a".to_string(), 2),
    ];
    assert_eq!(tree, NbtTag::Compound("comp".to_string(), expected.clone()));
    if let NbtTag::Compound(_, children) = &tree {
        assert_eq!(children.len(), 4);
        assert!(children.iter().all(|child| *child != NbtTag::End));
    } else {
        panic!("not a compound");
    }
}

#[test]
fn a_compound_without_its_end_is_end_of_data() {
    let data = named(10, "c", &[1, 0, 1, b'a', 1]);
    assert_eq!(parse_binary(data), Err(NbtParseError::EndOfData));
}

#[test]
fn a_list_holds_elements_of_one_type_with_empty_names() {
    let data = named(9, "list", &[2, 0, 0, 0, 5, 0x11, 0x22, 0x33, 0x44, 0x55, 0x66, 0x77, 0x88, 0x99, 0xaa]);
    let tree = parse_binary(data).unwrap();
    match tree {
        NbtTag::List(name, items) => {
            assert_eq!(name, "list");
            assert_eq!(items.len(), 5);
            let values: Vec<i16> = vec![0x1122, 0x3344, 0x5566, 0x7788, -26198];
            for (item, value) in items.iter().zip(values) {
                assert_eq!(*item, NbtTag::Short(String::new(), value));
            }
        },
        other => panic!("not a list: {:?}", other),
    }
}

#[test]
fn lists_of_every_element_type_decode() {
    let cases: Vec<(u8, Vec<u8>, NbtTag)> = vec![
        (1, vec![0xff], NbtTag::Byte(String::new(), -1)),
        (2, vec![0, 1], NbtTag::Short(String::new(), 1)),
        (3, vec![0, 0, 0, 1], NbtTag::Int(String::new(), 1)),
        (4, vec![0, 0, 0, 0, 0, 0, 0, 1], NbtTag::Long(String::new(), 1)),
        (5, vec![0x3f, 0x80, 0, 0], NbtTag::Float(String::new(), 1.0_f32.to_bits())),
        (6, vec![0x3f, 0xf0, 0, 0, 0, 0, 0, 0], NbtTag::Double(String::new(), 1.0_f64.to_bits())),
        (7, vec![0, 0, 0, 1, 5], NbtTag::ByteArray(String::new(), vec![5])),
        (8, vec![0, 1, b'z'], NbtTag::String(String::new(), "z".to_string())),
        (9, vec![1, 0, 0, 0, 1, 4], NbtTag::List(String::new(), vec![NbtTag::Byte(String::new(), 4)])),
        (10, vec![1, 0, 1, b'k', 4, 0], NbtTag::Compound(String::new(), vec![NbtTag::Byte("k".to_string(), 4)])),
        (11, vec![0, 0, 0, 1, 0, 0, 0, 5], NbtTag::IntArray(String::new(), vec![5])),
        (12, vec![0, 0, 0, 1, 0, 0, 0, 0, 0, 0, 0, 5], NbtTag::LongArray(String::new(), vec![5])),
    ];
    for (id, element, expected) in cases {
        let mut value = vec![id, 0, 0, 0, 2];
        value.extend_from_slice(&element);
        value.extend_from_slice(&element);
        let data = named(9, "l", &value);
        assert_eq!(
            parse_binary(data),
            Ok(NbtTag::List("l".to_string(), vec![expected.clone(), expected]))
        );
    }
}

#[test]
fn nested_containers_decode_to_depth_three() {
    // compound "root" { list "items" of compound [ { byte "a" = 1 }, { short "b" = 2, list "in" of byte [7, 8] } ], int "after" = 3 }
    let mut data = vec![10, 0, 4, b'r', b'o', b'o', b't'];
    data.extend_from_slice(&[9, 0, 5, b'i', b't', b'e', b'm', b's', 10, 0, 0, 0, 2]);
    data.extend_from_slice(&[1, 0, 1, b'a', 1, 0]);
    data.extend_from_slice(&[2, 0, 1, b'b', 0, 2]);
    data.extend_from_slice(&[9, 0, 2, b'i', b'n', 1, 0, 0, 0, 2, 7, 8]);
    data.push(0);
    data.extend_from_slice(&[3, 0, 5, b'a', b'f', b't', b'e', b'r', 0, 0, 0, 3]);
    data.push(0);
    let expected = NbtTag::Compound(
        "root".to_string(),
        vec![
            NbtTag::List(
                "items".to_string(),
                vec![
                    NbtTag::Compound(String::new(), vec![NbtTag::Byte("a".to_string(), 1)]),
                    NbtTag::Compound(
                        String::new(),
                        vec![
                            NbtTag::Short("b".to_string(), 2),
                            NbtTag::List(
                                "in".to_string(),
                                vec![NbtTag::Byte(String::new(), 7), NbtTag::Byte(String::new(), 8)],
                            ),
                        ],
                    ),
                ],
            ),
            NbtTag::Int("after".to_string(), 3),
        ],
    );
    assert_eq!(parse_binary(data), Ok(expected));
}

#[test]
fn a_list_of_lists_decodes() {
    let data = named(9, "ll", &[9, 0, 0, 0, 2, 3, 0, 0, 0, 1, 0, 0, 0, 5, 13, 0, 0, 0, 0]);
    assert_eq!(
        parse_binary(data),
        Ok(NbtTag::List(
            "ll".to_string(),
            vec![
                NbtTag::List(String::new(), vec![NbtTag::Int(String::new(), 5)]),
                NbtTag::List(String::new(), vec![]),
            ]
        ))
    );
}

#[test]
fn every_cut_of_an_encoding_is_end_of_data() {
    let mut nested = vec![10, 0, 1, b'r'];
    nested.extend_from_slice(&[9, 0, 1, b'l', 10, 0, 0, 0, 2]);
    nested.extend_from_slice(&[8, 0, 1, b's', 0, 4, 0xf0, 0x9f, 0x98, 0x80, 0]);
    nested.extend_from_slice(&[12, 0, 1, b'g', 0, 0, 0, 1, 1, 2, 3, 4, 5, 6, 7, 8, 0]);
    nested.extend_from_slice(&[7, 0, 1, b'b', 0, 0, 0, 2, 1, 2]);
    nested.push(0);
    let encodings: Vec<Vec<u8>> = vec![
        named(1, "byte", &[0xcc]),
        named(2, "short", &[1, 2]),
        named(3, "int", &[1, 2, 3, 4]),
        named(4, "long", &[1, 2, 3, 4, 5, 6, 7, 8]),
        named(5, "float", &[1, 2, 3, 4]),
        named(6, "double", &[1, 2, 3, 4, 5, 6, 7, 8]),
        named(7, "bytes", &[0, 0, 0, 3, 1, 2, 3]),
        named(8, "text", &[0, 5, b'h', 0xc3, 0xa9, b'l', b'o']),
        named(9, "list", &[2, 0, 0, 0, 2, 0, 1, 0, 2]),
        named(10, "comp", &[1, 0, 0, 1, 0]),
        named(11, "ints", &[0, 0, 0, 2, 0, 0, 0, 1, 0, 0, 0, 2]),
        named(12, "longs", &[0, 0, 0, 1, 0, 0, 0, 0, 0, 0, 0, 1]),
        nested,
    ];
    for encoding in encodings {
        assert!(parse_binary(encoding.clone()).is_ok());
        for keep in 0..encoding.len() {
            assert_eq!(
                parse_binary(encoding[..keep].to_vec()),
                Err(NbtParseError::EndOfData),
                "cut to {} of {:?}",
                keep,
                encoding
            );
        }
    }
}

#[test]
fn bad_utf8_in_a_name_or_a_value_is_refused() {
    assert_eq!(parse_binary(vec![1, 0, 1, 0xff, 5]), Err(NbtParseError::StringUtf8Error));
    assert_eq!(
        parse_binary(named(8, "s", &[0, 2, 0xed, 0xa0])),
        Err(NbtParseError::StringUtf8Error)
    );
    // a surrogate, which UTF-8 does not allow
    assert_eq!(
        parse_binary(named(8, "s", &[0, 3, 0xed, 0xa0, 0x80])),
        Err(NbtParseError::StringUtf8Error)
    );
}

#[test]
fn a_clone_equals_the_tree_it_copies() {
    let tree = parse_binary(named(10, "c", &[9, 0, 1, b'l', 8, 0, 0, 0, 1, 0, 1, b'x', 7, 0, 1, b'b', 0, 0, 0, 1, 9, 0]))
        .unwrap();
    assert_eq!(tree.clone(), tree);
    assert_eq!(
        tree,
        NbtTag::Compound(
            "c".to_string(),
            vec![
                NbtTag::List("l".to_string(), vec![NbtTag::String(String::new(), "x".to_string())]),
                NbtTag::ByteArray("b".to_string(), vec![9]),
            ]
        )
    );
}
