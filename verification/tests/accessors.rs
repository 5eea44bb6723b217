use nbt::{NbtParseError, NbtTag};

fn sample() -> NbtTag {
    NbtTag::Compound(
        "root".to_string(),
        vec![
            NbtTag::Byte("byte".to_string(), -1),
            NbtTag::Short("short".to_string(), 2),
            NbtTag::Int("int".to_string(), 3),
            NbtTag::Long("long".to_string(), 4),
            NbtTag::Float("float".to_string(), 2.5_f32.to_bits()),
            NbtTag::Double("double".to_string(), 6.5_f64.to_bits()),
            NbtTag::ByteArray("bytes".to_string(), vec![7, -7]),
            NbtTag::String("text".to_string(), "eight".to_string()),
            NbtTag::List("list".to_string(), vec![NbtTag::Int(String::new(), 9)]),
            NbtTag::Compound("comp".to_string(), vec![NbtTag::Int("ten".to_string(), 10)]),
            NbtTag::IntArray("ints".to_string(), vec![11, 12]),
            NbtTag::LongArray("longs".to_string(), vec![13]),
            NbtTag::String("int".to_string(), "second of that name".to_string()),
            NbtTag::Int("".to_string(), 14),
        ],
    )
}

#[test]
fn typed_accessors_give_the_values() {
    let tag = sample();
    assert_eq!(tag.get_byte("byte"), Ok(-1));
    assert_eq!(tag.get_short("short"), Ok(2));
    assert_eq!(tag.get_int("int"), Ok(3));
    assert_eq!(tag.get_long("long"), Ok(4));
    assert_eq!(tag.get_float("float").map(f32::from_bits), Ok(2.5));
    assert_eq!(tag.get_double("double").map(f64::from_bits), Ok(6.5));
    assert_eq!(tag.get_byte_array("bytes"), Ok(vec![7, -7]));
    assert_eq!(tag.get_string("text"), Ok("eight".to_string()));
    assert_eq!(tag.get_list("list"), Ok(vec![NbtTag::Int(String::new(), 9)]));
    assert_eq!(tag.get_compound("comp"), Ok(vec![NbtTag::Int("ten".to_string(), 10)]));
    assert_eq!(tag.get_int_array("ints"), Ok(vec![11, 12]));
    assert_eq!(tag.get_long_array("longs"), Ok(vec![13]));
    assert_eq!(tag.get_int(""), Ok(14));
}

#[test]
fn get_gives_a_copy_of_the_first_child_of_that_name() {
    let tag = sample();
    assert_eq!(tag.get("int"), Ok(NbtTag::Int("int".to_string(), 3)));
    assert_eq!(
        tag.get("comp"),
        Ok(NbtTag::Compound("comp".to_string(), vec![NbtTag::Int("ten".to_string(), 10)]))
    );
    let twice = NbtTag::Compound(
        String::new(),
        vec![NbtTag::String("x".to_string(), "first".to_string()), NbtTag::Int("x".to_string(), 2)],
    );
    assert_eq!(twice.get_string("x"), Ok("first".to_string()));
    assert_eq!(
        twice.get_int("x"),
        Err(NbtParseError::WrongType("int".to_string(), "string".to_string()))
    );
}

#[test]
fn a_missing_name_is_no_such_value() {
    let tag = sample();
    assert_eq!(tag.get_int("missing"), Err(NbtParseError::NoSuchValue("missing".to_string())));
    assert_eq!(tag.get("Int"), Err(NbtParseError::NoSuchValue("Int".to_string())));
    assert_eq!(tag.get("ten"), Err(NbtParseError::NoSuchValue("ten".to_string())));
    let empty = NbtTag::Compound("c".to_string(), vec![]);
    assert_eq!(empty.get_string(""), Err(NbtParseError::NoSuchValue(String::new())));
}

#[test]
fn a_child_of_another_type_is_wrong_type() {
    let tag = NbtTag::Compound(
        String::new(),
        vec![NbtTag::String("x".to_string(), "text".to_string()), NbtTag::Int("n".to_string(), 1)],
    );
    let wrong = |expected: &str, actual: &str| {
        NbtParseError::WrongType(expected.to_string(), actual.to_string())
    };
    assert_eq!(tag.get_int("x"), Err(wrong("int", "string")));
    assert_eq!(tag.get_byte("x"), Err(wrong("byte", "string")));
    assert_eq!(tag.get_short("x"), Err(wrong("short", "string")));
    assert_eq!(tag.get_long("x"), Err(wrong("long", "string")));
    assert_eq!(tag.get_float("x"), Err(wrong("float", "string")));
    assert_eq!(tag.get_double("x"), Err(wrong("double", "string")));
    assert_eq!(tag.get_byte_array("x"), Err(wrong("byte array", "string")));
    assert_eq!(tag.get_string("n"), Err(wrong("string", "int")));
    assert_eq!(tag.get_list("x"), Err(wrong("list", "string")));
    assert_eq!(tag.get_compound("x"), Err(wrong("compound", "string")));
    assert_eq!(tag.get_int_array("x"), Err(wrong("int array", "string")));
    assert_eq!(tag.get_long_array("n"), Err(wrong("long array", "int")));
}

#[test]
fn a_lookup_on_a_tag_that_is_no_compound_is_refused() {
    let root = NbtTag::Int("x".to_string(), 1);
    assert_eq!(
        root.get_int("x"),
        Err(NbtParseError::TriedGettingFromNonCompound("int".to_string()))
    );
    let list = NbtTag::List("x".to_string(), vec![NbtTag::Int("x".to_string(), 1)]);
    assert_eq!(
        list.get("x"),
        Err(NbtParseError::TriedGettingFromNonCompound("list".to_string()))
    );
    assert_eq!(
        NbtTag::End.get_string(""),
        Err(NbtParseError::TriedGettingFromNonCompound("end".to_string()))
    );
}

#[test]
fn kind_name_names_every_variant() {
    let tags = vec![
        (NbtTag::End, "end"),
        (NbtTag::Byte(String::new(), 0), "byte"),
        (NbtTag::Short(String::new(), 0), "short"),
        (NbtTag::Int(String::new(), 0), "int"),
        (NbtTag::Long(String::new(), 0), "long"),
        (NbtTag::Float(String::new(), 0), "float"),
        (NbtTag::Double(String::new(), 0), "double"),
        (NbtTag::ByteArray(String::new(), vec![]), "byte array"),
        (NbtTag::String(String::new(), String::new()), "string"),
        (NbtTag::List(String::new(), vec![]), "list"),
        (NbtTag::Compound(String::new(), vec![]), "compound"),
        (NbtTag::IntArray(String::new(), vec![]), "int array"),
        (NbtTag::LongArray(String::new(), vec![]), "long array"),
    ];
    for (tag, name) in tags {
        assert_eq!(tag.kind_name(), name);
    }
}

#[test]
fn get_name_gives_the_name_and_nothing_for_end() {
    assert_eq!(NbtTag::End.get_name(), "");
    assert_eq!(NbtTag::Byte("b".to_string(), 0).get_name(), "b");
    assert_eq!(NbtTag::Short("s".to_string(), 0).get_name(), "s");
    assert_eq!(NbtTag::Int("i".to_string(), 0).get_name(), "i");
    assert_eq!(NbtTag::Long("l".to_string(), 0).get_name(), "l");
    assert_eq!(NbtTag::Float("f".to_string(), 0).get_name(), "f");
    assert_eq!(NbtTag::Double("d".to_string(), 0).get_name(), "d");
    assert_eq!(NbtTag::ByteArray("ba".to_string(), vec![]).get_name(), "ba");
    assert_eq!(NbtTag::String("st".to_string(), String::new()).get_name(), "st");
    assert_eq!(NbtTag::List("li".to_string(), vec![]).get_name(), "li");
    assert_eq!(NbtTag::Compound("co".to_string(), vec![]).get_name(), "co");
    assert_eq!(NbtTag::IntArray("ia".to_string(), vec![]).get_name(), "ia");
    assert_eq!(NbtTag::LongArray("la".to_string(), vec![]).get_name(), "la");
}
