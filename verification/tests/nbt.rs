use bytes::{Bytes, BytesMut};
use protocol::{Compound, Decode, DecodeError, Encode, EncodeError, Float32, Float64, List, NBT};

#[test]
fn list() {
    let mut list = List::new();

    list.push(NBT::End());
    list.push(NBT::Byte(7));

    assert!(matches!(list.first().unwrap(), NBT::End()));
    assert!(matches!(list.get(1).unwrap(), NBT::Byte(7)));
}

#[test]
fn compound() {
    let mut compound = Compound::new();

    compound.insert("test".to_owned(), NBT::End());

    assert!(compound.contains_key(&"test".to_string()));
    assert!(matches!(
        compound.get(&"test".to_string()).unwrap(),
        NBT::End()
    ));
}

const HELLO_WORLD: [u8; 33] = [
    0x0a, 0x00, 0x0b, b'h', b'e', b'l', b'l', b'o', b' ', b'w', b'o', b'r', b'l', b'd', 0x08, 0x00,
    0x04, b'n', b'a', b'm', b'e', 0x00, 0x09, b'B', b'a', b'n', b'a', b'n', b'r', b'a', b'm', b'a',
    0x00,
];

#[test]
fn test_test() {
    let mut data = vec![10];
    data.extend_from_slice(&HELLO_WORLD);

    let tag: NBT = Decode::decode(&mut data.as_slice()).unwrap();

    if let NBT::Compound(mut compound) = tag {
        let mut hello: Compound = match compound.remove("hello world").unwrap() {
            NBT::Compound(hello) => hello,
            other => panic!("not a compound: {:?}", other),
        };

        assert_eq!(
            hello.get(&"name".to_owned()).unwrap(),
            &NBT::String("Bananrama".to_owned())
        );

        hello.insert("name".to_owned(), NBT::String("awawa".to_owned()));

        assert_eq!(
            hello.get(&"name".to_owned()).unwrap(),
            &NBT::String("awawa".to_owned())
        );
    } else {
        panic!("not a compound");
    }
}

fn bytes_of(tag: &NBT) -> Vec<u8> {
    let mut buf = BytesMut::new();
    tag.encode(&mut buf).unwrap();
    buf.to_vec()
}

fn round_trip(tag: NBT) {
    let mut bytes = bytes_of(&tag);
    bytes.extend_from_slice(&[0x0A, 0xFF]);
    let mut rdr = &bytes[..];
    assert_eq!(NBT::decode(&mut rdr).unwrap(), tag);
    assert_eq!(rdr, &[0x0A, 0xFF]);
}

fn compound_of(entries: Vec<(&str, NBT)>) -> NBT {
    let mut c = Compound::new();
    for (k, v) in entries {
        c.insert(k.to_owned(), v);
    }
    NBT::Compound(c)
}

#[test]
fn hello_world_is_written_as_it_is_read() {
    let inner = compound_of(vec![("name", NBT::String("Bananrama".to_owned()))]);
    let mut buf = BytesMut::new();
    buf.extend_from_slice(&[10, 0, 11]);
    buf.extend_from_slice(b"hello world");
    inner.encode_payload(&mut buf).unwrap();
    assert_eq!(&buf[..], &HELLO_WORLD[..]);
    let outer = compound_of(vec![("hello world", inner)]);
    let mut expected = vec![10];
    expected.extend_from_slice(&HELLO_WORLD);
    expected.push(0);
    assert_eq!(bytes_of(&outer), expected);
}

#[test]
fn scalars_exact_bytes() {
    assert_eq!(bytes_of(&NBT::End()), vec![0]);
    assert_eq!(bytes_of(&NBT::Byte(-1)), vec![1, 0xFF]);
    assert_eq!(bytes_of(&NBT::Short(0x0102)), vec![2, 1, 2]);
    assert_eq!(bytes_of(&NBT::Int(-2)), vec![3, 0xFF, 0xFF, 0xFF, 0xFE]);
    assert_eq!(bytes_of(&NBT::Long(1)), vec![4, 0, 0, 0, 0, 0, 0, 0, 1]);
    assert_eq!(
        bytes_of(&NBT::Float(Float32(1.0f32.to_bits()))),
        vec![5, 0x3F, 0x80, 0, 0]
    );
    assert_eq!(
        bytes_of(&NBT::Double(Float64(1.0f64.to_bits()))),
        vec![6, 0x3F, 0xF0, 0, 0, 0, 0, 0, 0]
    );
    assert_eq!(bytes_of(&NBT::ByteArray(Bytes::from(vec![9, 8]))), vec![7, 0, 0, 0, 2, 9, 8]);
    assert_eq!(bytes_of(&NBT::String("hi".to_owned())), vec![8, 0, 2, b'h', b'i']);
    assert_eq!(
        bytes_of(&NBT::IntArray(vec![1, -1])),
        vec![11, 0, 0, 0, 2, 0, 0, 0, 1, 0xFF, 0xFF, 0xFF, 0xFF]
    );
    assert_eq!(
        bytes_of(&NBT::LongArray(vec![2])),
        vec![12, 0, 0, 0, 1, 0, 0, 0, 0, 0, 0, 0, 2]
    );
}

#[test]
fn every_kind_round_trips() {
    round_trip(NBT::End());
    round_trip(NBT::Byte(i8::MIN));
    round_trip(NBT::Short(i16::MIN));
    round_trip(NBT::Int(i32::MAX));
    round_trip(NBT::Long(i64::MIN));
    round_trip(NBT::Float(Float32(0x7FC0_0001)));
    round_trip(NBT::Double(Float64(f64::MAX.to_bits())));
    round_trip(NBT::ByteArray(Bytes::new()));
    round_trip(NBT::ByteArray(Bytes::from(vec![0, 255, 7])));
    round_trip(NBT::String(String::new()));
    round_trip(NBT::String("gr\u{fc}\u{df}e \u{1F600}".to_owned()));
    round_trip(NBT::IntArray(vec![i32::MIN, 0, i32::MAX]));
    round_trip(NBT::LongArray(vec![i64::MIN, 0, i64::MAX]));
    round_trip(NBT::List(List(vec![NBT::End(), NBT::End()])));
    round_trip(NBT::List(List(vec![
        NBT::List(List(vec![NBT::Byte(1)])),
        NBT::List(List(vec![])),
        NBT::List(List(vec![NBT::String("x".to_owned())])),
    ])));
}

#[test]
fn nested_compound_with_a_list_of_bytes_round_trips() {
    let tag = compound_of(vec![
        (
            "inner",
            compound_of(vec![
                ("bytes", NBT::List(List(vec![NBT::Byte(1), NBT::Byte(2), NBT::Byte(3)]))),
                ("empty", compound_of(vec![])),
            ]),
        ),
        ("after", NBT::Int(7)),
        ("", NBT::Short(1)),
    ]);
    let bytes = bytes_of(&tag);
    assert_eq!(
        bytes,
        vec![
            10, 10, 0, 5, b'i', b'n', b'n', b'e', b'r', 9, 0, 5, b'b', b'y', b't', b'e', b's', 1,
            0, 0, 0, 3, 1, 2, 3, 10, 0, 5, b'e', b'm', b'p', b't', b'y', 0, 0, 3, 0, 5, b'a', b'f',
            b't', b'e', b'r', 0, 0, 0, 7, 2, 0, 0, 0, 1, 0,
        ]
    );
    round_trip(tag);
}

#[test]
fn empty_list_is_end_and_zero() {
    let tag = NBT::List(List::new());
    assert_eq!(bytes_of(&tag), vec![9, 0, 0, 0, 0, 0]);
    round_trip(tag);
    round_trip(NBT::List(List::with_capacity(4)));
}

#[test]
fn list_of_mixed_kinds_is_refused() {
    let tag = NBT::List(List(vec![NBT::Byte(1), NBT::Short(2)]));
    let mut buf = BytesMut::new();
    buf.extend_from_slice(&[42]);
    assert_eq!(tag.encode(&mut buf), Err(EncodeError::MixedList));
    assert_eq!(&buf[..], &[42]);
    let nested = compound_of(vec![("a", NBT::Int(1)), ("bad", tag)]);
    assert_eq!(nested.encode(&mut buf), Err(EncodeError::MixedList));
    assert_eq!(&buf[..], &[42]);
}

#[test]
fn end_as_a_compound_value_is_refused() {
    let tag = compound_of(vec![("test", NBT::End())]);
    let mut buf = BytesMut::new();
    assert_eq!(tag.encode(&mut buf), Err(EncodeError::EndInCompound));
    assert!(buf.is_empty());
}

#[test]
fn long_names_and_strings_are_refused() {
    let long = "a".repeat(65536);
    let mut buf = BytesMut::new();
    assert_eq!(
        NBT::String(long.clone()).encode(&mut buf),
        Err(EncodeError::SizeExceeded)
    );
    let mut c = Compound::new();
    c.insert(long, NBT::Byte(1));
    assert_eq!(NBT::Compound(c).encode(&mut buf), Err(EncodeError::SizeExceeded));
    assert!(buf.is_empty());
    NBT::String("a".repeat(65535)).encode(&mut buf).unwrap();
    assert_eq!(buf.len(), 1 + 2 + 65535);
}

#[test]
fn compound_keeps_the_order_of_first_insertion() {
    let mut c = Compound::new();
    assert!(c.is_empty());
    assert_eq!(c.insert("a".to_owned(), NBT::Byte(1)), None);
    assert_eq!(c.insert("b".to_owned(), NBT::Byte(2)), None);
    assert_eq!(c.insert("a".to_owned(), NBT::Byte(3)), Some(NBT::Byte(1)));
    assert_eq!(c.len(), 2);
    assert_eq!(c.get("a"), Some(&NBT::Byte(3)));
    assert_eq!(c.get("c"), None);
    assert!(!c.contains_key("c"));
    assert_eq!(
        bytes_of(&NBT::Compound(c)),
        vec![10, 1, 0, 1, b'a', 3, 1, 0, 1, b'b', 2, 0]
    );
}

#[test]
fn compound_remove_moves_the_rest_up() {
    let mut c = Compound::new();
    c.insert("a".to_owned(), NBT::Byte(1));
    c.insert("b".to_owned(), NBT::Byte(2));
    c.insert("c".to_owned(), NBT::Byte(3));
    assert_eq!(c.remove("a"), Some(NBT::Byte(1)));
    assert_eq!(c.remove("a"), None);
    assert_eq!(
        bytes_of(&NBT::Compound(c)),
        vec![10, 1, 0, 1, b'b', 2, 1, 0, 1, b'c', 3, 0]
    );
}

#[test]
fn a_name_read_twice_keeps_its_first_place_and_last_value() {
    let bytes = [10, 1, 0, 1, b'a', 1, 1, 0, 1, b'b', 2, 1, 0, 1, b'a', 3, 0];
    let mut rdr = &bytes[..];
    let tag = NBT::decode(&mut rdr).unwrap();
    assert!(rdr.is_empty());
    assert_eq!(
        tag,
        compound_of(vec![("a", NBT::Byte(3)), ("b", NBT::Byte(2))])
    );
}

#[test]
fn compound_ends_with_the_input_too() {
    let bytes = [10, 1, 0, 1, b'a', 1];
    let mut rdr = &bytes[..];
    assert_eq!(
        NBT::decode(&mut rdr).unwrap(),
        compound_of(vec![("a", NBT::Byte(1))])
    );
    assert!(rdr.is_empty());
}

#[test]
fn list_with_a_count_that_is_not_positive_is_empty() {
    let mut rdr: &[u8] = &[9, 3, 0xFF, 0xFF, 0xFF, 0xFF, 5];
    assert_eq!(NBT::decode(&mut rdr).unwrap(), NBT::List(List::new()));
    assert_eq!(rdr, &[5]);
    let mut rdr: &[u8] = &[9, 200, 0, 0, 0, 0];
    assert_eq!(NBT::decode(&mut rdr).unwrap(), NBT::List(List::new()));
}

#[test]
fn unknown_tag_is_refused() {
    let mut rdr: &[u8] = &[13, 0, 0];
    assert_eq!(NBT::decode(&mut rdr), Err(DecodeError::UnknownTag));
    assert_eq!(rdr.len(), 3);
    let mut rdr: &[u8] = &[9, 13, 0, 0, 0, 1, 0];
    assert_eq!(NBT::decode(&mut rdr), Err(DecodeError::UnknownTag));
    assert_eq!(rdr.len(), 7);
    let mut rdr: &[u8] = &[10, 99, 0, 1, b'a', 0];
    assert_eq!(NBT::decode(&mut rdr), Err(DecodeError::UnknownTag));
    let mut rdr: &[u8] = &[1, 2];
    assert_eq!(NBT::decode_payload(&mut rdr, 200), Err(DecodeError::UnknownTag));
}

#[test]
fn broken_tags_take_nothing() {
    let mut rdr: &[u8] = &[];
    assert_eq!(NBT::decode(&mut rdr), Err(DecodeError::UnexpectedEof));
    let mut rdr: &[u8] = &[3, 0, 0];
    assert_eq!(NBT::decode(&mut rdr), Err(DecodeError::UnexpectedEof));
    assert_eq!(rdr.len(), 3);
    let mut rdr: &[u8] = &[7, 0xFF, 0xFF, 0xFF, 0xFF];
    assert_eq!(NBT::decode(&mut rdr), Err(DecodeError::NegativeLength));
    let mut rdr: &[u8] = &[7, 0, 0, 0, 3, 1, 2];
    assert_eq!(NBT::decode(&mut rdr), Err(DecodeError::UnexpectedEof));
    let mut rdr: &[u8] = &[11, 0x80, 0, 0, 0];
    assert_eq!(NBT::decode(&mut rdr), Err(DecodeError::NegativeLength));
    let mut rdr: &[u8] = &[12, 0, 0, 0, 1, 0, 0, 0];
    assert_eq!(NBT::decode(&mut rdr), Err(DecodeError::UnexpectedEof));
    let mut rdr: &[u8] = &[8, 0, 2, 0xC3, 0x28];
    assert_eq!(NBT::decode(&mut rdr), Err(DecodeError::InvalidUtf8));
    let mut rdr: &[u8] = &[8, 0, 5, b'a'];
    assert_eq!(NBT::decode(&mut rdr), Err(DecodeError::UnexpectedEof));
    let mut rdr: &[u8] = &[10, 1, 0, 1, b'a', 1, 8, 0, 1, 0xFF, 0, 0];
    assert_eq!(NBT::decode(&mut rdr), Err(DecodeError::InvalidUtf8));
    assert_eq!(rdr.len(), 12);
    let mut rdr: &[u8] = &[9, 1, 0, 0, 0, 2, 5];
    assert_eq!(NBT::decode(&mut rdr), Err(DecodeError::UnexpectedEof));
    assert_eq!(rdr.len(), 7);
}

#[test]
fn ids_follow_the_kinds() {
    let tags = vec![
        NBT::End(),
        NBT::Byte(0),
        NBT::Short(0),
        NBT::Int(0),
        NBT::Long(0),
        NBT::Float(Float32(0)),
        NBT::Double(Float64(0)),
        NBT::ByteArray(Bytes::new()),
        NBT::String(String::new()),
        NBT::List(List::new()),
        NBT::Compound(Compound::new()),
        NBT::IntArray(vec![]),
        NBT::LongArray(vec![]),
    ];
    for (i, tag) in tags.iter().enumerate() {
        assert_eq!(tag.id() as usize, i);
    }
    let list = List(tags);
    assert_eq!(list.len(), 13);
    assert!(!list.is_empty());
    assert!(list.get(13).is_none());
}

#[test]
fn a_copy_holds_the_same_value() {
    let tag = compound_of(vec![
        ("list", NBT::List(List(vec![NBT::String("a".to_owned()), NBT::String("b".to_owned())]))),
        ("bytes", NBT::ByteArray(Bytes::from(vec![1, 2]))),
        ("inner", compound_of(vec![("x", NBT::Double(Float64(5)))])),
    ]);
    let copy = tag.clone();
    assert_eq!(copy, tag);
    assert_eq!(bytes_of(&copy), bytes_of(&tag));
    assert_eq!(tag.copy(), tag);
    if let NBT::Compound(c) = &tag {
        let mut d = c.clone();
        assert_eq!(&d, c);
        d.insert("more".to_owned(), NBT::Byte(1));
        assert_eq!(c.len(), 3);
        assert_eq!(d.len(), 4);
        assert_eq!(d.get_index(3), Some(("more", &NBT::Byte(1))));
        assert_eq!(c.get_index(1), Some(("bytes", &NBT::ByteArray(Bytes::from(vec![1, 2])))));
        assert_eq!(c.get_index(3), None);
    } else {
        panic!("not a compound");
    }
    let list = List(vec![NBT::Int(1)]);
    assert_eq!(list.clone(), list);
}
