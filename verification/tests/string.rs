use bytes::BytesMut;
use protocol::string::{decode_str, encode_str};
use protocol::{Bounded, Decode, DecodeError, Encode, EncodeError, MAX_STRING_LEN};

#[test]
fn string() {
    let a = "str";
    let b = "string".to_owned();
    let c = Bounded::<&str, 11>("bounded_str");
    let d = Bounded::<String, 14>("bounded_string".to_owned());
    let mut buf = BytesMut::new();

    let _ = a.encode(&mut buf);
    let _ = b.encode(&mut buf);
    let _ = c.encode(&mut buf);
    let _ = d.encode(&mut buf);

    let mut buf = &buf.freeze()[..];

    assert_eq!("str", <&str>::decode(&mut buf).unwrap());
    assert_eq!("string", String::decode(&mut buf).unwrap());
    assert_eq!(
        Bounded::<&str, 11>("bounded_str"),
        Bounded::<&str, 11>::decode(&mut buf).unwrap()
    );
    assert_eq!(
        Bounded::<String, 14>("bounded_string".to_owned()),
        Bounded::<String, 14>::decode(&mut buf).unwrap()
    );
}

fn bytes_of<T: Encode>(v: &T) -> Vec<u8> {
    let mut buf = BytesMut::new();
    v.encode(&mut buf).unwrap();
    buf.to_vec()
}

#[test]
fn string_exact_bytes() {
    assert_eq!(bytes_of(&"abc"), vec![3, b'a', b'b', b'c']);
    assert_eq!(bytes_of(&""), vec![0]);
    assert_eq!(bytes_of(&"localhost"), b"\x09localhost".to_vec());
}

#[test]
fn prefix_counts_utf16_code_units() {
    // two bytes, one code unit
    assert_eq!(bytes_of(&"\u{e9}"), vec![1, 0xC3, 0xA9]);
    // three bytes, one code unit
    assert_eq!(bytes_of(&"\u{20ac}"), vec![1, 0xE2, 0x82, 0xAC]);
    // four bytes, two code units
    assert_eq!(bytes_of(&"\u{1F600}"), vec![2, 0xF0, 0x9F, 0x98, 0x80]);
    assert_eq!(
        bytes_of(&"a\u{e9}\u{1F600}z"),
        vec![5, b'a', 0xC3, 0xA9, 0xF0, 0x9F, 0x98, 0x80, b'z']
    );
}

#[test]
fn strings_of_every_width_round_trip() {
    for s in ["", "plain", "\u{e9}t\u{e9}", "\u{20ac}100", "\u{1F600}\u{1F600}", "a\u{1F600}b\u{20ac}c\u{e9}"] {
        let mut bytes = bytes_of(&s);
        bytes.extend_from_slice(&[0x80, 0xBF, 0x01]);
        let mut rdr = &bytes[..];
        assert_eq!(<&str>::decode(&mut rdr).unwrap(), s);
        assert_eq!(rdr, &[0x80, 0xBF, 0x01]);
        let mut rdr = &bytes[..];
        assert_eq!(String::decode(&mut rdr).unwrap(), s);
    }
}

#[test]
fn bounded_string_at_its_bound() {
    let exact = "a".repeat(16);
    let over = "a".repeat(17);
    let mut buf = BytesMut::new();
    Bounded::<&str, 16>(&exact).encode(&mut buf).unwrap();
    assert_eq!(buf.len(), 17);
    let mut rdr = &buf[..];
    assert_eq!(Bounded::<&str, 16>::decode(&mut rdr).unwrap().0, exact);

    let mut buf = BytesMut::new();
    assert_eq!(
        Bounded::<&str, 16>(&over).encode(&mut buf),
        Err(EncodeError::SizeExceeded)
    );
    assert!(buf.is_empty());
    assert_eq!(
        Bounded::<String, 16>(over.clone()).encode(&mut buf),
        Err(EncodeError::SizeExceeded)
    );

    Bounded::<&str, 17>(&over).encode(&mut buf).unwrap();
    let mut rdr = &buf[..];
    assert_eq!(
        Bounded::<&str, 16>::decode(&mut rdr),
        Err(DecodeError::SizeExceeded)
    );
    assert_eq!(rdr.len(), 18);
    let mut rdr = &buf[..];
    assert_eq!(
        Bounded::<String, 16>::decode(&mut rdr),
        Err(DecodeError::SizeExceeded)
    );
}

#[test]
fn bound_counts_code_units_not_bytes() {
    // eight characters of three bytes each: 24 bytes, 8 code units
    let s = "\u{20ac}".repeat(8);
    let mut buf = BytesMut::new();
    Bounded::<&str, 8>(&s).encode(&mut buf).unwrap();
    assert_eq!(buf.len(), 25);
    // four characters of four bytes each: 16 bytes, 8 code units
    let t = "\u{1F600}".repeat(4);
    let mut buf = BytesMut::new();
    Bounded::<&str, 8>(&t).encode(&mut buf).unwrap();
    assert_eq!(
        Bounded::<&str, 7>(&t).encode(&mut buf),
        Err(EncodeError::SizeExceeded)
    );
}

#[test]
fn default_bound_is_32767() {
    assert_eq!(MAX_STRING_LEN, 32767);
    let exact = "a".repeat(32767);
    let over = "a".repeat(32768);
    let mut buf = BytesMut::new();
    exact.encode(&mut buf).unwrap();
    assert_eq!(buf.len(), 3 + 32767);
    let mut rdr = &buf[..];
    assert_eq!(String::decode(&mut rdr).unwrap(), exact);
    let mut buf = BytesMut::new();
    assert_eq!(over.encode(&mut buf), Err(EncodeError::SizeExceeded));
    assert_eq!(over.as_str().encode(&mut buf), Err(EncodeError::SizeExceeded));
    assert!(buf.is_empty());
}

#[test]
fn string_errors_take_nothing() {
    let mut rdr: &[u8] = &[0xFF, 0xFF, 0xFF, 0xFF, 0x0F, b'a'];
    assert_eq!(<&str>::decode(&mut rdr), Err(DecodeError::NegativeLength));
    assert_eq!(rdr.len(), 6);

    let mut rdr: &[u8] = &[3, b'a', b'b'];
    assert_eq!(<&str>::decode(&mut rdr), Err(DecodeError::UnexpectedEof));
    assert_eq!(rdr.len(), 3);

    let mut rdr: &[u8] = &[2, 0xC3, 0x28, b'a'];
    assert_eq!(<&str>::decode(&mut rdr), Err(DecodeError::InvalidUtf8));
    assert_eq!(rdr.len(), 4);

    // one code unit asked for, but the next character takes two
    let mut rdr: &[u8] = &[1, 0xF0, 0x9F, 0x98, 0x80];
    assert_eq!(<&str>::decode(&mut rdr), Err(DecodeError::InvalidUtf8));

    // the last character is cut off
    let mut rdr: &[u8] = &[2, b'a', 0xE2, 0x82];
    assert_eq!(<&str>::decode(&mut rdr), Err(DecodeError::UnexpectedEof));

    let mut rdr: &[u8] = &[0x80];
    assert_eq!(<&str>::decode(&mut rdr), Err(DecodeError::UnexpectedEof));
}

#[test]
fn str_functions_take_the_bound_as_a_value() {
    let mut buf = BytesMut::new();
    encode_str("abc", 3, &mut buf).unwrap();
    assert_eq!(encode_str("abcd", 3, &mut buf), Err(EncodeError::SizeExceeded));
    assert_eq!(&buf[..], &[3, b'a', b'b', b'c']);
    let mut rdr = &buf[..];
    assert_eq!(decode_str(&mut rdr, 2), Err(DecodeError::SizeExceeded));
    assert_eq!(decode_str(&mut rdr, 3).unwrap(), "abc");
    assert!(rdr.is_empty());
}

#[test]
fn bounded_map_keeps_the_bound() {
    let b = Bounded::<&str, 5>("abc");
    let n: Bounded<usize, 5> = b.map(|s| s.len());
    assert_eq!(n.0, 3);
    let s: Bounded<String, 5> = b.map_into();
    assert_eq!(s.0, "abc");
    assert_eq!(*s.borrow(), "abc");
}
