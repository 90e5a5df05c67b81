use bytes::BytesMut;
use protocol::container::{decode_counted, decode_seq, encode_counted, encode_slice};
use protocol::{Decode, DecodeError, Encode, LenPrefixed, RawBytes, VarInt};

#[test]
fn container_encode_decode() {
    let a = Some("aaa".to_string());
    let b: Option<u128> = None;
    let c = vec![0; 10];
    let d: [u16; 3] = [7, 7, 7];
    let mut buf = BytesMut::new();

    let _ = a.encode(&mut buf);

    assert_eq!(5, buf.len());

    let _ = b.encode(&mut buf);
    let _ = c.encode(&mut buf);
    let _ = d.encode(&mut buf);

    let mut buf = &buf.freeze()[..];

    assert_eq!(
        Some("aaa".to_string()),
        <Option<String>>::decode(&mut buf).unwrap()
    );
    assert_eq!(None, <Option<u128>>::decode(&mut buf).unwrap());
    assert_eq!(vec![0; 10], <Vec<i32>>::decode(&mut buf).unwrap());
    assert_eq!([7, 7, 7], <[u16; 3]>::decode(&mut buf).unwrap());
}

fn bytes_of<T: Encode>(v: &T) -> Vec<u8> {
    let mut buf = BytesMut::new();
    v.encode(&mut buf).unwrap();
    buf.to_vec()
}

#[test]
fn option_is_a_flag_and_then_the_value() {
    assert_eq!(bytes_of(&Some(0x0102u16)), vec![1, 1, 2]);
    assert_eq!(bytes_of(&None::<u16>), vec![0]);
    let mut rdr: &[u8] = &[7, 1, 2, 9];
    assert_eq!(<Option<u16>>::decode(&mut rdr).unwrap(), Some(0x0102));
    assert_eq!(rdr, &[9]);
}

#[test]
fn option_without_its_value_takes_nothing() {
    let mut rdr: &[u8] = &[1, 1];
    assert_eq!(<Option<u16>>::decode(&mut rdr), Err(DecodeError::UnexpectedEof));
    assert_eq!(rdr, &[1, 1]);
    let mut empty: &[u8] = &[];
    assert_eq!(<Option<u16>>::decode(&mut empty), Err(DecodeError::UnexpectedEof));
}

#[test]
fn vec_is_a_count_and_then_the_items() {
    assert_eq!(bytes_of(&vec![1u16, 2]), vec![2, 0, 1, 0, 2]);
    assert_eq!(bytes_of(&Vec::<u16>::new()), vec![0]);
    assert_eq!(bytes_of(&LenPrefixed(vec![VarInt(300), VarInt(1)])), vec![2, 0xAC, 0x02, 1]);
}

#[test]
fn vec_with_a_negative_count_is_refused() {
    let mut rdr: &[u8] = &[0xFF, 0xFF, 0xFF, 0xFF, 0x0F, 1, 2];
    assert_eq!(<Vec<u8>>::decode(&mut rdr), Err(DecodeError::NegativeLength));
    assert_eq!(rdr.len(), 7);
    let mut rdr: &[u8] = &[0xFF, 0xFF, 0xFF, 0xFF, 0x0F, 1, 2];
    assert_eq!(
        <LenPrefixed<u8>>::decode(&mut rdr),
        Err(DecodeError::NegativeLength)
    );
}

#[test]
fn vec_cut_short_takes_nothing() {
    let mut rdr: &[u8] = &[3, 0, 1, 0, 2, 0];
    assert_eq!(<Vec<u16>>::decode(&mut rdr), Err(DecodeError::UnexpectedEof));
    assert_eq!(rdr.len(), 6);
}

#[test]
fn len_prefixed_round_trip() {
    let v = LenPrefixed(vec![LenPrefixed(vec![1u8, 2]), LenPrefixed(vec![]), LenPrefixed(vec![3])]);
    let bytes = bytes_of(&v);
    assert_eq!(bytes, vec![3, 2, 1, 2, 0, 1, 3]);
    let mut rdr = &bytes[..];
    assert_eq!(<LenPrefixed<LenPrefixed<u8>>>::decode(&mut rdr).unwrap(), v);
    assert!(rdr.is_empty());
}

#[test]
fn array_has_no_count() {
    assert_eq!(bytes_of(&[0x0102u16, 0x0304]), vec![1, 2, 3, 4]);
    let mut rdr: &[u8] = &[1, 2, 3];
    assert_eq!(<[u16; 2]>::decode(&mut rdr), Err(DecodeError::UnexpectedEof));
    assert_eq!(rdr.len(), 3);
    let mut rdr: &[u8] = &[1, 2];
    assert_eq!(<[u8; 0]>::decode(&mut rdr).unwrap(), []);
    assert_eq!(rdr.len(), 2);
}

#[test]
fn tuples_are_their_parts_in_order() {
    let t = (1u8, 0x0203u16, VarInt(128), "ab".to_string());
    let bytes = bytes_of(&t);
    assert_eq!(bytes, vec![1, 2, 3, 0x80, 0x01, 2, b'a', b'b']);
    let mut rdr = &bytes[..];
    assert_eq!(<(u8, u16, VarInt, String)>::decode(&mut rdr).unwrap(), t);
    assert_eq!(bytes_of(&(1u8, 2u8)), vec![1, 2]);
    assert_eq!(bytes_of(&(1u8, 2u8, 3u8)), vec![1, 2, 3]);
    assert_eq!(bytes_of(&()), Vec::<u8>::new());
    let mut rdr: &[u8] = &[1, 2, 3];
    assert_eq!(<(u8, u8, u8)>::decode(&mut rdr).unwrap(), (1, 2, 3));
    let mut rdr: &[u8] = &[1, 2];
    assert_eq!(<(u8, u16)>::decode(&mut rdr), Err(DecodeError::UnexpectedEof));
    assert_eq!(rdr.len(), 2);
}

#[test]
fn a_failed_item_leaves_the_buffer_as_it_was() {
    let long = "x".repeat(40000);
    let items = vec!["ok".to_string(), long];
    let mut buf = BytesMut::new();
    buf.extend_from_slice(&[9, 9]);
    assert!(items.encode(&mut buf).is_err());
    assert_eq!(&buf[..], &[9, 9]);
    assert!((1u8, items).encode(&mut buf).is_err());
    assert_eq!(&buf[..], &[9, 9]);
}

#[test]
fn slices_with_and_without_a_count() {
    let mut buf = BytesMut::new();
    encode_slice(&[1u8, 2, 3], &mut buf).unwrap();
    assert_eq!(&buf[..], &[1, 2, 3]);
    encode_counted(&[1u8, 2, 3], &mut buf).unwrap();
    assert_eq!(&buf[..], &[1, 2, 3, 3, 1, 2, 3]);
    let mut rdr = &buf[..];
    assert_eq!(decode_seq::<u8>(&mut rdr, 3).unwrap(), vec![1, 2, 3]);
    assert_eq!(decode_counted::<u8>(&mut rdr).unwrap(), vec![1, 2, 3]);
    assert!(rdr.is_empty());
}

#[test]
fn raw_bytes_take_the_rest() {
    let t = (VarInt(5), RawBytes(&[1, 2, 3]));
    let bytes = bytes_of(&t);
    assert_eq!(bytes, vec![5, 1, 2, 3]);
    let mut rdr = &bytes[..];
    let back = <(VarInt, RawBytes)>::decode(&mut rdr).unwrap();
    assert_eq!(back, t);
    assert!(rdr.is_empty());
}
