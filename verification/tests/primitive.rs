use bytes::BytesMut;
use protocol::{
    Axis, BlockType, Bounded, Decode, DecodeError, Direction, Encode, EncodeError, Float32,
    Float64, Position, RawBytes, Uuid,
};

fn bytes_of<T: Encode>(v: &T) -> Vec<u8> {
    let mut buf = BytesMut::new();
    v.encode(&mut buf).unwrap();
    buf.to_vec()
}

#[test]
fn bool_is_one_byte() {
    assert_eq!(bytes_of(&true), vec![1]);
    assert_eq!(bytes_of(&false), vec![0]);
    let mut rdr: &[u8] = &[0, 1, 2, 0xFF];
    assert!(!bool::decode(&mut rdr).unwrap());
    assert!(bool::decode(&mut rdr).unwrap());
    assert!(bool::decode(&mut rdr).unwrap());
    assert!(bool::decode(&mut rdr).unwrap());
    assert_eq!(bool::decode(&mut rdr), Err(DecodeError::UnexpectedEof));
}

#[test]
fn integers_are_big_endian() {
    assert_eq!(bytes_of(&0x12u8), vec![0x12]);
    assert_eq!(bytes_of(&-2i8), vec![0xFE]);
    assert_eq!(bytes_of(&0x1234u16), vec![0x12, 0x34]);
    assert_eq!(bytes_of(&-2i16), vec![0xFF, 0xFE]);
    assert_eq!(bytes_of(&0x12345678u32), vec![0x12, 0x34, 0x56, 0x78]);
    assert_eq!(bytes_of(&-2i32), vec![0xFF, 0xFF, 0xFF, 0xFE]);
    assert_eq!(bytes_of(&25565u16), vec![0x63, 0xDD]);
    assert_eq!(
        bytes_of(&0x0102030405060708u64),
        vec![1, 2, 3, 4, 5, 6, 7, 8]
    );
    assert_eq!(bytes_of(&i64::MIN), vec![0x80, 0, 0, 0, 0, 0, 0, 0]);
    assert_eq!(
        bytes_of(&0x0102030405060708090A0B0C0D0E0F10u128),
        vec![1, 2, 3, 4, 5, 6, 7, 8, 9, 10, 11, 12, 13, 14, 15, 16]
    );
    assert_eq!(bytes_of(&-1i128), vec![0xFF; 16]);
}

#[test]
fn integers_round_trip() {
    let mut buf = BytesMut::new();
    (-5i8).encode(&mut buf).unwrap();
    200u8.encode(&mut buf).unwrap();
    i16::MIN.encode(&mut buf).unwrap();
    u16::MAX.encode(&mut buf).unwrap();
    i32::MIN.encode(&mut buf).unwrap();
    u32::MAX.encode(&mut buf).unwrap();
    i64::MIN.encode(&mut buf).unwrap();
    u64::MAX.encode(&mut buf).unwrap();
    i128::MIN.encode(&mut buf).unwrap();
    u128::MAX.encode(&mut buf).unwrap();
    let mut rdr = &buf[..];
    assert_eq!(i8::decode(&mut rdr).unwrap(), -5);
    assert_eq!(u8::decode(&mut rdr).unwrap(), 200);
    assert_eq!(i16::decode(&mut rdr).unwrap(), i16::MIN);
    assert_eq!(u16::decode(&mut rdr).unwrap(), u16::MAX);
    assert_eq!(i32::decode(&mut rdr).unwrap(), i32::MIN);
    assert_eq!(u32::decode(&mut rdr).unwrap(), u32::MAX);
    assert_eq!(i64::decode(&mut rdr).unwrap(), i64::MIN);
    assert_eq!(u64::decode(&mut rdr).unwrap(), u64::MAX);
    assert_eq!(i128::decode(&mut rdr).unwrap(), i128::MIN);
    assert_eq!(u128::decode(&mut rdr).unwrap(), u128::MAX);
    assert!(rdr.is_empty());
}

#[test]
fn short_input_takes_nothing() {
    let mut rdr: &[u8] = &[1, 2, 3];
    assert_eq!(u32::decode(&mut rdr), Err(DecodeError::UnexpectedEof));
    assert_eq!(i64::decode(&mut rdr), Err(DecodeError::UnexpectedEof));
    assert_eq!(u128::decode(&mut rdr), Err(DecodeError::UnexpectedEof));
    assert_eq!(Position::decode(&mut rdr), Err(DecodeError::UnexpectedEof));
    assert_eq!(Uuid::decode(&mut rdr), Err(DecodeError::UnexpectedEof));
    assert_eq!(rdr.len(), 3);
    assert_eq!(u16::decode(&mut rdr).unwrap(), 0x0102);
    assert_eq!(rdr.len(), 1);
}

#[test]
fn floats_travel_as_their_bits() {
    let x = Float32(1.5f32.to_bits());
    let y = Float64((-0.25f64).to_bits());
    assert_eq!(bytes_of(&x), 1.5f32.to_be_bytes().to_vec());
    assert_eq!(bytes_of(&y), (-0.25f64).to_be_bytes().to_vec());
    let mut buf = BytesMut::new();
    x.encode(&mut buf).unwrap();
    y.encode(&mut buf).unwrap();
    let mut rdr = &buf[..];
    assert_eq!(f32::from_bits(Float32::decode(&mut rdr).unwrap().0), 1.5);
    assert_eq!(f64::from_bits(Float64::decode(&mut rdr).unwrap().0), -0.25);
}

#[test]
fn position_is_packed_into_64_bits() {
    let p = Position { x: 1, y: 2, z: 3 };
    assert_eq!(bytes_of(&p), ((1u64 << 38) | (3 << 12) | 2).to_be_bytes().to_vec());
    let q = Position { x: 0x3FF_FFFF, y: 0xFFF, z: 0x3FF_FFFF };
    assert_eq!(bytes_of(&q), vec![0xFF; 8]);
    for p in [p, q, Position { x: 0, y: 0, z: 0 }, Position { x: 18357644, y: 831, z: 20882616 }] {
        let bytes = bytes_of(&p);
        let mut rdr = &bytes[..];
        assert_eq!(Position::decode(&mut rdr).unwrap(), p);
    }
}

#[test]
fn position_outside_its_fields_is_reduced() {
    let p = Position { x: -1, y: -1, z: -1 };
    let bytes = bytes_of(&p);
    assert_eq!(bytes, vec![0xFF; 8]);
    let mut rdr = &bytes[..];
    assert_eq!(
        Position::decode(&mut rdr).unwrap(),
        Position { x: 0x3FF_FFFF, y: 0xFFF, z: 0x3FF_FFFF }
    );
}

#[test]
fn uuid_is_sixteen_bytes() {
    let u = Uuid::from_u128(0x0102030405060708090A0B0C0D0E0F10);
    assert_eq!(u.as_u128(), 0x0102030405060708090A0B0C0D0E0F10);
    assert_eq!(
        bytes_of(&u),
        uuid::Uuid::from_u128(u.as_u128()).as_bytes().to_vec()
    );
    let bytes = bytes_of(&u);
    let mut rdr = &bytes[..];
    assert_eq!(Uuid::decode(&mut rdr).unwrap(), u);
}

#[test]
fn raw_bytes_have_no_prefix() {
    let mut buf = BytesMut::new();
    RawBytes(&[1, 2, 3]).encode(&mut buf).unwrap();
    RawBytes(&[]).encode(&mut buf).unwrap();
    assert_eq!(&buf[..], &[1, 2, 3]);
    let mut rdr = &buf[..];
    assert_eq!(RawBytes::decode(&mut rdr).unwrap(), RawBytes(&[1, 2, 3]));
    assert!(rdr.is_empty());
    assert_eq!(RawBytes::decode(&mut rdr).unwrap(), RawBytes(&[]));
}

#[test]
fn bounded_raw_bytes_at_their_bound() {
    let mut buf = BytesMut::new();
    Bounded::<RawBytes, 3>(RawBytes(&[1, 2, 3])).encode(&mut buf).unwrap();
    assert_eq!(
        Bounded::<RawBytes, 3>(RawBytes(&[1, 2, 3, 4])).encode(&mut buf),
        Err(EncodeError::SizeExceeded)
    );
    assert_eq!(&buf[..], &[1, 2, 3]);
    let mut rdr = &buf[..];
    assert_eq!(
        Bounded::<RawBytes, 2>::decode(&mut rdr),
        Err(DecodeError::SizeExceeded)
    );
    assert_eq!(rdr.len(), 3);
    assert_eq!(
        Bounded::<RawBytes, 3>::decode(&mut rdr).unwrap().0,
        RawBytes(&[1, 2, 3])
    );
}

#[test]
fn axes_and_directions() {
    assert_eq!(Axis::X.as_string(), "x");
    assert_eq!(Axis::Y.as_string(), "y");
    assert_eq!(Axis::Z.as_string(), "z");
    assert_eq!(Axis::Y.index(), 0);
    assert_eq!(Axis::X.index(), 1);
    assert_eq!(Axis::Z.index(), 2);
    assert_eq!(Axis::default(), Axis::X);
    assert_ne!(Direction::Up, Direction::Down);
    let stone = BlockType { id: "minecraft:stone".to_owned() };
    assert_eq!(stone.get_texture_paths(), "1.20.4/assets/minecraft/textures/block/");
}
