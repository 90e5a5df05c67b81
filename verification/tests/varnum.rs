use bytes::BytesMut;
use protocol::{Decode, DecodeError, Encode, VarInt, VarLong};

#[test]
fn varnum_primitive_encode_decode() {
    let a: i32 = 0x11223344;
    let b: u64 = 0x1122334455667788;
    let mut buf = BytesMut::new();

    let _ = a.encode(&mut buf);
    let _ = b.encode(&mut buf);

    let mut buf = &buf.freeze()[..];

    assert_eq!(0x1122, u16::decode(&mut buf).unwrap());
    assert_eq!(0x33441122, u32::decode(&mut buf).unwrap());
}

#[test]
fn types_primitive_encode_decode() {
    let a: i32 = 0x11223344;
    let b: u64 = 0x1122334455667788;
    let mut buf = BytesMut::new();

    a.encode(&mut buf).unwrap();
    b.encode(&mut buf).unwrap();

    let mut buf = &buf[..];

    assert_eq!(0x1122, u16::decode(&mut buf).unwrap());
    assert_eq!(0x33441122, u32::decode(&mut buf).unwrap());
}

#[test]
fn primitive_primitive_encode_decode() {
    let a = true;
    let b: i32 = 0x11223344;
    let c: u64 = 0x1122334455667788;
    let mut buf = BytesMut::new();

    a.encode(&mut buf).unwrap();
    b.encode(&mut buf).unwrap();
    c.encode(&mut buf).unwrap();

    let mut buf = &buf[..];

    assert_eq!(0x01, u8::decode(&mut buf).unwrap());
    assert_eq!(0x1122, u16::decode(&mut buf).unwrap());
    assert_eq!(0x33441122, u32::decode(&mut buf).unwrap());
}

fn encode_all(buf: &mut BytesMut) {
    let _ = VarInt(0).encode(buf);
    let _ = VarInt(1).encode(buf);
    let _ = VarInt(2).encode(buf);
    let _ = VarInt(127).encode(buf);
    let _ = VarInt(128).encode(buf);
    let _ = VarInt(255).encode(buf);
    let _ = VarInt(25565).encode(buf);
    let _ = VarInt(2147483647).encode(buf);

    let _ = VarLong(9223372036854775807).encode(buf);
    let _ = VarLong(-1).encode(buf);
    let _ = VarLong(-2147483648).encode(buf);
    let _ = VarLong(-9223372036854775808).encode(buf);
}

fn decode_all(buf: &mut &[u8]) {
    assert_eq!(0, VarInt::decode(buf).unwrap().0);
    assert_eq!(1, VarInt::decode(buf).unwrap().0);
    assert_eq!(2, VarInt::decode(buf).unwrap().0);
    assert_eq!(127, VarInt::decode(buf).unwrap().0);
    assert_eq!(128, VarInt::decode(buf).unwrap().0);
    assert_eq!(255, VarInt::decode(buf).unwrap().0);
    assert_eq!(25565, VarInt::decode(buf).unwrap().0);
    assert_eq!(2147483647, VarInt::decode(buf).unwrap().0);

    assert_eq!(9223372036854775807, VarLong::decode(buf).unwrap().0);
    assert_eq!(-1, VarLong::decode(buf).unwrap().0);
    assert_eq!(-2147483648, VarLong::decode(buf).unwrap().0);
    assert_eq!(-9223372036854775808, VarLong::decode(buf).unwrap().0);
}

#[test]
fn varnum_varnum_encode_decode() {
    let mut buf = BytesMut::new();
    encode_all(&mut buf);
    let mut buf = &buf.freeze()[..];
    decode_all(&mut buf);
}

#[test]
fn types_varnum_encode_decode() {
    let mut buf = BytesMut::new();
    encode_all(&mut buf);
    let mut rdr = &buf[..];
    decode_all(&mut rdr);
    assert!(rdr.is_empty());
}

fn var_int_bytes(v: i32) -> Vec<u8> {
    let mut buf = BytesMut::new();
    VarInt(v).encode(&mut buf).unwrap();
    buf.to_vec()
}

fn var_long_bytes(v: i64) -> Vec<u8> {
    let mut buf = BytesMut::new();
    VarLong(v).encode(&mut buf).unwrap();
    buf.to_vec()
}

#[test]
fn var_int_exact_bytes() {
    assert_eq!(var_int_bytes(0), vec![0x00]);
    assert_eq!(var_int_bytes(127), vec![0x7F]);
    assert_eq!(var_int_bytes(128), vec![0x80, 0x01]);
    assert_eq!(var_int_bytes(767), vec![0xFF, 0x05]);
    assert_eq!(var_int_bytes(25565), vec![0xDD, 0xC7, 0x01]);
    assert_eq!(var_int_bytes(2147483647), vec![0xFF, 0xFF, 0xFF, 0xFF, 0x07]);
    assert_eq!(var_int_bytes(-1), vec![0xFF, 0xFF, 0xFF, 0xFF, 0x0F]);
    assert_eq!(var_int_bytes(i32::MIN), vec![0x80, 0x80, 0x80, 0x80, 0x08]);
}

#[test]
fn var_long_exact_bytes() {
    assert_eq!(var_long_bytes(0), vec![0x00]);
    assert_eq!(
        var_long_bytes(-1),
        vec![0xFF, 0xFF, 0xFF, 0xFF, 0xFF, 0xFF, 0xFF, 0xFF, 0xFF, 0x01]
    );
    assert_eq!(
        var_long_bytes(i64::MIN),
        vec![0x80, 0x80, 0x80, 0x80, 0x80, 0x80, 0x80, 0x80, 0x80, 0x01]
    );
    assert_eq!(
        var_long_bytes(i64::MAX),
        vec![0xFF, 0xFF, 0xFF, 0xFF, 0xFF, 0xFF, 0xFF, 0xFF, 0x7F]
    );
}

#[test]
fn var_int_boundaries_round_trip() {
    for v in [0, 1, 127, 128, 16383, 16384, 2147483647, -1, i32::MIN] {
        let bytes = var_int_bytes(v);
        assert_eq!(bytes.len(), VarInt(v).size());
        let mut rdr = &bytes[..];
        assert_eq!(VarInt::decode(&mut rdr).unwrap(), VarInt(v));
        assert!(rdr.is_empty());
    }
}

#[test]
fn var_long_boundaries_round_trip() {
    for v in [0, 127, 128, 2147483647, -1, i32::MIN as i64, i64::MIN, i64::MAX] {
        let bytes = var_long_bytes(v);
        assert_eq!(bytes.len(), VarLong(v).size());
        let mut rdr = &bytes[..];
        assert_eq!(VarLong::decode(&mut rdr).unwrap(), VarLong(v));
        assert!(rdr.is_empty());
    }
}

#[test]
fn var_int_of_six_continuation_bytes_is_too_large() {
    let bytes = [0x80u8; 6];
    let mut rdr = &bytes[..];
    assert_eq!(VarInt::decode(&mut rdr), Err(DecodeError::VarNumTooLarge));
    assert_eq!(rdr.len(), 6);
}

#[test]
fn var_long_of_eleven_continuation_bytes_is_too_large() {
    let bytes = [0xFFu8; 11];
    let mut rdr = &bytes[..];
    assert_eq!(VarLong::decode(&mut rdr), Err(DecodeError::VarNumTooLarge));
    assert_eq!(rdr.len(), 11);
}

#[test]
fn var_int_cut_short_is_end_of_input() {
    let bytes = [0x80u8, 0x80];
    let mut rdr = &bytes[..];
    assert_eq!(VarInt::decode(&mut rdr), Err(DecodeError::UnexpectedEof));
    assert_eq!(rdr.len(), 2);
    let mut empty: &[u8] = &[];
    assert_eq!(VarInt::decode(&mut empty), Err(DecodeError::UnexpectedEof));
}

#[test]
fn var_int_reads_only_its_own_bytes() {
    let bytes = [0xDDu8, 0xC7, 0x01, 0x2A];
    let mut rdr = &bytes[..];
    assert_eq!(VarInt::decode(&mut rdr).unwrap().0, 25565);
    assert_eq!(rdr, &[0x2A]);
}

#[test]
fn var_int_fifth_byte_keeps_its_low_four_bits() {
    let bytes = [0xFFu8, 0xFF, 0xFF, 0xFF, 0x7F];
    let mut rdr = &bytes[..];
    assert_eq!(VarInt::decode(&mut rdr).unwrap().0, -1);
}

#[test]
fn var_int_overwrites_in_place() {
    let mut buf = BytesMut::from(&[1u8, 2, 3, 4, 5][..]);
    VarInt(300).overwrite(&mut buf, 1);
    assert_eq!(&buf[..], &[1, 0xAC, 0x02, 4, 5]);
    VarInt(0).overwrite(&mut buf, 4);
    assert_eq!(&buf[..], &[1, 0xAC, 0x02, 4, 0]);
    VarInt(-1).overwrite(&mut buf, 0);
    assert_eq!(&buf[..], &[0xFF, 0xFF, 0xFF, 0xFF, 0x0F]);
}
