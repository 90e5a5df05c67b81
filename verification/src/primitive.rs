//! Booleans and fixed-width integers: one byte for a boolean, and for an
//! integer its natural width, most significant byte first. A signed integer
//! travels as its two's-complement bit pattern.

use crate::buffer::{
    buf_bytes, get_u128, get_u16, get_u32, get_u64, get_u8, put_u128, put_u16, put_u32, put_u64,
    put_u8,
};
use crate::codec::{Decode, Encode, Wire};
use crate::endian::{
    be_bytes, be_value, lemma_be_bytes_len, lemma_be_round_trip, lemma_be_value_bound,
    lemma_pow256_table,
};
use crate::error::{DecodeError, EncodeError};
use bytes::BytesMut;
use vstd::prelude::*;

verus! {

/// The number that the first `n` bytes of `s` spell, where there are that
/// many.
pub open spec fn fixed_parse(s: Seq<u8>, n: nat) -> Result<(nat, nat), DecodeError> {
    if s.len() < n {
        Err(DecodeError::UnexpectedEof)
    } else {
        Ok((be_value(s.take(n as int)), n))
    }
}

/// The `n` bytes of a number that fits in them, followed by anything, spell
/// that number.
pub proof fn lemma_fixed_round_trip(v: nat, n: nat, rest: Seq<u8>)
    requires
        n == 1 || n == 2 || n == 4 || n == 8 || n == 16,
        n == 1 ==> v < 0x100,
        n == 2 ==> v < 0x1_0000,
        n == 4 ==> v < 0x1_0000_0000,
        n == 8 ==> v < 0x1_0000_0000_0000_0000,
        n == 16 ==> v < 0x1_0000_0000_0000_0000_0000_0000_0000_0000,
    ensures
        be_bytes(v, n).len() == n,
        fixed_parse(be_bytes(v, n) + rest, n) == Ok::<(nat, nat), DecodeError>((v, n)),
{
    lemma_pow256_table();
    lemma_be_bytes_len(v, n);
    lemma_be_round_trip(v, n);
    assert((be_bytes(v, n) + rest).take(n as int) =~= be_bytes(v, n));
}

/// What the first `n` bytes spell fits in `n` bytes.
pub proof fn lemma_fixed_parse_bound(s: Seq<u8>, n: nat)
    requires
        n == 1 || n == 2 || n == 4 || n == 8 || n == 16,
        s.len() >= n,
    ensures
        n == 1 ==> be_value(s.take(n as int)) < 0x100,
        n == 2 ==> be_value(s.take(n as int)) < 0x1_0000,
        n == 4 ==> be_value(s.take(n as int)) < 0x1_0000_0000,
        n == 8 ==> be_value(s.take(n as int)) < 0x1_0000_0000_0000_0000,
        n == 16 ==> be_value(s.take(n as int)) < 0x1_0000_0000_0000_0000_0000_0000_0000_0000,
{
    lemma_pow256_table();
    lemma_be_value_bound(s.take(n as int));
}

proof fn lemma_sign_casts(a: i8, b: i16, c: i32, d: i64, e: i128)
    by (bit_vector)
    ensures
        ((a as u8) as i8) == a,
        ((b as u16) as i16) == b,
        ((c as u32) as i32) == c,
        ((d as u64) as i64) == d,
        ((e as u128) as i128) == e,
{
}

impl Wire for bool {
    type Model = bool;

    open spec fn model(&self) -> bool {
        *self
    }

    open spec fn encoding(m: bool) -> Result<Seq<u8>, EncodeError> {
        Ok(
            seq![if m {
                1u8
            } else {
                0u8
            }],
        )
    }

    /// Any byte but zero reads as true.
    open spec fn parse(s: Seq<u8>) -> Result<(bool, nat), DecodeError> {
        if s.len() < 1 {
            Err(DecodeError::UnexpectedEof)
        } else {
            Ok((s[0] != 0, 1))
        }
    }

    open spec fn self_delimiting() -> bool {
        true
    }

    open spec fn well_formed() -> bool {
        true
    }

    proof fn lemma_parse_len(s: Seq<u8>) {
    }

    proof fn lemma_round_trip(m: bool, rest: Seq<u8>) {
    }
}

impl Encode for bool {
    fn encode(&self, wtr: &mut BytesMut) -> (r: Result<(), EncodeError>) {
        put_u8(
            wtr,
            if *self {
                1
            } else {
                0
            },
        );
        proof {
            assert(buf_bytes(*wtr) =~= buf_bytes(*old(wtr)) + Self::encoding(*self).unwrap());
        }
        Ok(())
    }
}

impl<'a> Decode<'a> for bool {
    fn decode(rdr: &mut &'a [u8]) -> (r: Result<Self, DecodeError>) {
        if rdr.len() < 1 {
            return Err(DecodeError::UnexpectedEof);
        }
        let byte: u8 = get_u8(rdr);
        Ok(byte != 0)
    }
}

impl Wire for u8 {
    type Model = u8;

    open spec fn model(&self) -> u8 {
        *self
    }

    open spec fn encoding(m: u8) -> Result<Seq<u8>, EncodeError> {
        Ok(seq![m])
    }

    open spec fn parse(s: Seq<u8>) -> Result<(u8, nat), DecodeError> {
        if s.len() < 1 {
            Err(DecodeError::UnexpectedEof)
        } else {
            Ok((s[0], 1))
        }
    }

    open spec fn self_delimiting() -> bool {
        true
    }

    open spec fn well_formed() -> bool {
        true
    }

    proof fn lemma_parse_len(s: Seq<u8>) {
    }

    proof fn lemma_round_trip(m: u8, rest: Seq<u8>) {
    }
}

impl Encode for u8 {
    fn encode(&self, wtr: &mut BytesMut) -> (r: Result<(), EncodeError>) {
        put_u8(wtr, *self);
        proof {
            assert(buf_bytes(*wtr) =~= buf_bytes(*old(wtr)) + seq![*self]);
        }
        Ok(())
    }
}

impl<'a> Decode<'a> for u8 {
    fn decode(rdr: &mut &'a [u8]) -> (r: Result<Self, DecodeError>) {
        if rdr.len() < 1 {
            return Err(DecodeError::UnexpectedEof);
        }
        Ok(get_u8(rdr))
    }
}

impl Wire for i8 {
    type Model = i8;

    open spec fn model(&self) -> i8 {
        *self
    }

    open spec fn encoding(m: i8) -> Result<Seq<u8>, EncodeError> {
        Ok(seq![m as u8])
    }

    open spec fn parse(s: Seq<u8>) -> Result<(i8, nat), DecodeError> {
        if s.len() < 1 {
            Err(DecodeError::UnexpectedEof)
        } else {
            Ok((s[0] as i8, 1))
        }
    }

    open spec fn self_delimiting() -> bool {
        true
    }

    open spec fn well_formed() -> bool {
        true
    }

    proof fn lemma_parse_len(s: Seq<u8>) {
    }

    proof fn lemma_round_trip(m: i8, rest: Seq<u8>) {
        lemma_sign_casts(m, 0, 0, 0, 0);
    }
}

impl Encode for i8 {
    fn encode(&self, wtr: &mut BytesMut) -> (r: Result<(), EncodeError>) {
        put_u8(wtr, #[verifier::truncate] (*self as u8));
        proof {
            assert(buf_bytes(*wtr) =~= buf_bytes(*old(wtr)) + seq![*self as u8]);
        }
        Ok(())
    }
}

impl<'a> Decode<'a> for i8 {
    fn decode(rdr: &mut &'a [u8]) -> (r: Result<Self, DecodeError>) {
        if rdr.len() < 1 {
            return Err(DecodeError::UnexpectedEof);
        }
        let byte: u8 = get_u8(rdr);
        Ok(#[verifier::truncate] (byte as i8))
    }
}

impl Wire for u16 {
    type Model = u16;

    open spec fn model(&self) -> u16 {
        *self
    }

    open spec fn encoding(m: u16) -> Result<Seq<u8>, EncodeError> {
        Ok(be_bytes(m as nat, 2))
    }

    open spec fn parse(s: Seq<u8>) -> Result<(u16, nat), DecodeError> {
        match fixed_parse(s, 2) {
            Ok((v, n)) => Ok((v as u16, n)),
            Err(e) => Err(e),
        }
    }

    open spec fn self_delimiting() -> bool {
        true
    }

    open spec fn well_formed() -> bool {
        true
    }

    proof fn lemma_parse_len(s: Seq<u8>) {
    }

    proof fn lemma_round_trip(m: u16, rest: Seq<u8>) {
        lemma_fixed_round_trip(m as nat, 2, rest);
    }
}

impl Encode for u16 {
    fn encode(&self, wtr: &mut BytesMut) -> (r: Result<(), EncodeError>) {
        put_u16(wtr, *self);
        Ok(())
    }
}

impl<'a> Decode<'a> for u16 {
    fn decode(rdr: &mut &'a [u8]) -> (r: Result<Self, DecodeError>) {
        if rdr.len() < 2 {
            return Err(DecodeError::UnexpectedEof);
        }
        proof {
            lemma_fixed_parse_bound(rdr@, 2);
        }
        Ok(get_u16(rdr))
    }
}

impl Wire for i16 {
    type Model = i16;

    open spec fn model(&self) -> i16 {
        *self
    }

    open spec fn encoding(m: i16) -> Result<Seq<u8>, EncodeError> {
        Ok(be_bytes((m as u16) as nat, 2))
    }

    open spec fn parse(s: Seq<u8>) -> Result<(i16, nat), DecodeError> {
        match fixed_parse(s, 2) {
            Ok((v, n)) => Ok(((v as u16) as i16, n)),
            Err(e) => Err(e),
        }
    }

    open spec fn self_delimiting() -> bool {
        true
    }

    open spec fn well_formed() -> bool {
        true
    }

    proof fn lemma_parse_len(s: Seq<u8>) {
    }

    proof fn lemma_round_trip(m: i16, rest: Seq<u8>) {
        lemma_fixed_round_trip((m as u16) as nat, 2, rest);
        lemma_sign_casts(0, m, 0, 0, 0);
    }
}

impl Encode for i16 {
    fn encode(&self, wtr: &mut BytesMut) -> (r: Result<(), EncodeError>) {
        put_u16(wtr, #[verifier::truncate] (*self as u16));
        Ok(())
    }
}

impl<'a> Decode<'a> for i16 {
    fn decode(rdr: &mut &'a [u8]) -> (r: Result<Self, DecodeError>) {
        if rdr.len() < 2 {
            return Err(DecodeError::UnexpectedEof);
        }
        proof {
            lemma_fixed_parse_bound(rdr@, 2);
        }
        let bits: u16 = get_u16(rdr);
        Ok(#[verifier::truncate] (bits as i16))
    }
}

impl Wire for u32 {
    type Model = u32;

    open spec fn model(&self) -> u32 {
        *self
    }

    open spec fn encoding(m: u32) -> Result<Seq<u8>, EncodeError> {
        Ok(be_bytes(m as nat, 4))
    }

    open spec fn parse(s: Seq<u8>) -> Result<(u32, nat), DecodeError> {
        match fixed_parse(s, 4) {
            Ok((v, n)) => Ok((v as u32, n)),
            Err(e) => Err(e),
        }
    }

    open spec fn self_delimiting() -> bool {
        true
    }

    open spec fn well_formed() -> bool {
        true
    }

    proof fn lemma_parse_len(s: Seq<u8>) {
    }

    proof fn lemma_round_trip(m: u32, rest: Seq<u8>) {
        lemma_fixed_round_trip(m as nat, 4, rest);
    }
}

impl Encode for u32 {
    fn encode(&self, wtr: &mut BytesMut) -> (r: Result<(), EncodeError>) {
        put_u32(wtr, *self);
        Ok(())
    }
}

impl<'a> Decode<'a> for u32 {
    fn decode(rdr: &mut &'a [u8]) -> (r: Result<Self, DecodeError>) {
        if rdr.len() < 4 {
            return Err(DecodeError::UnexpectedEof);
        }
        proof {
            lemma_fixed_parse_bound(rdr@, 4);
        }
        Ok(get_u32(rdr))
    }
}

impl Wire for i32 {
    type Model = i32;

    open spec fn model(&self) -> i32 {
        *self
    }

    open spec fn encoding(m: i32) -> Result<Seq<u8>, EncodeError> {
        Ok(be_bytes((m as u32) as nat, 4))
    }

    open spec fn parse(s: Seq<u8>) -> Result<(i32, nat), DecodeError> {
        match fixed_parse(s, 4) {
            Ok((v, n)) => Ok(((v as u32) as i32, n)),
            Err(e) => Err(e),
        }
    }

    open spec fn self_delimiting() -> bool {
        true
    }

    open spec fn well_formed() -> bool {
        true
    }

    proof fn lemma_parse_len(s: Seq<u8>) {
    }

    proof fn lemma_round_trip(m: i32, rest: Seq<u8>) {
        lemma_fixed_round_trip((m as u32) as nat, 4, rest);
        lemma_sign_casts(0, 0, m, 0, 0);
    }
}

impl Encode for i32 {
    fn encode(&self, wtr: &mut BytesMut) -> (r: Result<(), EncodeError>) {
        put_u32(wtr, #[verifier::truncate] (*self as u32));
        Ok(())
    }
}

impl<'a> Decode<'a> for i32 {
    fn decode(rdr: &mut &'a [u8]) -> (r: Result<Self, DecodeError>) {
        if rdr.len() < 4 {
            return Err(DecodeError::UnexpectedEof);
        }
        proof {
            lemma_fixed_parse_bound(rdr@, 4);
        }
        let bits: u32 = get_u32(rdr);
        Ok(#[verifier::truncate] (bits as i32))
    }
}

impl Wire for u64 {
    type Model = u64;

    open spec fn model(&self) -> u64 {
        *self
    }

    open spec fn encoding(m: u64) -> Result<Seq<u8>, EncodeError> {
        Ok(be_bytes(m as nat, 8))
    }

    open spec fn parse(s: Seq<u8>) -> Result<(u64, nat), DecodeError> {
        match fixed_parse(s, 8) {
            Ok((v, n)) => Ok((v as u64, n)),
            Err(e) => Err(e),
        }
    }

    open spec fn self_delimiting() -> bool {
        true
    }

    open spec fn well_formed() -> bool {
        true
    }

    proof fn lemma_parse_len(s: Seq<u8>) {
    }

    proof fn lemma_round_trip(m: u64, rest: Seq<u8>) {
        lemma_fixed_round_trip(m as nat, 8, rest);
    }
}

impl Encode for u64 {
    fn encode(&self, wtr: &mut BytesMut) -> (r: Result<(), EncodeError>) {
        put_u64(wtr, *self);
        Ok(())
    }
}

impl<'a> Decode<'a> for u64 {
    fn decode(rdr: &mut &'a [u8]) -> (r: Result<Self, DecodeError>) {
        if rdr.len() < 8 {
            return Err(DecodeError::UnexpectedEof);
        }
        proof {
            lemma_fixed_parse_bound(rdr@, 8);
        }
        Ok(get_u64(rdr))
    }
}

impl Wire for i64 {
    type Model = i64;

    open spec fn model(&self) -> i64 {
        *self
    }

    open spec fn encoding(m: i64) -> Result<Seq<u8>, EncodeError> {
        Ok(be_bytes((m as u64) as nat, 8))
    }

    open spec fn parse(s: Seq<u8>) -> Result<(i64, nat), DecodeError> {
        match fixed_parse(s, 8) {
            Ok((v, n)) => Ok(((v as u64) as i64, n)),
            Err(e) => Err(e),
        }
    }

    open spec fn self_delimiting() -> bool {
        true
    }

    open spec fn well_formed() -> bool {
        true
    }

    proof fn lemma_parse_len(s: Seq<u8>) {
    }

    proof fn lemma_round_trip(m: i64, rest: Seq<u8>) {
        lemma_fixed_round_trip((m as u64) as nat, 8, rest);
        lemma_sign_casts(0, 0, 0, m, 0);
    }
}

impl Encode for i64 {
    fn encode(&self, wtr: &mut BytesMut) -> (r: Result<(), EncodeError>) {
        put_u64(wtr, #[verifier::truncate] (*self as u64));
        Ok(())
    }
}

impl<'a> Decode<'a> for i64 {
    fn decode(rdr: &mut &'a [u8]) -> (r: Result<Self, DecodeError>) {
        if rdr.len() < 8 {
            return Err(DecodeError::UnexpectedEof);
        }
        proof {
            lemma_fixed_parse_bound(rdr@, 8);
        }
        let bits: u64 = get_u64(rdr);
        Ok(#[verifier::truncate] (bits as i64))
    }
}

impl Wire for u128 {
    type Model = u128;

    open spec fn model(&self) -> u128 {
        *self
    }

    open spec fn encoding(m: u128) -> Result<Seq<u8>, EncodeError> {
        Ok(be_bytes(m as nat, 16))
    }

    open spec fn parse(s: Seq<u8>) -> Result<(u128, nat), DecodeError> {
        match fixed_parse(s, 16) {
            Ok((v, n)) => Ok((v as u128, n)),
            Err(e) => Err(e),
        }
    }

    open spec fn self_delimiting() -> bool {
        true
    }

    open spec fn well_formed() -> bool {
        true
    }

    proof fn lemma_parse_len(s: Seq<u8>) {
    }

    proof fn lemma_round_trip(m: u128, rest: Seq<u8>) {
        lemma_fixed_round_trip(m as nat, 16, rest);
    }
}

impl Encode for u128 {
    fn encode(&self, wtr: &mut BytesMut) -> (r: Result<(), EncodeError>) {
        put_u128(wtr, *self);
        Ok(())
    }
}

impl<'a> Decode<'a> for u128 {
    fn decode(rdr: &mut &'a [u8]) -> (r: Result<Self, DecodeError>) {
        if rdr.len() < 16 {
            return Err(DecodeError::UnexpectedEof);
        }
        proof {
            lemma_fixed_parse_bound(rdr@, 16);
        }
        Ok(get_u128(rdr))
    }
}

impl Wire for i128 {
    type Model = i128;

    open spec fn model(&self) -> i128 {
        *self
    }

    open spec fn encoding(m: i128) -> Result<Seq<u8>, EncodeError> {
        Ok(be_bytes((m as u128) as nat, 16))
    }

    open spec fn parse(s: Seq<u8>) -> Result<(i128, nat), DecodeError> {
        match fixed_parse(s, 16) {
            Ok((v, n)) => Ok(((v as u128) as i128, n)),
            Err(e) => Err(e),
        }
    }

    open spec fn self_delimiting() -> bool {
        true
    }

    open spec fn well_formed() -> bool {
        true
    }

    proof fn lemma_parse_len(s: Seq<u8>) {
    }

    proof fn lemma_round_trip(m: i128, rest: Seq<u8>) {
        lemma_fixed_round_trip((m as u128) as nat, 16, rest);
        lemma_sign_casts(0, 0, 0, 0, m);
    }
}

impl Encode for i128 {
    fn encode(&self, wtr: &mut BytesMut) -> (r: Result<(), EncodeError>) {
        put_u128(wtr, #[verifier::truncate] (*self as u128));
        Ok(())
    }
}

impl<'a> Decode<'a> for i128 {
    fn decode(rdr: &mut &'a [u8]) -> (r: Result<Self, DecodeError>) {
        if rdr.len() < 16 {
            return Err(DecodeError::UnexpectedEof);
        }
        proof {
            lemma_fixed_parse_bound(rdr@, 16);
        }
        let bits: u128 = get_u128(rdr);
        Ok(#[verifier::truncate] (bits as i128))
    }
}

/// An IEEE 754 single-precision number, held as its 32 bits.
#[derive(Debug, Copy, Clone, PartialEq, Eq, Hash, Structural)]
pub struct Float32(pub u32);

impl Wire for Float32 {
    type Model = u32;

    open spec fn model(&self) -> u32 {
        self.0
    }

    open spec fn encoding(m: u32) -> Result<Seq<u8>, EncodeError> {
        u32::encoding(m)
    }

    open spec fn parse(s: Seq<u8>) -> Result<(u32, nat), DecodeError> {
        u32::parse(s)
    }

    open spec fn self_delimiting() -> bool {
        true
    }

    open spec fn well_formed() -> bool {
        true
    }

    proof fn lemma_parse_len(s: Seq<u8>) {
    }

    proof fn lemma_round_trip(m: u32, rest: Seq<u8>) {
        u32::lemma_round_trip(m, rest);
    }
}

impl Encode for Float32 {
    fn encode(&self, wtr: &mut BytesMut) -> (r: Result<(), EncodeError>) {
        self.0.encode(wtr)
    }
}

impl<'a> Decode<'a> for Float32 {
    fn decode(rdr: &mut &'a [u8]) -> (r: Result<Self, DecodeError>) {
        match u32::decode(rdr) {
            Ok(bits) => Ok(Float32(bits)),
            Err(e) => Err(e),
        }
    }
}

/// An IEEE 754 double-precision number, held as its 64 bits.
#[derive(Debug, Copy, Clone, PartialEq, Eq, Hash, Structural)]
pub struct Float64(pub u64);

impl Wire for Float64 {
    type Model = u64;

    open spec fn model(&self) -> u64 {
        self.0
    }

    open spec fn encoding(m: u64) -> Result<Seq<u8>, EncodeError> {
        u64::encoding(m)
    }

    open spec fn parse(s: Seq<u8>) -> Result<(u64, nat), DecodeError> {
        u64::parse(s)
    }

    open spec fn self_delimiting() -> bool {
        true
    }

    open spec fn well_formed() -> bool {
        true
    }

    proof fn lemma_parse_len(s: Seq<u8>) {
    }

    proof fn lemma_round_trip(m: u64, rest: Seq<u8>) {
        u64::lemma_round_trip(m, rest);
    }
}

impl Encode for Float64 {
    fn encode(&self, wtr: &mut BytesMut) -> (r: Result<(), EncodeError>) {
        self.0.encode(wtr)
    }
}

impl<'a> Decode<'a> for Float64 {
    fn decode(rdr: &mut &'a [u8]) -> (r: Result<Self, DecodeError>) {
        match u64::decode(rdr) {
            Ok(bits) => Ok(Float64(bits)),
            Err(e) => Err(e),
        }
    }
}

} // verus!
