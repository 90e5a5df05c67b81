//! A block position packed into 64 bits: 26 bits of x, 26 of z, 12 of y.

use crate::buffer::{get_u64, put_u64};
use crate::codec::{Decode, Encode, Wire};
use crate::endian::be_bytes;
use crate::error::{DecodeError, EncodeError};
use crate::primitive::{fixed_parse, lemma_fixed_parse_bound, lemma_fixed_round_trip};
use bytes::BytesMut;
use vstd::prelude::*;

verus! {

/// The coordinates of a block.
///
/// The wire carries the low 26 bits of `x` and `z` and the low 12 bits of
/// `y`, and decoding reads each field as a number that is not negative. So a
/// position comes back as it went out exactly where `0 <= x, z < 2^26` and
/// `0 <= y < 2^12`; any other comes back with each coordinate reduced to its
/// field.
#[derive(Debug, Copy, Clone, PartialEq, Eq, PartialOrd, Ord, Hash, Structural)]
pub struct Position {
    pub x: i32,
    pub y: i32,
    pub z: i32,
}

/// The 64 bits that carry a position.
pub open spec fn pack_position(x: i32, y: i32, z: i32) -> u64 {
    (((x as u64) & 0x3FFFFFF) << 38) | (((z as u64) & 0x3FFFFFF) << 12) | ((y as u64) & 0xFFF)
}

/// The x field of packed bits.
pub open spec fn unpack_x(bits: u64) -> i32 {
    (bits >> 38) as i32
}

/// The y field of packed bits.
pub open spec fn unpack_y(bits: u64) -> i32 {
    ((bits << 52) >> 52) as i32
}

/// The z field of packed bits.
pub open spec fn unpack_z(bits: u64) -> i32 {
    ((bits << 26) >> 38) as i32
}

/// Packing the fields of any 64 bits gives those bits back.
pub proof fn lemma_pack_unpack(bits: u64)
    by (bit_vector)
    ensures
        (((((bits >> 38) as i32) as u64) & 0x3FFFFFF) << 38) | ((((((bits << 26) >> 38) as i32)
            as u64) & 0x3FFFFFF) << 12) | (((((bits << 52) >> 52) as i32) as u64) & 0xFFF)
            == bits,
{
}

/// Coordinates that fit their fields come back from the packed bits.
pub proof fn lemma_unpack_pack(x: i32, y: i32, z: i32)
    by (bit_vector)
    requires
        0 <= x < 0x400_0000,
        0 <= y < 0x1000,
        0 <= z < 0x400_0000,
    ensures
        (((((x as u64) & 0x3FFFFFF) << 38) | (((z as u64) & 0x3FFFFFF) << 12) | ((y as u64)
            & 0xFFF)) >> 38) as i32 == x,
        ((((((x as u64) & 0x3FFFFFF) << 38) | (((z as u64) & 0x3FFFFFF) << 12) | ((y as u64)
            & 0xFFF)) << 52) >> 52) as i32 == y,
        ((((((x as u64) & 0x3FFFFFF) << 38) | (((z as u64) & 0x3FFFFFF) << 12) | ((y as u64)
            & 0xFFF)) << 26) >> 38) as i32 == z,
{
}

impl Wire for Position {
    /// The packed bits: what of a position the wire can carry.
    type Model = u64;

    open spec fn model(&self) -> u64 {
        pack_position(self.x, self.y, self.z)
    }

    open spec fn encoding(m: u64) -> Result<Seq<u8>, EncodeError> {
        Ok(be_bytes(m as nat, 8))
    }

    open spec fn parse(s: Seq<u8>) -> Result<(u64, nat), DecodeError> {
        match fixed_parse(s, 8) {
            Ok((v, n)) => Ok((v as u64, n)),
            Err(e) => Err(e),
        }
    }

    open spec fn self_delimiting() -> bool {
        true
    }

    open spec fn well_formed() -> bool {
        true
    }

    proof fn lemma_parse_len(s: Seq<u8>) {
    }

    proof fn lemma_round_trip(m: u64, rest: Seq<u8>) {
        lemma_fixed_round_trip(m as nat, 8, rest);
    }
}

impl Encode for Position {
    fn encode(&self, wtr: &mut BytesMut) -> (r: Result<(), EncodeError>) {
        let x: u64 = #[verifier::truncate] (self.x as u64);
        let y: u64 = #[verifier::truncate] (self.y as u64);
        let z: u64 = #[verifier::truncate] (self.z as u64);
        put_u64(wtr, ((x & 0x3FFFFFF) << 38) | ((z & 0x3FFFFFF) << 12) | (y & 0xFFF));
        Ok(())
    }
}

impl<'a> Decode<'a> for Position {
    /// Each coordinate is read as its field, without a sign.
    fn decode(rdr: &mut &'a [u8]) -> (r: Result<Self, DecodeError>)
        ensures
            r is Ok ==> r->Ok_0.x == unpack_x(r->Ok_0.model()) && r->Ok_0.y == unpack_y(
                r->Ok_0.model(),
            ) && r->Ok_0.z == unpack_z(r->Ok_0.model()),
    {
        if rdr.len() < 8 {
            return Err(DecodeError::UnexpectedEof);
        }
        proof {
            lemma_fixed_parse_bound(rdr@, 8);
        }
        let bits: u64 = get_u64(rdr);
        proof {
            lemma_pack_unpack(bits);
        }
        Ok(
            Position {
                x: #[verifier::truncate] ((bits >> 38) as i32),
                y: #[verifier::truncate] (((bits << 52) >> 52) as i32),
                z: #[verifier::truncate] (((bits << 26) >> 38) as i32),
            },
        )
    }
}

} // verus!
