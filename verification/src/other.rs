//! Identifiers that travel as plain numbers.

use crate::codec::{Decode, Encode, Wire};
use crate::error::{DecodeError, EncodeError};
use bytes::BytesMut;
use vstd::prelude::*;

verus! {

/// A universally unique identifier, held as its 128 bits.
#[derive(Debug, Copy, Clone, PartialEq, Eq, PartialOrd, Ord, Hash, Structural)]
pub struct Uuid(pub u128);

impl Uuid {
    /// The identifier with the given bits.
    pub fn from_u128(bits: u128) -> (r: Uuid)
        ensures
            r.0 == bits,
    {
        Uuid(bits)
    }

    /// The bits of the identifier.
    pub fn as_u128(&self) -> (r: u128)
        ensures
            r == self.0,
    {
        self.0
    }
}

impl Wire for Uuid {
    type Model = u128;

    open spec fn model(&self) -> u128 {
        self.0
    }

    open spec fn encoding(m: u128) -> Result<Seq<u8>, EncodeError> {
        u128::encoding(m)
    }

    open spec fn parse(s: Seq<u8>) -> Result<(u128, nat), DecodeError> {
        u128::parse(s)
    }

    open spec fn self_delimiting() -> bool {
        true
    }

    open spec fn well_formed() -> bool {
        true
    }

    proof fn lemma_parse_len(s: Seq<u8>) {
    }

    proof fn lemma_round_trip(m: u128, rest: Seq<u8>) {
        u128::lemma_round_trip(m, rest);
    }
}

impl Encode for Uuid {
    fn encode(&self, wtr: &mut BytesMut) -> (r: Result<(), EncodeError>) {
        self.as_u128().encode(wtr)
    }
}

impl<'a> Decode<'a> for Uuid {
    fn decode(rdr: &mut &'a [u8]) -> (r: Result<Self, DecodeError>) {
        match u128::decode(rdr) {
            Ok(bits) => Ok(Uuid::from_u128(bits)),
            Err(e) => Err(e),
        }
    }
}

} // verus!
