//! Bytes that travel as they are, with nothing in front: they reach to the
//! end of the input, so they can only stand last.

use crate::bounded::Bounded;
use crate::buffer::put_slice;
use crate::codec::{Decode, Encode, Wire};
use crate::error::{DecodeError, EncodeError};
use bytes::BytesMut;
use vstd::prelude::*;
use vstd::slice::slice_subrange;

verus! {

/// Borrowed bytes without a length in front.
#[derive(Debug, Clone, PartialEq, Eq, PartialOrd, Ord, Hash)]
pub struct RawBytes<'a>(pub &'a [u8]);

/// Takes all of `rdr` and leaves it empty.
fn take_rest<'a>(rdr: &mut &'a [u8]) -> (r: &'a [u8])
    ensures
        r@ == old(rdr)@,
        final(rdr)@ == old(rdr)@.skip(old(rdr)@.len() as int),
{
    let all: &'a [u8] = *rdr;
    *rdr = slice_subrange(all, all.len(), all.len());
    proof {
        assert(rdr@ =~= all@.skip(all@.len() as int));
    }
    all
}

impl<'a> Wire for RawBytes<'a> {
    type Model = Seq<u8>;

    open spec fn model(&self) -> Seq<u8> {
        self.0@
    }

    open spec fn encoding(m: Seq<u8>) -> Result<Seq<u8>, EncodeError> {
        Ok(m)
    }

    /// All of the input, however much there is.
    open spec fn parse(s: Seq<u8>) -> Result<(Seq<u8>, nat), DecodeError> {
        Ok((s, s.len()))
    }

    open spec fn self_delimiting() -> bool {
        false
    }

    open spec fn well_formed() -> bool {
        true
    }

    proof fn lemma_parse_len(s: Seq<u8>) {
    }

    proof fn lemma_round_trip(m: Seq<u8>, rest: Seq<u8>) {
        assert(m + rest =~= m);
    }
}

impl<'a> Encode for RawBytes<'a> {
    fn encode(&self, wtr: &mut BytesMut) -> (r: Result<(), EncodeError>) {
        put_slice(wtr, self.0);
        Ok(())
    }
}

impl<'a> Decode<'a> for RawBytes<'a> {
    fn decode(rdr: &mut &'a [u8]) -> (r: Result<Self, DecodeError>) {
        Ok(RawBytes(take_rest(rdr)))
    }
}

/// The bytes of raw data that may hold `max` bytes.
pub open spec fn raw_encoding(m: Seq<u8>, max: nat) -> Result<Seq<u8>, EncodeError> {
    if m.len() > max {
        Err(EncodeError::SizeExceeded)
    } else {
        Ok(m)
    }
}

/// All of the input, where it is no more than `max` bytes.
pub open spec fn raw_parse(s: Seq<u8>, max: nat) -> Result<(Seq<u8>, nat), DecodeError> {
    if s.len() > max {
        Err(DecodeError::SizeExceeded)
    } else {
        Ok((s, s.len()))
    }
}

impl<'a, const MAX: usize> Wire for Bounded<RawBytes<'a>, MAX> {
    type Model = Seq<u8>;

    open spec fn model(&self) -> Seq<u8> {
        self.0.0@
    }

    open spec fn encoding(m: Seq<u8>) -> Result<Seq<u8>, EncodeError> {
        raw_encoding(m, MAX as nat)
    }

    open spec fn parse(s: Seq<u8>) -> Result<(Seq<u8>, nat), DecodeError> {
        raw_parse(s, MAX as nat)
    }

    open spec fn self_delimiting() -> bool {
        false
    }

    open spec fn well_formed() -> bool {
        true
    }

    proof fn lemma_parse_len(s: Seq<u8>) {
    }

    proof fn lemma_round_trip(m: Seq<u8>, rest: Seq<u8>) {
        assert(m + rest =~= m);
    }
}

impl<'a, const MAX: usize> Encode for Bounded<RawBytes<'a>, MAX> {
    fn encode(&self, wtr: &mut BytesMut) -> (r: Result<(), EncodeError>) {
        if self.0.0.len() > MAX {
            return Err(EncodeError::SizeExceeded);
        }
        self.0.encode(wtr)
    }
}

impl<'a, const MAX: usize> Decode<'a> for Bounded<RawBytes<'a>, MAX> {
    fn decode(rdr: &mut &'a [u8]) -> (r: Result<Self, DecodeError>) {
        if rdr.len() > MAX {
            return Err(DecodeError::SizeExceeded);
        }
        Ok(Bounded(RawBytes(take_rest(rdr))))
    }
}

} // verus!
