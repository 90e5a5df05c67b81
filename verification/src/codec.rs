//! The contract between a type and its wire form.

use crate::buffer::buf_bytes;
use crate::error::{DecodeError, EncodeError};
use bytes::BytesMut;
use vstd::prelude::*;

verus! {

/// The wire form of a type, as mathematics: which bytes stand for which value.
///
/// `Model` is the value stripped of its representation (a `Vec` becomes a
/// `Seq`, a `String` a sequence of characters). `encoding` gives the bytes of
/// a value, or the reason it has none; `parse` reads a value off the front of
/// a byte sequence and says how many bytes it took.
pub trait Wire {
    type Model;

    /// The mathematical value that `self` holds.
    spec fn model(&self) -> Self::Model;

    /// The bytes that stand for `m`, or why `m` cannot be written.
    spec fn encoding(m: Self::Model) -> Result<Seq<u8>, EncodeError>;

    /// The value at the front of `s` and the number of bytes it occupies, or
    /// why there is none.
    spec fn parse(s: Seq<u8>) -> Result<(Self::Model, nat), DecodeError>;

    /// Whether a value's own bytes say where it ends. A type for which this
    /// is false takes all that is left and can only stand last.
    spec fn self_delimiting() -> bool;

    /// Whether every part of the type that is followed by another part is
    /// self-delimiting, so that parsing finds each part where encoding put it.
    spec fn well_formed() -> bool;

    /// Parsing never claims more bytes than it was given.
    proof fn lemma_parse_len(s: Seq<u8>)
        ensures
            Self::parse(s) is Ok ==> Self::parse(s).unwrap().1 <= s.len(),
    ;

    /// Parsing undoes encoding: the bytes of `m`, followed by anything at
    /// all where the type is self-delimiting, parse back to `m` and to
    /// exactly the bytes that `m` was given.
    proof fn lemma_round_trip(m: Self::Model, rest: Seq<u8>)
        requires
            Self::well_formed(),
            Self::encoding(m) is Ok,
            Self::self_delimiting() || rest.len() == 0,
        ensures
            Self::parse(Self::encoding(m).unwrap() + rest) == Ok::<(Self::Model, nat), DecodeError>(
                (m, Self::encoding(m).unwrap().len()),
            ),
    ;
}

/// A value that can be appended to a byte buffer.
pub trait Encode: Wire {
    /// Appends the bytes of `self` to `wtr`. Where `self` has no encoding the
    /// buffer is left as it was.
    fn encode(&self, wtr: &mut BytesMut) -> (r: Result<(), EncodeError>)
        ensures
            match Self::encoding(self.model()) {
                Ok(bytes) => r is Ok && buf_bytes(*final(wtr)) == buf_bytes(*old(wtr)) + bytes,
                Err(e) => r == Err::<(), EncodeError>(e) && buf_bytes(*final(wtr)) == buf_bytes(
                    *old(wtr),
                ),
            },
    ;
}

/// A value that can be read off the front of a byte slice.
pub trait Decode<'a>: Wire + Sized {
    /// Reads one value from the front of `rdr` and moves `rdr` past it. Where
    /// the front of `rdr` holds no value, `rdr` is left as it was.
    fn decode(rdr: &mut &'a [u8]) -> (r: Result<Self, DecodeError>)
        ensures
            match Self::parse(old(rdr)@) {
                Ok((m, n)) => r is Ok && r.unwrap().model() == m && final(rdr)@ == old(rdr)@.skip(
                    n as int,
                ),
                Err(e) => r is Err && r->Err_0 == e && final(rdr)@ == old(rdr)@,
            },
    ;
}

} // verus!
