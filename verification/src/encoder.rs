//! Packets into a stream: each packet goes out as its length, its id and
//! its fields, and waits in one buffer until the transport takes it.

use crate::buffer::{
    buf_bytes, buf_copy_within, buf_len, buf_new, buf_put_bytes, buf_split, buf_truncate,
};
use crate::codec::{Encode, Wire};
use crate::error::EncodeError;
use crate::packet::{encode_with_id, packet_encoding, Packet};
use crate::varnum::{var_int_bytes, VarInt};
use crate::MAX_PACKET_SIZE;
use bytes::BytesMut;
use vstd::prelude::*;

verus! {

/// A packet as it stands in the stream: the length of what follows as a
/// `VarInt`, then the packet's id and fields. A packet whose id and fields
/// take more than [`MAX_PACKET_SIZE`] bytes has no frame.
pub open spec fn frame_encoding<P: Packet + Wire>(m: P::Model) -> Result<Seq<u8>, EncodeError> {
    match packet_encoding::<P>(m) {
        Err(e) => Err(e),
        Ok(bytes) => if bytes.len() > MAX_PACKET_SIZE {
            Err(EncodeError::SizeExceeded)
        } else {
            Ok(var_int_bytes(bytes.len() as i32) + bytes)
        },
    }
}

/// The framed packets that wait for the transport.
#[derive(Debug)]
pub struct PacketEncoder {
    buf: BytesMut,
}

impl Default for PacketEncoder {
    fn default() -> (r: PacketEncoder)
        ensures
            r@ == Seq::<u8>::empty(),
    {
        PacketEncoder { buf: buf_new() }
    }
}

impl PacketEncoder {
    /// The bytes that wait, in the order in which they go out.
    pub closed spec fn view(&self) -> Seq<u8> {
        buf_bytes(self.buf)
    }

    /// An encoder with nothing waiting.
    pub fn new() -> (r: PacketEncoder)
        ensures
            r@ == Seq::<u8>::empty(),
    {
        PacketEncoder::default()
    }

    /// Frames `pkt` and puts it behind what waits. Where `pkt` has no frame
    /// nothing changes.
    ///
    /// The id and fields are written first, at the end of the buffer. Then
    /// room for the length is opened in front of them, of exactly the size
    /// that the length takes, and the length is written into it.
    pub fn append_packet<P: Packet + Encode>(&mut self, pkt: &P) -> (r: Result<(), EncodeError>)
        ensures
            match frame_encoding::<P>(pkt.model()) {
                Ok(bytes) => r is Ok && final(self)@ == old(self)@ + bytes,
                Err(e) => r == Err::<(), EncodeError>(e) && final(self)@ == old(self)@,
            },
    {
        let start: usize = buf_len(&self.buf);
        match encode_with_id(pkt, &mut self.buf) {
            Ok(()) => {},
            Err(e) => {
                return Err(e);
            },
        }
        let ghost body = packet_encoding::<P>(pkt.model()).unwrap();
        let pkt_len: usize = buf_len(&self.buf) - start;
        if pkt_len > MAX_PACKET_SIZE as usize {
            buf_truncate(&mut self.buf, start);
            proof {
                assert((old(self)@ + body).take(start as int) =~= old(self)@);
            }
            return Err(EncodeError::SizeExceeded);
        }
        let prefix: VarInt = VarInt(pkt_len as i32);
        let size: usize = prefix.size();
        buf_put_bytes(&mut self.buf, 0, size);
        buf_copy_within(&mut self.buf, start, start + pkt_len, start + size);
        prefix.overwrite(&mut self.buf, start);
        proof {
            assert(self@ =~= old(self)@ + (var_int_bytes(pkt_len as i32) + body));
        }
        Ok(())
    }

    /// Hands out all that waits and keeps nothing.
    pub fn take(&mut self) -> (r: BytesMut)
        ensures
            buf_bytes(r) == old(self)@,
            final(self)@ == Seq::<u8>::empty(),
    {
        buf_split(&mut self.buf)
    }
}

} // verus!
