//! Frames out of a stream: bytes arrive in pieces of any size, and each
//! call hands out at most one whole frame.
//!
//! Frames come out in the order in which their length prefixes stand in
//! the stream. Nothing bounds the number of bytes that wait here but the
//! caller, who takes frames out as they become whole.

use crate::buffer::{
    buf_advance, buf_as_slice, buf_bytes, buf_extend_from_slice, buf_len, buf_new, buf_split_to,
    buf_unsplit,
};
use crate::codec::{Decode, Wire};
use crate::encoder::frame_encoding;
use crate::error::DecodeError;
use crate::packet::{packet_encoding, Packet};
use crate::varnum::{lemma_var_int_cut_short, lemma_var_int_len, var_int_bytes, var_int_parse, VarInt};
use crate::MAX_PACKET_SIZE;
use bytes::BytesMut;
use vstd::prelude::*;

verus! {

/// What stands at the front of the waiting bytes.
pub enum NextFrame {
    /// The length prefix, or the frame it announces, is not all there yet.
    Pending,
    /// A whole frame, which takes up the first `used` bytes.
    Ready { id: i32, body: Seq<u8>, used: nat },
    /// Bytes that can never become a frame. The first `used` of them are
    /// given up.
    Bad { error: DecodeError, used: nat },
}

/// What stands at the front of `s`: a length prefix as a `VarInt`, then a
/// frame of that many bytes, which is a packet id as a `VarInt` and a
/// body.
pub open spec fn next_frame(s: Seq<u8>) -> NextFrame {
    match var_int_parse(s) {
        Err(DecodeError::VarNumTooLarge) => NextFrame::Bad {
            error: DecodeError::VarNumTooLarge,
            used: 0,
        },
        Err(_) => NextFrame::Pending,
        Ok((len, k)) => if len < 0 {
            NextFrame::Bad { error: DecodeError::NegativeLength, used: 0 }
        } else if len > MAX_PACKET_SIZE {
            NextFrame::Bad { error: DecodeError::SizeExceeded, used: 0 }
        } else if s.len() - k < len {
            NextFrame::Pending
        } else {
            match var_int_parse(s.subrange(k as int, k + len)) {
                Ok((id, j)) => NextFrame::Ready {
                    id,
                    body: s.subrange((k + j) as int, k + len),
                    used: (k + len) as nat,
                },
                Err(error) => NextFrame::Bad { error, used: (k + len) as nat },
            }
        },
    }
}

/// One whole packet taken off the stream, not yet read.
#[derive(Debug, Clone)]
pub struct PacketFrame {
    /// The packet id.
    pub id: i32,
    /// The bytes of the packet's fields.
    pub body: BytesMut,
}

/// Why a frame is not the packet that was asked for. `packet` is the name
/// of the packet type that was asked for.
#[derive(Debug, Clone, Copy, PartialEq, Eq)]
pub enum FrameError {
    /// The frame holds a packet of another id. The caller may try another
    /// packet type.
    IdMismatch { packet: &'static str, expected: i32, got: i32 },
    /// A field of the packet cannot be read from the body. Where the error
    /// is that the body ends too early, the body is shorter than the packet
    /// type describes, as with [`FrameError::TrailingBytes`] it is longer.
    Malformed { packet: &'static str, error: DecodeError },
    /// The packet's fields end `missed` bytes before the body does: the
    /// body has another shape than the packet type describes.
    TrailingBytes { packet: &'static str, missed: usize },
}

/// The packet of type `P` that a frame of the given id and body holds.
pub open spec fn frame_packet<P: Packet + Wire>(id: i32, body: Seq<u8>) -> Result<
    P::Model,
    FrameError,
> {
    if id != P::ID {
        Err(FrameError::IdMismatch { packet: P::NAME, expected: P::ID, got: id })
    } else {
        match P::parse(body) {
            Err(error) => Err(FrameError::Malformed { packet: P::NAME, error }),
            Ok((m, n)) => if n < body.len() {
                Err(
                    FrameError::TrailingBytes {
                        packet: P::NAME,
                        missed: (body.len() - n) as usize,
                    },
                )
            } else {
                Ok(m)
            },
        }
    }
}

/// Reads the body of a frame of the given id as a packet of type `P`. The
/// id must be that of `P` and the fields of `P` must take up the whole
/// body: bytes left over are an error, not a warning.
pub fn decode_packet<'a, P: Packet + Decode<'a>>(id: i32, body: &'a [u8]) -> (r: Result<
    P,
    FrameError,
>)
    ensures
        match frame_packet::<P>(id, body@) {
            Ok(m) => r is Ok && r->Ok_0.model() == m,
            Err(e) => r is Err && r->Err_0 == e,
        },
{
    if P::ID != id {
        return Err(FrameError::IdMismatch { packet: P::NAME, expected: P::ID, got: id });
    }
    let mut rdr: &'a [u8] = body;
    proof {
        P::lemma_parse_len(rdr@);
    }
    let pkt: P = match P::decode(&mut rdr) {
        Ok(pkt) => pkt,
        Err(error) => {
            return Err(FrameError::Malformed { packet: P::NAME, error });
        },
    };
    if rdr.len() > 0 {
        return Err(FrameError::TrailingBytes { packet: P::NAME, missed: rdr.len() });
    }
    Ok(pkt)
}

impl PacketFrame {
    /// Reads the frame as a packet of type `P`, as [`decode_packet`] does.
    pub fn decode<'a, P: Packet + Decode<'a>>(&'a self) -> (r: Result<P, FrameError>)
        ensures
            match frame_packet::<P>(self.id, buf_bytes(self.body)) {
                Ok(m) => r is Ok && r->Ok_0.model() == m,
                Err(e) => r is Err && r->Err_0 == e,
            },
    {
        decode_packet::<P>(self.id, buf_as_slice(&self.body))
    }
}

/// The bytes of a stream that have arrived and not yet left as frames.
#[derive(Debug)]
pub struct PacketDecoder {
    /// The bytes that wait, oldest first.
    pub buf: BytesMut,
}

impl Default for PacketDecoder {
    fn default() -> (r: PacketDecoder)
        ensures
            r@ == Seq::<u8>::empty(),
    {
        PacketDecoder { buf: buf_new() }
    }
}

impl PacketDecoder {
    /// The bytes that wait, oldest first.
    pub open spec fn view(&self) -> Seq<u8> {
        buf_bytes(self.buf)
    }

    /// A decoder with no bytes waiting.
    pub fn new() -> (r: PacketDecoder)
        ensures
            r@ == Seq::<u8>::empty(),
    {
        PacketDecoder::default()
    }

    /// Adds `bytes` behind the bytes that wait.
    pub fn queue_bytes(&mut self, bytes: BytesMut)
        ensures
            final(self)@ == old(self)@ + buf_bytes(bytes),
    {
        buf_unsplit(&mut self.buf, bytes);
    }

    /// Adds `bytes` behind the bytes that wait.
    pub fn queue_slice(&mut self, bytes: &[u8])
        ensures
            final(self)@ == old(self)@ + bytes@,
    {
        buf_extend_from_slice(&mut self.buf, bytes);
    }

    /// Takes the frame at the front out, where a whole one is there.
    ///
    /// With no whole frame there yet the answer is `None` and nothing
    /// changes. A length prefix that runs past five bytes, is negative or
    /// is above [`MAX_PACKET_SIZE`] is an error at once, before any of the
    /// frame has arrived, and nothing changes: the stream cannot be framed
    /// any further. A whole frame without a readable packet id is an error
    /// too, and the frame is dropped.
    pub fn try_next_packet(&mut self) -> (r: Result<Option<PacketFrame>, DecodeError>)
        ensures
            match next_frame(old(self)@) {
                NextFrame::Pending => r is Ok && r->Ok_0 is None && final(self)@ == old(self)@,
                NextFrame::Ready { id, body, used } => r is Ok && r->Ok_0 is Some
                    && r->Ok_0->Some_0.id == id && buf_bytes(r->Ok_0->Some_0.body) == body
                    && final(self)@ == old(self)@.skip(used as int),
                NextFrame::Bad { error, used } => r is Err && r->Err_0 == error && final(self)@
                    == old(self)@.skip(used as int),
            },
    {
        let total: usize = buf_len(&self.buf);
        let mut rdr: &[u8] = buf_as_slice(&self.buf);
        proof {
            VarInt::lemma_parse_len(rdr@);
            assert(self@.skip(0) =~= self@);
        }
        let pkt_len: i32 = match VarInt::decode(&mut rdr) {
            Ok(len) => len.0,
            Err(DecodeError::VarNumTooLarge) => {
                return Err(DecodeError::VarNumTooLarge);
            },
            Err(_) => {
                return Ok(None);
            },
        };
        if pkt_len < 0 {
            return Err(DecodeError::NegativeLength);
        }
        if pkt_len > MAX_PACKET_SIZE {
            return Err(DecodeError::SizeExceeded);
        }
        if rdr.len() < pkt_len as usize {
            return Ok(None);
        }
        let prefix_len: usize = total - rdr.len();
        let ghost all = self@;
        buf_advance(&mut self.buf, prefix_len);
        let mut data: BytesMut = buf_split_to(&mut self.buf, pkt_len as usize);
        proof {
            assert(buf_bytes(data) =~= all.subrange(prefix_len as int, prefix_len + pkt_len));
            assert(self@ =~= all.skip(prefix_len + pkt_len));
        }
        let data_len: usize = buf_len(&data);
        let mut body: &[u8] = buf_as_slice(&data);
        proof {
            VarInt::lemma_parse_len(body@);
        }
        let id: i32 = match VarInt::decode(&mut body) {
            Ok(id) => id.0,
            Err(e) => {
                return Err(e);
            },
        };
        let id_len: usize = data_len - body.len();
        buf_advance(&mut data, id_len);
        proof {
            assert(buf_bytes(data) =~= all.subrange(prefix_len + id_len, prefix_len + pkt_len));
        }
        Ok(Some(PacketFrame { id, body: data }))
    }
}

/// A framed packet at the front of the waiting bytes comes out as a frame
/// with the packet's id and the bytes of its fields, whatever follows it.
pub proof fn lemma_frame_round_trip<P: Packet + Wire>(m: P::Model, rest: Seq<u8>)
    requires
        frame_encoding::<P>(m) is Ok,
    ensures
        next_frame(frame_encoding::<P>(m).unwrap() + rest) == (NextFrame::Ready {
            id: P::ID,
            body: P::encoding(m).unwrap(),
            used: frame_encoding::<P>(m).unwrap().len(),
        }),
{
    let body = P::encoding(m).unwrap();
    let id = var_int_bytes(P::ID);
    let packet = packet_encoding::<P>(m).unwrap();
    let len = packet.len() as i32;
    let prefix = var_int_bytes(len);
    let all = prefix + packet + rest;
    VarInt::lemma_round_trip(len, packet + rest);
    assert(prefix + (packet + rest) =~= all);
    let k = prefix.len();
    assert(all.subrange(k as int, k + len) =~= packet);
    VarInt::lemma_round_trip(P::ID, body);
    assert(all.subrange((k + id.len()) as int, k + len) =~= body);
}

/// The fields of a packet, framed under the packet's own id, read back as
/// the packet.
pub proof fn lemma_frame_packet_round_trip<P: Packet + Wire>(m: P::Model)
    requires
        P::well_formed(),
        P::encoding(m) is Ok,
    ensures
        frame_packet::<P>(P::ID, P::encoding(m).unwrap()) == Ok::<P::Model, FrameError>(m),
{
    P::lemma_round_trip(m, Seq::empty());
    assert(P::encoding(m).unwrap() + Seq::<u8>::empty() =~= P::encoding(m).unwrap());
}

/// A frame under another id than the packet's own is a mismatch, whatever
/// its body holds.
pub proof fn lemma_frame_id_mismatch<P: Packet + Wire>(id: i32, body: Seq<u8>)
    requires
        id != P::ID,
    ensures
        frame_packet::<P>(id, body) == Err::<P::Model, FrameError>(
            FrameError::IdMismatch { packet: P::NAME, expected: P::ID, got: id },
        ),
{
}

/// A framed packet of which only the first `k` bytes have arrived is no
/// frame yet, and no error either, wherever the stream was cut.
pub proof fn lemma_partial_frame_pending<P: Packet + Wire>(m: P::Model, k: int)
    requires
        frame_encoding::<P>(m) is Ok,
        0 <= k < frame_encoding::<P>(m).unwrap().len(),
    ensures
        next_frame(frame_encoding::<P>(m).unwrap().take(k)) == NextFrame::Pending,
{
    let packet = packet_encoding::<P>(m).unwrap();
    let len = packet.len() as i32;
    let prefix = var_int_bytes(len);
    let cut = (prefix + packet).take(k);
    lemma_var_int_len(len);
    if k < prefix.len() {
        lemma_var_int_cut_short(len, k);
        assert(cut =~= prefix.take(k));
    } else {
        let part = packet.take(k - prefix.len());
        VarInt::lemma_round_trip(len, part);
        assert(cut =~= prefix + part);
    }
}

/// A length above the limit is an error as soon as the length itself has
/// arrived, whether or not a single byte of the frame has.
pub proof fn lemma_oversized_frame(len: i32, rest: Seq<u8>)
    requires
        len > MAX_PACKET_SIZE,
    ensures
        next_frame(var_int_bytes(len) + rest) == (NextFrame::Bad {
            error: DecodeError::SizeExceeded,
            used: 0,
        }),
{
    VarInt::lemma_round_trip(len, rest);
}

} // verus!
