//! What every packet carries besides its fields: an id, a name, the side
//! that sends it and the phase of the connection in which it is sent.

use crate::buffer::{buf_bytes, buf_len, buf_truncate};
use crate::codec::{Encode, Wire};
use crate::error::EncodeError;
use crate::varnum::{var_int_bytes, VarInt};
use bytes::BytesMut;
use vstd::prelude::*;

verus! {

/// The end of the connection that sends a packet.
#[derive(Debug, Clone, Copy, PartialEq, Eq, Structural)]
pub enum PacketSide {
    Client,
    Server,
}

impl PacketSide {
    /// The other end.
    pub fn opposite(&self) -> (r: PacketSide)
        ensures
            r == match *self {
                PacketSide::Client => PacketSide::Server,
                PacketSide::Server => PacketSide::Client,
            },
    {
        match self {
            PacketSide::Client => PacketSide::Server,
            PacketSide::Server => PacketSide::Client,
        }
    }
}

/// The phase of a connection. An id names a packet only together with a
/// phase and a side.
#[derive(Debug, Clone, Copy, PartialEq, Eq, Structural)]
pub enum PacketState {
    Handshaking,
    Status,
    Login,
    Configuration,
    Play,
}

impl PacketState {
    /// The name of the phase.
    pub fn name(&self) -> (r: String)
        ensures
            r@ == match *self {
                PacketState::Handshaking => "Handshaking"@,
                PacketState::Status => "Status"@,
                PacketState::Login => "Login"@,
                PacketState::Configuration => "Configuration"@,
                PacketState::Play => "Play"@,
            },
    {
        match self {
            PacketState::Handshaking => "Handshaking",
            PacketState::Status => "Status",
            PacketState::Login => "Login",
            PacketState::Configuration => "Configuration",
            PacketState::Play => "Play",
        }.to_owned()
    }
}

/// A packet of the protocol.
pub trait Packet {
    /// The id that stands in front of the packet's fields on the wire.
    const ID: i32;

    /// The packet's name.
    const NAME: &'static str;

    /// The side that sends the packet.
    const SIDE: PacketSide;

    /// The phase in which the packet is sent.
    const STATE: PacketState;
}

/// A packet on the wire, without the length in front: its id as a
/// `VarInt`, then its fields.
pub open spec fn packet_encoding<P: Packet + Wire>(m: P::Model) -> Result<Seq<u8>, EncodeError> {
    match P::encoding(m) {
        Ok(body) => Ok(var_int_bytes(P::ID) + body),
        Err(e) => Err(e),
    }
}

/// Appends the id of `pkt` and then its fields. Where `pkt` has no
/// encoding the buffer is left as it was.
pub fn encode_with_id<P: Packet + Encode>(pkt: &P, wtr: &mut BytesMut) -> (r: Result<
    (),
    EncodeError,
>)
    ensures
        match packet_encoding::<P>(pkt.model()) {
            Ok(bytes) => r is Ok && buf_bytes(*final(wtr)) == buf_bytes(*old(wtr)) + bytes,
            Err(e) => r == Err::<(), EncodeError>(e) && buf_bytes(*final(wtr)) == buf_bytes(
                *old(wtr),
            ),
        },
{
    let start: usize = buf_len(wtr);
    let _ = VarInt(P::ID).encode(wtr);
    match pkt.encode(wtr) {
        Ok(()) => {
            proof {
                let body = P::encoding(pkt.model()).unwrap();
                assert(buf_bytes(*old(wtr)) + var_int_bytes(P::ID) + body =~= buf_bytes(
                    *old(wtr),
                ) + (var_int_bytes(P::ID) + body));
            }
            Ok(())
        },
        Err(e) => {
            buf_truncate(wtr, start);
            proof {
                assert((buf_bytes(*old(wtr)) + var_int_bytes(P::ID)).take(start as int)
                    =~= buf_bytes(*old(wtr)));
            }
            Err(e)
        },
    }
}

} // verus!
