//! A codec for a length-framed, stateful packet protocol.
//!
//! Every packet travels as `VarInt(length) || VarInt(id) || fields`. The
//! modules build that up from the leaves:
//!
//! - [`varnum`]: variable-length integers;
//! - [`primitive`], [`string`], [`raw`], [`bounded`], [`container`],
//!   [`position`], [`other`]: the wire forms of the values that fields hold;
//! - [`nbt`]: named binary tags, a tree format of its own inside packets;
//! - [`codec`]: the contract that all of these meet, and its laws;
//! - [`packet`], [`packets`], [`schema`]: the packets and the table that
//!   names them;
//! - [`encoder`], [`decoder`]: packets into a stream and frames out of one;
//! - [`buffer`]: the outside byte buffers, taken on trust.
//!
//! Encoding and decoding either succeed or leave what they were given as
//! it was: a value that cannot be written leaves no bytes behind, and
//! input that cannot be read is not consumed.

use vstd::prelude::*;

pub mod axis;
pub mod bounded;
pub mod buffer;
pub mod codec;
pub mod container;
pub mod decoder;
pub mod encoder;
pub mod endian;
pub mod error;
pub mod nbt;
pub mod other;
pub mod packet;
pub mod packets;
pub mod position;
pub mod primitive;
pub mod raw;
pub mod schema;
pub mod string;
pub mod varnum;

pub use axis::{Axis, BlockType, Direction};
pub use bounded::Bounded;
pub use codec::{Decode, Encode, Wire};
pub use container::LenPrefixed;
pub use decoder::{decode_packet, FrameError, PacketDecoder, PacketFrame};
pub use encoder::PacketEncoder;
pub use error::{DecodeError, EncodeError};
pub use nbt::{Compound, List, NBT};
pub use other::Uuid;
pub use packet::{encode_with_id, packet_encoding, Packet, PacketSide, PacketState};
pub use position::Position;
pub use primitive::{Float32, Float64};
pub use raw::RawBytes;
pub use string::MAX_STRING_LEN;
pub use varnum::{VarInt, VarLong};

verus! {

/// The largest total length, in bytes, that a frame may declare.
pub const MAX_PACKET_SIZE: i32 = 2097152;

/// The largest opaque payload, in bytes, that a plugin message may carry.
pub const MAX_DATA_LEN: usize = 1048576;

} // verus!
