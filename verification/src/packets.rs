//! The packets of protocol version 767, phase by phase.
//!
//! A packet's fields travel in the order of their declaration, with nothing
//! between them and nothing around them. So the wire form of a packet is
//! that of the tuple of its fields, nested to the right, and every packet
//! below takes its encoding, its parsing and their laws from that tuple.

use crate::bounded::Bounded;
use crate::codec::{Decode, Encode, Wire};
use crate::container::LenPrefixed;
use crate::error::{DecodeError, EncodeError};
use crate::nbt::NBT;
use crate::other::Uuid;
use crate::packet::{Packet, PacketSide, PacketState};
use crate::position::Position;
use crate::primitive::{Float32, Float64};
use crate::raw::RawBytes;
use crate::schema::{index_of, table};
use crate::varnum::{var_int_bytes, var_int_parse, VarInt};
use bytes::BytesMut;
use vstd::prelude::*;

verus! {

/// The version of the protocol that these packets belong to.
pub const PROTOCOL_VERSION: i32 = 767;

/// The phase that a handshake asks for.
///
/// On the wire a variant is its place in the declaration, from 0, as a
/// `VarInt`.
#[derive(Debug, Copy, Clone, PartialEq, Eq, Structural)]
pub enum HandshakeNextState {
    Status,
    Login,
}

impl HandshakeNextState {
    /// The place of the variant in the declaration, from 0.
    pub open spec fn index(self) -> i32 {
        match self {
            HandshakeNextState::Status => 0,
            HandshakeNextState::Login => 1,
        }
    }

    /// The variant at a place, if there is one.
    pub open spec fn at(index: i32) -> Option<HandshakeNextState> {
        if index == 0 {
            Some(HandshakeNextState::Status)
        } else if index == 1 {
            Some(HandshakeNextState::Login)
        } else {
            None
        }
    }
}

impl Wire for HandshakeNextState {
    type Model = HandshakeNextState;

    open spec fn model(&self) -> HandshakeNextState {
        *self
    }

    open spec fn encoding(m: HandshakeNextState) -> Result<Seq<u8>, EncodeError> {
        Ok(var_int_bytes(m.index()))
    }

    open spec fn parse(s: Seq<u8>) -> Result<(HandshakeNextState, nat), DecodeError> {
        match var_int_parse(s) {
            Err(e) => Err(e),
            Ok((index, n)) => match HandshakeNextState::at(index) {
                Some(m) => Ok((m, n)),
                None => Err(DecodeError::UnknownVariant),
            },
        }
    }

    open spec fn self_delimiting() -> bool {
        true
    }

    open spec fn well_formed() -> bool {
        true
    }

    proof fn lemma_parse_len(s: Seq<u8>) {
        VarInt::lemma_parse_len(s);
    }

    proof fn lemma_round_trip(m: HandshakeNextState, rest: Seq<u8>) {
        VarInt::lemma_round_trip(m.index(), rest);
    }
}

impl Encode for HandshakeNextState {
    fn encode(&self, wtr: &mut BytesMut) -> (r: Result<(), EncodeError>) {
        let index: i32 = match self {
            HandshakeNextState::Status => 0,
            HandshakeNextState::Login => 1,
        };
        VarInt(index).encode(wtr)
    }
}

impl<'a> Decode<'a> for HandshakeNextState {
    fn decode(rdr: &mut &'a [u8]) -> (r: Result<Self, DecodeError>) {
        let start: &'a [u8] = *rdr;
        let index: i32 = match VarInt::decode(rdr) {
            Ok(v) => v.0,
            Err(e) => {
                return Err(e);
            },
        };
        match index {
            0 => Ok(HandshakeNextState::Status),
            1 => Ok(HandshakeNextState::Login),
            _ => {
                *rdr = start;
                Err(DecodeError::UnknownVariant)
            },
        }
    }
}

/// How much of the chat a client shows.
///
/// On the wire a variant is its place in the declaration, from 0, as a
/// `VarInt`.
#[derive(Debug, Copy, Clone, PartialEq, Eq, Structural)]
pub enum ChatMode {
    Enabled,
    CommandOnly,
    Hidden,
}

impl ChatMode {
    /// The place of the variant in the declaration, from 0.
    pub open spec fn index(self) -> i32 {
        match self {
            ChatMode::Enabled => 0,
            ChatMode::CommandOnly => 1,
            ChatMode::Hidden => 2,
        }
    }

    /// The variant at a place, if there is one.
    pub open spec fn at(index: i32) -> Option<ChatMode> {
        if index == 0 {
            Some(ChatMode::Enabled)
        } else if index == 1 {
            Some(ChatMode::CommandOnly)
        } else if index == 2 {
            Some(ChatMode::Hidden)
        } else {
            None
        }
    }
}

impl Wire for ChatMode {
    type Model = ChatMode;

    open spec fn model(&self) -> ChatMode {
        *self
    }

    open spec fn encoding(m: ChatMode) -> Result<Seq<u8>, EncodeError> {
        Ok(var_int_bytes(m.index()))
    }

    open spec fn parse(s: Seq<u8>) -> Result<(ChatMode, nat), DecodeError> {
        match var_int_parse(s) {
            Err(e) => Err(e),
            Ok((index, n)) => match ChatMode::at(index) {
                Some(m) => Ok((m, n)),
                None => Err(DecodeError::UnknownVariant),
            },
        }
    }

    open spec fn self_delimiting() -> bool {
        true
    }

    open spec fn well_formed() -> bool {
        true
    }

    proof fn lemma_parse_len(s: Seq<u8>) {
        VarInt::lemma_parse_len(s);
    }

    proof fn lemma_round_trip(m: ChatMode, rest: Seq<u8>) {
        VarInt::lemma_round_trip(m.index(), rest);
    }
}

impl Encode for ChatMode {
    fn encode(&self, wtr: &mut BytesMut) -> (r: Result<(), EncodeError>) {
        let index: i32 = match self {
            ChatMode::Enabled => 0,
            ChatMode::CommandOnly => 1,
            ChatMode::Hidden => 2,
        };
        VarInt(index).encode(wtr)
    }
}

impl<'a> Decode<'a> for ChatMode {
    fn decode(rdr: &mut &'a [u8]) -> (r: Result<Self, DecodeError>) {
        let start: &'a [u8] = *rdr;
        let index: i32 = match VarInt::decode(rdr) {
            Ok(v) => v.0,
            Err(e) => {
                return Err(e);
            },
        };
        match index {
            0 => Ok(ChatMode::Enabled),
            1 => Ok(ChatMode::CommandOnly),
            2 => Ok(ChatMode::Hidden),
            _ => {
                *rdr = start;
                Err(DecodeError::UnknownVariant)
            },
        }
    }
}

/// The main hand of a player.
///
/// On the wire a variant is its place in the declaration, from 0, as a
/// `VarInt`.
#[derive(Debug, Copy, Clone, PartialEq, Eq, Structural)]
pub enum Hand {
    Left,
    Right,
}

impl Hand {
    /// The place of the variant in the declaration, from 0.
    pub open spec fn index(self) -> i32 {
        match self {
            Hand::Left => 0,
            Hand::Right => 1,
        }
    }

    /// The variant at a place, if there is one.
    pub open spec fn at(index: i32) -> Option<Hand> {
        if index == 0 {
            Some(Hand::Left)
        } else if index == 1 {
            Some(Hand::Right)
        } else {
            None
        }
    }
}

impl Wire for Hand {
    type Model = Hand;

    open spec fn model(&self) -> Hand {
        *self
    }

    open spec fn encoding(m: Hand) -> Result<Seq<u8>, EncodeError> {
        Ok(var_int_bytes(m.index()))
    }

    open spec fn parse(s: Seq<u8>) -> Result<(Hand, nat), DecodeError> {
        match var_int_parse(s) {
            Err(e) => Err(e),
            Ok((index, n)) => match Hand::at(index) {
                Some(m) => Ok((m, n)),
                None => Err(DecodeError::UnknownVariant),
            },
        }
    }

    open spec fn self_delimiting() -> bool {
        true
    }

    open spec fn well_formed() -> bool {
        true
    }

    proof fn lemma_parse_len(s: Seq<u8>) {
        VarInt::lemma_parse_len(s);
    }

    proof fn lemma_round_trip(m: Hand, rest: Seq<u8>) {
        VarInt::lemma_round_trip(m.index(), rest);
    }
}

impl Encode for Hand {
    fn encode(&self, wtr: &mut BytesMut) -> (r: Result<(), EncodeError>) {
        let index: i32 = match self {
            Hand::Left => 0,
            Hand::Right => 1,
        };
        VarInt(index).encode(wtr)
    }
}

impl<'a> Decode<'a> for Hand {
    fn decode(rdr: &mut &'a [u8]) -> (r: Result<Self, DecodeError>) {
        let start: &'a [u8] = *rdr;
        let index: i32 = match VarInt::decode(rdr) {
            Ok(v) => v.0,
            Err(e) => {
                return Err(e);
            },
        };
        match index {
            0 => Ok(Hand::Left),
            1 => Ok(Hand::Right),
            _ => {
                *rdr = start;
                Err(DecodeError::UnknownVariant)
            },
        }
    }
}

/// What became of a resource pack that the server offered.
///
/// On the wire a variant is its place in the declaration, from 0, as a
/// `VarInt`.
#[derive(Debug, Copy, Clone, PartialEq, Eq, Structural)]
pub enum ResourcePackResponseConfigurationResult {
    SuccessfullyDownloaded,
    Declined,
    FailedToDownload,
    Accpeted,
    Downloaded,
    InvalidURL,
    FailedToReload,
    Discarded,
}

impl ResourcePackResponseConfigurationResult {
    /// The place of the variant in the declaration, from 0.
    pub open spec fn index(self) -> i32 {
        match self {
            ResourcePackResponseConfigurationResult::SuccessfullyDownloaded => 0,
            ResourcePackResponseConfigurationResult::Declined => 1,
            ResourcePackResponseConfigurationResult::FailedToDownload => 2,
            ResourcePackResponseConfigurationResult::Accpeted => 3,
            ResourcePackResponseConfigurationResult::Downloaded => 4,
            ResourcePackResponseConfigurationResult::InvalidURL => 5,
            ResourcePackResponseConfigurationResult::FailedToReload => 6,
            ResourcePackResponseConfigurationResult::Discarded => 7,
        }
    }

    /// The variant at a place, if there is one.
    pub open spec fn at(index: i32) -> Option<ResourcePackResponseConfigurationResult> {
        if index == 0 {
            Some(ResourcePackResponseConfigurationResult::SuccessfullyDownloaded)
        } else if index == 1 {
            Some(ResourcePackResponseConfigurationResult::Declined)
        } else if index == 2 {
            Some(ResourcePackResponseConfigurationResult::FailedToDownload)
        } else if index == 3 {
            Some(ResourcePackResponseConfigurationResult::Accpeted)
        } else if index == 4 {
            Some(ResourcePackResponseConfigurationResult::Downloaded)
        } else if index == 5 {
            Some(ResourcePackResponseConfigurationResult::InvalidURL)
        } else if index == 6 {
            Some(ResourcePackResponseConfigurationResult::FailedToReload)
        } else if index == 7 {
            Some(ResourcePackResponseConfigurationResult::Discarded)
        } else {
            None
        }
    }
}

impl Wire for ResourcePackResponseConfigurationResult {
    type Model = ResourcePackResponseConfigurationResult;

    open spec fn model(&self) -> ResourcePackResponseConfigurationResult {
        *self
    }

    open spec fn encoding(m: ResourcePackResponseConfigurationResult) -> Result<Seq<u8>, EncodeError> {
        Ok(var_int_bytes(m.index()))
    }

    open spec fn parse(s: Seq<u8>) -> Result<(ResourcePackResponseConfigurationResult, nat), DecodeError> {
        match var_int_parse(s) {
            Err(e) => Err(e),
            Ok((index, n)) => match ResourcePackResponseConfigurationResult::at(index) {
                Some(m) => Ok((m, n)),
                None => Err(DecodeError::UnknownVariant),
            },
        }
    }

    open spec fn self_delimiting() -> bool {
        true
    }

    open spec fn well_formed() -> bool {
        true
    }

    proof fn lemma_parse_len(s: Seq<u8>) {
        VarInt::lemma_parse_len(s);
    }

    proof fn lemma_round_trip(m: ResourcePackResponseConfigurationResult, rest: Seq<u8>) {
        VarInt::lemma_round_trip(m.index(), rest);
    }
}

impl Encode for ResourcePackResponseConfigurationResult {
    fn encode(&self, wtr: &mut BytesMut) -> (r: Result<(), EncodeError>) {
        let index: i32 = match self {
            ResourcePackResponseConfigurationResult::SuccessfullyDownloaded => 0,
            ResourcePackResponseConfigurationResult::Declined => 1,
            ResourcePackResponseConfigurationResult::FailedToDownload => 2,
            ResourcePackResponseConfigurationResult::Accpeted => 3,
            ResourcePackResponseConfigurationResult::Downloaded => 4,
            ResourcePackResponseConfigurationResult::InvalidURL => 5,
            ResourcePackResponseConfigurationResult::FailedToReload => 6,
            ResourcePackResponseConfigurationResult::Discarded => 7,
        };
        VarInt(index).encode(wtr)
    }
}

impl<'a> Decode<'a> for ResourcePackResponseConfigurationResult {
    fn decode(rdr: &mut &'a [u8]) -> (r: Result<Self, DecodeError>) {
        let start: &'a [u8] = *rdr;
        let index: i32 = match VarInt::decode(rdr) {
            Ok(v) => v.0,
            Err(e) => {
                return Err(e);
            },
        };
        match index {
            0 => Ok(ResourcePackResponseConfigurationResult::SuccessfullyDownloaded),
            1 => Ok(ResourcePackResponseConfigurationResult::Declined),
            2 => Ok(ResourcePackResponseConfigurationResult::FailedToDownload),
            3 => Ok(ResourcePackResponseConfigurationResult::Accpeted),
            4 => Ok(ResourcePackResponseConfigurationResult::Downloaded),
            5 => Ok(ResourcePackResponseConfigurationResult::InvalidURL),
            6 => Ok(ResourcePackResponseConfigurationResult::FailedToReload),
            7 => Ok(ResourcePackResponseConfigurationResult::Discarded),
            _ => {
                *rdr = start;
                Err(DecodeError::UnknownVariant)
            },
        }
    }
}

/// A property of a player's profile.
#[derive(Debug, Copy, Clone, PartialEq, Eq)]
pub struct Property<S = String> {
    pub name: S,
    pub value: S,
    pub signature: Option<S>,
}

impl<S: Wire> Wire for Property<S> {
    type Model = (S::Model, (S::Model, Option<S::Model>));

    open spec fn model(&self) -> Self::Model {
        (self.name.model(), (self.value.model(), self.signature.model()))
    }

    open spec fn encoding(m: Self::Model) -> Result<Seq<u8>, EncodeError> {
        <(S, (S, Option<S>))>::encoding(m)
    }

    open spec fn parse(s: Seq<u8>) -> Result<(Self::Model, nat), DecodeError> {
        <(S, (S, Option<S>))>::parse(s)
    }

    open spec fn self_delimiting() -> bool {
        <(S, (S, Option<S>))>::self_delimiting()
    }

    open spec fn well_formed() -> bool {
        <(S, (S, Option<S>))>::well_formed()
    }

    proof fn lemma_parse_len(s: Seq<u8>) {
        <(S, (S, Option<S>))>::lemma_parse_len(s);
    }

    proof fn lemma_round_trip(m: Self::Model, rest: Seq<u8>) {
        <(S, (S, Option<S>))>::lemma_round_trip(m, rest);
    }
}

impl<S: Encode> Encode for Property<S> {
    fn encode(&self, wtr: &mut BytesMut) -> (r: Result<(), EncodeError>) {
        (&self.name, (&self.value, &self.signature)).encode(wtr)
    }
}

impl<'a, S: Decode<'a>> Decode<'a> for Property<S> {
    fn decode(rdr: &mut &'a [u8]) -> (r: Result<Self, DecodeError>) {
        match <(S, (S, Option<S>))>::decode(rdr) {
            Ok((name, (value, signature))) => Ok(Property { name, value, signature }),
            Err(e) => Err(e),
        }
    }
}

/// A data pack that a side knows: where it comes from, what it is called and in which version.
#[derive(Debug, Clone, PartialEq, Eq)]
pub struct KnownPack<'a> {
    pub namespace: &'a str,
    pub id: &'a str,
    pub version: &'a str,
}

/// The fields of [`KnownPack`], in the order in which they travel.
pub type KnownPackFields<'a> = (&'a str, (&'a str, &'a str));

impl<'a> Wire for KnownPack<'a> {
    type Model = <KnownPackFields<'a> as Wire>::Model;

    open spec fn model(&self) -> Self::Model {
        (self.namespace.model(), (self.id.model(), self.version.model()))
    }

    open spec fn encoding(m: Self::Model) -> Result<Seq<u8>, EncodeError> {
        <KnownPackFields<'a>>::encoding(m)
    }

    open spec fn parse(s: Seq<u8>) -> Result<(Self::Model, nat), DecodeError> {
        <KnownPackFields<'a>>::parse(s)
    }

    open spec fn self_delimiting() -> bool {
        <KnownPackFields<'a>>::self_delimiting()
    }

    open spec fn well_formed() -> bool {
        <KnownPackFields<'a>>::well_formed()
    }

    proof fn lemma_parse_len(s: Seq<u8>) {
        <KnownPackFields<'a>>::lemma_parse_len(s);
    }

    proof fn lemma_round_trip(m: Self::Model, rest: Seq<u8>) {
        <KnownPackFields<'a>>::lemma_round_trip(m, rest);
    }
}

impl<'a> Encode for KnownPack<'a> {
    fn encode(&self, wtr: &mut BytesMut) -> (r: Result<(), EncodeError>) {
        (&self.namespace, (&self.id, &self.version)).encode(wtr)
    }
}

impl<'a> Decode<'a> for KnownPack<'a> {
    fn decode(rdr: &mut &'a [u8]) -> (r: Result<Self, DecodeError>) {
        match <KnownPackFields<'a>>::decode(rdr) {
            Ok((namespace, (id, version))) => Ok(KnownPack { namespace, id, version }),
            Err(e) => Err(e),
        }
    }
}

/// A tag of a registry: its name and the ids of the entries that carry it.
#[derive(Debug, Clone, PartialEq, Eq)]
pub struct Tag {
    pub identifier: String,
    pub ids: LenPrefixed<VarInt>,
}

/// The fields of [`Tag`], in the order in which they travel.
pub type TagFields = (String, LenPrefixed<VarInt>);

impl Wire for Tag {
    type Model = <TagFields as Wire>::Model;

    open spec fn model(&self) -> Self::Model {
        (self.identifier.model(), self.ids.model())
    }

    open spec fn encoding(m: Self::Model) -> Result<Seq<u8>, EncodeError> {
        <TagFields>::encoding(m)
    }

    open spec fn parse(s: Seq<u8>) -> Result<(Self::Model, nat), DecodeError> {
        <TagFields>::parse(s)
    }

    open spec fn self_delimiting() -> bool {
        <TagFields>::self_delimiting()
    }

    open spec fn well_formed() -> bool {
        <TagFields>::well_formed()
    }

    proof fn lemma_parse_len(s: Seq<u8>) {
        <TagFields>::lemma_parse_len(s);
    }

    proof fn lemma_round_trip(m: Self::Model, rest: Seq<u8>) {
        <TagFields>::lemma_round_trip(m, rest);
    }
}

impl Encode for Tag {
    fn encode(&self, wtr: &mut BytesMut) -> (r: Result<(), EncodeError>) {
        (&self.identifier, &self.ids).encode(wtr)
    }
}

impl<'a> Decode<'a> for Tag {
    fn decode(rdr: &mut &'a [u8]) -> (r: Result<Self, DecodeError>) {
        match <TagFields>::decode(rdr) {
            Ok((identifier, ids)) => Ok(Tag { identifier, ids }),
            Err(e) => Err(e),
        }
    }
}

/// The tags of one registry.
#[derive(Debug, Clone, PartialEq, Eq)]
pub struct TagArray {
    pub identifier: String,
    pub tags: LenPrefixed<Tag>,
}

/// The fields of [`TagArray`], in the order in which they travel.
pub type TagArrayFields = (String, LenPrefixed<Tag>);

impl Wire for TagArray {
    type Model = <TagArrayFields as Wire>::Model;

    open spec fn model(&self) -> Self::Model {
        (self.identifier.model(), self.tags.model())
    }

    open spec fn encoding(m: Self::Model) -> Result<Seq<u8>, EncodeError> {
        <TagArrayFields>::encoding(m)
    }

    open spec fn parse(s: Seq<u8>) -> Result<(Self::Model, nat), DecodeError> {
        <TagArrayFields>::parse(s)
    }

    open spec fn self_delimiting() -> bool {
        <TagArrayFields>::self_delimiting()
    }

    open spec fn well_formed() -> bool {
        <TagArrayFields>::well_formed()
    }

    proof fn lemma_parse_len(s: Seq<u8>) {
        <TagArrayFields>::lemma_parse_len(s);
    }

    proof fn lemma_round_trip(m: Self::Model, rest: Seq<u8>) {
        <TagArrayFields>::lemma_round_trip(m, rest);
    }
}

impl Encode for TagArray {
    fn encode(&self, wtr: &mut BytesMut) -> (r: Result<(), EncodeError>) {
        (&self.identifier, &self.tags).encode(wtr)
    }
}

impl<'a> Decode<'a> for TagArray {
    fn decode(rdr: &mut &'a [u8]) -> (r: Result<Self, DecodeError>) {
        match <TagArrayFields>::decode(rdr) {
            Ok((identifier, tags)) => Ok(TagArray { identifier, tags }),
            Err(e) => Err(e),
        }
    }
}

/// Opens a connection and says which phase comes next.
#[derive(Debug, PartialEq)]
pub struct Handshake<'a> {
    pub protocol_version: VarInt,
    pub host: &'a str,
    pub port: u16,
    pub next: u8,
}

/// The fields of [`Handshake`], in the order in which they travel.
pub type HandshakeFields<'a> = (VarInt, (&'a str, (u16, u8)));

impl<'a> Packet for Handshake<'a> {
    const ID: i32 = 0x00;

    const NAME: &'static str = "Handshake";

    const SIDE: PacketSide = PacketSide::Server;

    const STATE: PacketState = PacketState::Handshaking;
}

impl<'a> Wire for Handshake<'a> {
    type Model = <HandshakeFields<'a> as Wire>::Model;

    open spec fn model(&self) -> Self::Model {
        (self.protocol_version.model(), (self.host.model(), (self.port.model(),
            self.next.model())))
    }

    open spec fn encoding(m: Self::Model) -> Result<Seq<u8>, EncodeError> {
        <HandshakeFields<'a>>::encoding(m)
    }

    open spec fn parse(s: Seq<u8>) -> Result<(Self::Model, nat), DecodeError> {
        <HandshakeFields<'a>>::parse(s)
    }

    open spec fn self_delimiting() -> bool {
        <HandshakeFields<'a>>::self_delimiting()
    }

    open spec fn well_formed() -> bool {
        <HandshakeFields<'a>>::well_formed()
    }

    proof fn lemma_parse_len(s: Seq<u8>) {
        <HandshakeFields<'a>>::lemma_parse_len(s);
    }

    proof fn lemma_round_trip(m: Self::Model, rest: Seq<u8>) {
        <HandshakeFields<'a>>::lemma_round_trip(m, rest);
    }
}

impl<'a> Encode for Handshake<'a> {
    fn encode(&self, wtr: &mut BytesMut) -> (r: Result<(), EncodeError>) {
        (&self.protocol_version, (&self.host, (&self.port, &self.next))).encode(wtr)
    }
}

impl<'a> Decode<'a> for Handshake<'a> {
    fn decode(rdr: &mut &'a [u8]) -> (r: Result<Self, DecodeError>) {
        match <HandshakeFields<'a>>::decode(rdr) {
            Ok((protocol_version, (host, (port, next)))) => Ok(Handshake { protocol_version,
                host, port, next }),
            Err(e) => Err(e),
        }
    }
}

/// The status of the server, as JSON text.
#[derive(Debug, PartialEq)]
pub struct StatusResponse<'a> {
    pub response: &'a str,
}

/// The fields of [`StatusResponse`], in the order in which they travel.
pub type StatusResponseFields<'a> = &'a str;

impl<'a> Packet for StatusResponse<'a> {
    const ID: i32 = 0x00;

    const NAME: &'static str = "StatusResponse";

    const SIDE: PacketSide = PacketSide::Client;

    const STATE: PacketState = PacketState::Status;
}

impl<'a> Wire for StatusResponse<'a> {
    type Model = <StatusResponseFields<'a> as Wire>::Model;

    open spec fn model(&self) -> Self::Model {
        self.response.model()
    }

    open spec fn encoding(m: Self::Model) -> Result<Seq<u8>, EncodeError> {
        <StatusResponseFields<'a>>::encoding(m)
    }

    open spec fn parse(s: Seq<u8>) -> Result<(Self::Model, nat), DecodeError> {
        <StatusResponseFields<'a>>::parse(s)
    }

    open spec fn self_delimiting() -> bool {
        <StatusResponseFields<'a>>::self_delimiting()
    }

    open spec fn well_formed() -> bool {
        <StatusResponseFields<'a>>::well_formed()
    }

    proof fn lemma_parse_len(s: Seq<u8>) {
        <StatusResponseFields<'a>>::lemma_parse_len(s);
    }

    proof fn lemma_round_trip(m: Self::Model, rest: Seq<u8>) {
        <StatusResponseFields<'a>>::lemma_round_trip(m, rest);
    }
}

impl<'a> Encode for StatusResponse<'a> {
    fn encode(&self, wtr: &mut BytesMut) -> (r: Result<(), EncodeError>) {
        self.response.encode(wtr)
    }
}

impl<'a> Decode<'a> for StatusResponse<'a> {
    fn decode(rdr: &mut &'a [u8]) -> (r: Result<Self, DecodeError>) {
        match <StatusResponseFields<'a>>::decode(rdr) {
            Ok(response) => Ok(StatusResponse { response }),
            Err(e) => Err(e),
        }
    }
}

/// Answers a ping with the payload that the ping carried.
#[derive(Debug, PartialEq)]
pub struct PingStatus {
    pub payload: i64,
}

/// The fields of [`PingStatus`], in the order in which they travel.
pub type PingStatusFields = i64;

impl Packet for PingStatus {
    const ID: i32 = 0x01;

    const NAME: &'static str = "PingStatus";

    const SIDE: PacketSide = PacketSide::Client;

    const STATE: PacketState = PacketState::Status;
}

impl Wire for PingStatus {
    type Model = <PingStatusFields as Wire>::Model;

    open spec fn model(&self) -> Self::Model {
        self.payload.model()
    }

    open spec fn encoding(m: Self::Model) -> Result<Seq<u8>, EncodeError> {
        <PingStatusFields>::encoding(m)
    }

    open spec fn parse(s: Seq<u8>) -> Result<(Self::Model, nat), DecodeError> {
        <PingStatusFields>::parse(s)
    }

    open spec fn self_delimiting() -> bool {
        <PingStatusFields>::self_delimiting()
    }

    open spec fn well_formed() -> bool {
        <PingStatusFields>::well_formed()
    }

    proof fn lemma_parse_len(s: Seq<u8>) {
        <PingStatusFields>::lemma_parse_len(s);
    }

    proof fn lemma_round_trip(m: Self::Model, rest: Seq<u8>) {
        <PingStatusFields>::lemma_round_trip(m, rest);
    }
}

impl Encode for PingStatus {
    fn encode(&self, wtr: &mut BytesMut) -> (r: Result<(), EncodeError>) {
        self.payload.encode(wtr)
    }
}

impl<'a> Decode<'a> for PingStatus {
    fn decode(rdr: &mut &'a [u8]) -> (r: Result<Self, DecodeError>) {
        match <PingStatusFields>::decode(rdr) {
            Ok(payload) => Ok(PingStatus { payload }),
            Err(e) => Err(e),
        }
    }
}

/// Asks for the status of the server.
#[derive(Debug, PartialEq)]
pub struct StatusRequest {}

/// The fields of [`StatusRequest`], in the order in which they travel.
pub type StatusRequestFields = ();

impl Packet for StatusRequest {
    const ID: i32 = 0x00;

    const NAME: &'static str = "StatusRequest";

    const SIDE: PacketSide = PacketSide::Server;

    const STATE: PacketState = PacketState::Status;
}

impl Wire for StatusRequest {
    type Model = <StatusRequestFields as Wire>::Model;

    open spec fn model(&self) -> Self::Model {
        ()
    }

    open spec fn encoding(m: Self::Model) -> Result<Seq<u8>, EncodeError> {
        <StatusRequestFields>::encoding(m)
    }

    open spec fn parse(s: Seq<u8>) -> Result<(Self::Model, nat), DecodeError> {
        <StatusRequestFields>::parse(s)
    }

    open spec fn self_delimiting() -> bool {
        <StatusRequestFields>::self_delimiting()
    }

    open spec fn well_formed() -> bool {
        <StatusRequestFields>::well_formed()
    }

    proof fn lemma_parse_len(s: Seq<u8>) {
        <StatusRequestFields>::lemma_parse_len(s);
    }

    proof fn lemma_round_trip(m: Self::Model, rest: Seq<u8>) {
        <StatusRequestFields>::lemma_round_trip(m, rest);
    }
}

impl Encode for StatusRequest {
    fn encode(&self, wtr: &mut BytesMut) -> (r: Result<(), EncodeError>) {
        ().encode(wtr)
    }
}

impl<'a> Decode<'a> for StatusRequest {
    fn decode(rdr: &mut &'a [u8]) -> (r: Result<Self, DecodeError>) {
        match <StatusRequestFields>::decode(rdr) {
            Ok(()) => Ok(StatusRequest { }),
            Err(e) => Err(e),
        }
    }
}

/// A ping; the payload comes back in the answer.
#[derive(Debug, PartialEq)]
pub struct PongStatus {
    pub payload: i64,
}

/// The fields of [`PongStatus`], in the order in which they travel.
pub type PongStatusFields = i64;

impl Packet for PongStatus {
    const ID: i32 = 0x01;

    const NAME: &'static str = "PongStatus";

    const SIDE: PacketSide = PacketSide::Server;

    const STATE: PacketState = PacketState::Status;
}

impl Wire for PongStatus {
    type Model = <PongStatusFields as Wire>::Model;

    open spec fn model(&self) -> Self::Model {
        self.payload.model()
    }

    open spec fn encoding(m: Self::Model) -> Result<Seq<u8>, EncodeError> {
        <PongStatusFields>::encoding(m)
    }

    open spec fn parse(s: Seq<u8>) -> Result<(Self::Model, nat), DecodeError> {
        <PongStatusFields>::parse(s)
    }

    open spec fn self_delimiting() -> bool {
        <PongStatusFields>::self_delimiting()
    }

    open spec fn well_formed() -> bool {
        <PongStatusFields>::well_formed()
    }

    proof fn lemma_parse_len(s: Seq<u8>) {
        <PongStatusFields>::lemma_parse_len(s);
    }

    proof fn lemma_round_trip(m: Self::Model, rest: Seq<u8>) {
        <PongStatusFields>::lemma_round_trip(m, rest);
    }
}

impl Encode for PongStatus {
    fn encode(&self, wtr: &mut BytesMut) -> (r: Result<(), EncodeError>) {
        self.payload.encode(wtr)
    }
}

impl<'a> Decode<'a> for PongStatus {
    fn decode(rdr: &mut &'a [u8]) -> (r: Result<Self, DecodeError>) {
        match <PongStatusFields>::decode(rdr) {
            Ok(payload) => Ok(PongStatus { payload }),
            Err(e) => Err(e),
        }
    }
}

/// Ends the connection during login and says why.
#[derive(Debug, PartialEq)]
pub struct DisconnectLogin<'a> {
    pub reason: &'a str,
}

/// The fields of [`DisconnectLogin`], in the order in which they travel.
pub type DisconnectLoginFields<'a> = &'a str;

impl<'a> Packet for DisconnectLogin<'a> {
    const ID: i32 = 0x00;

    const NAME: &'static str = "DisconnectLogin";

    const SIDE: PacketSide = PacketSide::Client;

    const STATE: PacketState = PacketState::Login;
}

impl<'a> Wire for DisconnectLogin<'a> {
    type Model = <DisconnectLoginFields<'a> as Wire>::Model;

    open spec fn model(&self) -> Self::Model {
        self.reason.model()
    }

    open spec fn encoding(m: Self::Model) -> Result<Seq<u8>, EncodeError> {
        <DisconnectLoginFields<'a>>::encoding(m)
    }

    open spec fn parse(s: Seq<u8>) -> Result<(Self::Model, nat), DecodeError> {
        <DisconnectLoginFields<'a>>::parse(s)
    }

    open spec fn self_delimiting() -> bool {
        <DisconnectLoginFields<'a>>::self_delimiting()
    }

    open spec fn well_formed() -> bool {
        <DisconnectLoginFields<'a>>::well_formed()
    }

    proof fn lemma_parse_len(s: Seq<u8>) {
        <DisconnectLoginFields<'a>>::lemma_parse_len(s);
    }

    proof fn lemma_round_trip(m: Self::Model, rest: Seq<u8>) {
        <DisconnectLoginFields<'a>>::lemma_round_trip(m, rest);
    }
}

impl<'a> Encode for DisconnectLogin<'a> {
    fn encode(&self, wtr: &mut BytesMut) -> (r: Result<(), EncodeError>) {
        self.reason.encode(wtr)
    }
}

impl<'a> Decode<'a> for DisconnectLogin<'a> {
    fn decode(rdr: &mut &'a [u8]) -> (r: Result<Self, DecodeError>) {
        match <DisconnectLoginFields<'a>>::decode(rdr) {
            Ok(reason) => Ok(DisconnectLogin { reason }),
            Err(e) => Err(e),
        }
    }
}

/// Asks the client to switch on encryption.
#[derive(Debug, PartialEq)]
pub struct EncryptionRequest<'a> {
    pub server_id: Bounded<&'a str, 20>,
    pub public_key: LenPrefixed<u8>,
    pub verify_token: LenPrefixed<u8>,
    pub should_authenticate: bool,
}

/// The fields of [`EncryptionRequest`], in the order in which they travel.
pub type EncryptionRequestFields<'a> = (Bounded<&'a str, 20>, (LenPrefixed<u8>,
    (LenPrefixed<u8>, bool)));

impl<'a> Packet for EncryptionRequest<'a> {
    const ID: i32 = 0x01;

    const NAME: &'static str = "EncryptionRequest";

    const SIDE: PacketSide = PacketSide::Client;

    const STATE: PacketState = PacketState::Login;
}

impl<'a> Wire for EncryptionRequest<'a> {
    type Model = <EncryptionRequestFields<'a> as Wire>::Model;

    open spec fn model(&self) -> Self::Model {
        (self.server_id.model(), (self.public_key.model(), (self.verify_token.model(),
            self.should_authenticate.model())))
    }

    open spec fn encoding(m: Self::Model) -> Result<Seq<u8>, EncodeError> {
        <EncryptionRequestFields<'a>>::encoding(m)
    }

    open spec fn parse(s: Seq<u8>) -> Result<(Self::Model, nat), DecodeError> {
        <EncryptionRequestFields<'a>>::parse(s)
    }

    open spec fn self_delimiting() -> bool {
        <EncryptionRequestFields<'a>>::self_delimiting()
    }

    open spec fn well_formed() -> bool {
        <EncryptionRequestFields<'a>>::well_formed()
    }

    proof fn lemma_parse_len(s: Seq<u8>) {
        <EncryptionRequestFields<'a>>::lemma_parse_len(s);
    }

    proof fn lemma_round_trip(m: Self::Model, rest: Seq<u8>) {
        <EncryptionRequestFields<'a>>::lemma_round_trip(m, rest);
    }
}

impl<'a> Encode for EncryptionRequest<'a> {
    fn encode(&self, wtr: &mut BytesMut) -> (r: Result<(), EncodeError>) {
        (&self.server_id, (&self.public_key, (&self.verify_token,
            &self.should_authenticate))).encode(wtr)
    }
}

impl<'a> Decode<'a> for EncryptionRequest<'a> {
    fn decode(rdr: &mut &'a [u8]) -> (r: Result<Self, DecodeError>) {
        match <EncryptionRequestFields<'a>>::decode(rdr) {
            Ok((server_id, (public_key, (verify_token,
                should_authenticate)))) => Ok(EncryptionRequest { server_id, public_key,
                verify_token, should_authenticate }),
            Err(e) => Err(e),
        }
    }
}

/// Ends the login: the player is known to the server.
#[derive(Debug, PartialEq)]
pub struct LoginSuccess<'a> {
    pub uuid: Uuid,
    pub username: &'a str,
    pub properties: LenPrefixed<Property>,
    pub strict_error_handing: bool,
}

/// The fields of [`LoginSuccess`], in the order in which they travel.
pub type LoginSuccessFields<'a> = (Uuid, (&'a str, (LenPrefixed<Property>, bool)));

impl<'a> Packet for LoginSuccess<'a> {
    const ID: i32 = 0x02;

    const NAME: &'static str = "LoginSuccess";

    const SIDE: PacketSide = PacketSide::Client;

    const STATE: PacketState = PacketState::Login;
}

impl<'a> Wire for LoginSuccess<'a> {
    type Model = <LoginSuccessFields<'a> as Wire>::Model;

    open spec fn model(&self) -> Self::Model {
        (self.uuid.model(), (self.username.model(), (self.properties.model(),
            self.strict_error_handing.model())))
    }

    open spec fn encoding(m: Self::Model) -> Result<Seq<u8>, EncodeError> {
        <LoginSuccessFields<'a>>::encoding(m)
    }

    open spec fn parse(s: Seq<u8>) -> Result<(Self::Model, nat), DecodeError> {
        <LoginSuccessFields<'a>>::parse(s)
    }

    open spec fn self_delimiting() -> bool {
        <LoginSuccessFields<'a>>::self_delimiting()
    }

    open spec fn well_formed() -> bool {
        <LoginSuccessFields<'a>>::well_formed()
    }

    proof fn lemma_parse_len(s: Seq<u8>) {
        <LoginSuccessFields<'a>>::lemma_parse_len(s);
    }

    proof fn lemma_round_trip(m: Self::Model, rest: Seq<u8>) {
        <LoginSuccessFields<'a>>::lemma_round_trip(m, rest);
    }
}

impl<'a> Encode for LoginSuccess<'a> {
    fn encode(&self, wtr: &mut BytesMut) -> (r: Result<(), EncodeError>) {
        (&self.uuid, (&self.username, (&self.properties,
            &self.strict_error_handing))).encode(wtr)
    }
}

impl<'a> Decode<'a> for LoginSuccess<'a> {
    fn decode(rdr: &mut &'a [u8]) -> (r: Result<Self, DecodeError>) {
        match <LoginSuccessFields<'a>>::decode(rdr) {
            Ok((uuid, (username, (properties,
                strict_error_handing)))) => Ok(LoginSuccess { uuid, username, properties,
                strict_error_handing }),
            Err(e) => Err(e),
        }
    }
}

/// Sets the size from which packets are compressed.
#[derive(Debug, PartialEq)]
pub struct SetCompression {
    pub threshold: VarInt,
}

/// The fields of [`SetCompression`], in the order in which they travel.
pub type SetCompressionFields = VarInt;

impl Packet for SetCompression {
    const ID: i32 = 0x03;

    const NAME: &'static str = "SetCompression";

    const SIDE: PacketSide = PacketSide::Client;

    const STATE: PacketState = PacketState::Login;
}

impl Wire for SetCompression {
    type Model = <SetCompressionFields as Wire>::Model;

    open spec fn model(&self) -> Self::Model {
        self.threshold.model()
    }

    open spec fn encoding(m: Self::Model) -> Result<Seq<u8>, EncodeError> {
        <SetCompressionFields>::encoding(m)
    }

    open spec fn parse(s: Seq<u8>) -> Result<(Self::Model, nat), DecodeError> {
        <SetCompressionFields>::parse(s)
    }

    open spec fn self_delimiting() -> bool {
        <SetCompressionFields>::self_delimiting()
    }

    open spec fn well_formed() -> bool {
        <SetCompressionFields>::well_formed()
    }

    proof fn lemma_parse_len(s: Seq<u8>) {
        <SetCompressionFields>::lemma_parse_len(s);
    }

    proof fn lemma_round_trip(m: Self::Model, rest: Seq<u8>) {
        <SetCompressionFields>::lemma_round_trip(m, rest);
    }
}

impl Encode for SetCompression {
    fn encode(&self, wtr: &mut BytesMut) -> (r: Result<(), EncodeError>) {
        self.threshold.encode(wtr)
    }
}

impl<'a> Decode<'a> for SetCompression {
    fn decode(rdr: &mut &'a [u8]) -> (r: Result<Self, DecodeError>) {
        match <SetCompressionFields>::decode(rdr) {
            Ok(threshold) => Ok(SetCompression { threshold }),
            Err(e) => Err(e),
        }
    }
}

/// A question of a plugin during login; the data reaches to the end of the packet.
#[derive(Debug, PartialEq)]
pub struct LoginPluginRequest<'a> {
    pub message_id: VarInt,
    pub channel: &'a str,
    pub data: RawBytes<'a>,
}

/// The fields of [`LoginPluginRequest`], in the order in which they travel.
pub type LoginPluginRequestFields<'a> = (VarInt, (&'a str, RawBytes<'a>));

impl<'a> Packet for LoginPluginRequest<'a> {
    const ID: i32 = 0x04;

    const NAME: &'static str = "LoginPluginRequest";

    const SIDE: PacketSide = PacketSide::Client;

    const STATE: PacketState = PacketState::Login;
}

impl<'a> Wire for LoginPluginRequest<'a> {
    type Model = <LoginPluginRequestFields<'a> as Wire>::Model;

    open spec fn model(&self) -> Self::Model {
        (self.message_id.model(), (self.channel.model(), self.data.model()))
    }

    open spec fn encoding(m: Self::Model) -> Result<Seq<u8>, EncodeError> {
        <LoginPluginRequestFields<'a>>::encoding(m)
    }

    open spec fn parse(s: Seq<u8>) -> Result<(Self::Model, nat), DecodeError> {
        <LoginPluginRequestFields<'a>>::parse(s)
    }

    open spec fn self_delimiting() -> bool {
        <LoginPluginRequestFields<'a>>::self_delimiting()
    }

    open spec fn well_formed() -> bool {
        <LoginPluginRequestFields<'a>>::well_formed()
    }

    proof fn lemma_parse_len(s: Seq<u8>) {
        <LoginPluginRequestFields<'a>>::lemma_parse_len(s);
    }

    proof fn lemma_round_trip(m: Self::Model, rest: Seq<u8>) {
        <LoginPluginRequestFields<'a>>::lemma_round_trip(m, rest);
    }
}

impl<'a> Encode for LoginPluginRequest<'a> {
    fn encode(&self, wtr: &mut BytesMut) -> (r: Result<(), EncodeError>) {
        (&self.message_id, (&self.channel, &self.data)).encode(wtr)
    }
}

impl<'a> Decode<'a> for LoginPluginRequest<'a> {
    fn decode(rdr: &mut &'a [u8]) -> (r: Result<Self, DecodeError>) {
        match <LoginPluginRequestFields<'a>>::decode(rdr) {
            Ok((message_id, (channel, data))) => Ok(LoginPluginRequest { message_id, channel,
                data }),
            Err(e) => Err(e),
        }
    }
}

/// Asks for a cookie that the client stores.
#[derive(Debug, PartialEq)]
pub struct CookieRequestLogin<'a> {
    pub key: &'a str,
}

/// The fields of [`CookieRequestLogin`], in the order in which they travel.
pub type CookieRequestLoginFields<'a> = &'a str;

impl<'a> Packet for CookieRequestLogin<'a> {
    const ID: i32 = 0x05;

    const NAME: &'static str = "CookieRequestLogin";

    const SIDE: PacketSide = PacketSide::Client;

    const STATE: PacketState = PacketState::Login;
}

impl<'a> Wire for CookieRequestLogin<'a> {
    type Model = <CookieRequestLoginFields<'a> as Wire>::Model;

    open spec fn model(&self) -> Self::Model {
        self.key.model()
    }

    open spec fn encoding(m: Self::Model) -> Result<Seq<u8>, EncodeError> {
        <CookieRequestLoginFields<'a>>::encoding(m)
    }

    open spec fn parse(s: Seq<u8>) -> Result<(Self::Model, nat), DecodeError> {
        <CookieRequestLoginFields<'a>>::parse(s)
    }

    open spec fn self_delimiting() -> bool {
        <CookieRequestLoginFields<'a>>::self_delimiting()
    }

    open spec fn well_formed() -> bool {
        <CookieRequestLoginFields<'a>>::well_formed()
    }

    proof fn lemma_parse_len(s: Seq<u8>) {
        <CookieRequestLoginFields<'a>>::lemma_parse_len(s);
    }

    proof fn lemma_round_trip(m: Self::Model, rest: Seq<u8>) {
        <CookieRequestLoginFields<'a>>::lemma_round_trip(m, rest);
    }
}

impl<'a> Encode for CookieRequestLogin<'a> {
    fn encode(&self, wtr: &mut BytesMut) -> (r: Result<(), EncodeError>) {
        self.key.encode(wtr)
    }
}

impl<'a> Decode<'a> for CookieRequestLogin<'a> {
    fn decode(rdr: &mut &'a [u8]) -> (r: Result<Self, DecodeError>) {
        match <CookieRequestLoginFields<'a>>::decode(rdr) {
            Ok(key) => Ok(CookieRequestLogin { key }),
            Err(e) => Err(e),
        }
    }
}

/// Starts the login of a player.
#[derive(Debug, PartialEq)]
pub struct LoginStart<'a> {
    pub name: Bounded<&'a str, 16>,
    pub uuid: Uuid,
}

/// The fields of [`LoginStart`], in the order in which they travel.
pub type LoginStartFields<'a> = (Bounded<&'a str, 16>, Uuid);

impl<'a> Packet for LoginStart<'a> {
    const ID: i32 = 0x00;

    const NAME: &'static str = "LoginStart";

    const SIDE: PacketSide = PacketSide::Server;

    const STATE: PacketState = PacketState::Login;
}

impl<'a> Wire for LoginStart<'a> {
    type Model = <LoginStartFields<'a> as Wire>::Model;

    open spec fn model(&self) -> Self::Model {
        (self.name.model(), self.uuid.model())
    }

    open spec fn encoding(m: Self::Model) -> Result<Seq<u8>, EncodeError> {
        <LoginStartFields<'a>>::encoding(m)
    }

    open spec fn parse(s: Seq<u8>) -> Result<(Self::Model, nat), DecodeError> {
        <LoginStartFields<'a>>::parse(s)
    }

    open spec fn self_delimiting() -> bool {
        <LoginStartFields<'a>>::self_delimiting()
    }

    open spec fn well_formed() -> bool {
        <LoginStartFields<'a>>::well_formed()
    }

    proof fn lemma_parse_len(s: Seq<u8>) {
        <LoginStartFields<'a>>::lemma_parse_len(s);
    }

    proof fn lemma_round_trip(m: Self::Model, rest: Seq<u8>) {
        <LoginStartFields<'a>>::lemma_round_trip(m, rest);
    }
}

impl<'a> Encode for LoginStart<'a> {
    fn encode(&self, wtr: &mut BytesMut) -> (r: Result<(), EncodeError>) {
        (&self.name, &self.uuid).encode(wtr)
    }
}

impl<'a> Decode<'a> for LoginStart<'a> {
    fn decode(rdr: &mut &'a [u8]) -> (r: Result<Self, DecodeError>) {
        match <LoginStartFields<'a>>::decode(rdr) {
            Ok((name, uuid)) => Ok(LoginStart { name, uuid }),
            Err(e) => Err(e),
        }
    }
}

/// Answers an encryption request.
#[derive(Debug, PartialEq)]
pub struct EncryptionResponse {
    pub shared_secret: LenPrefixed<u8>,
    pub verify_token: LenPrefixed<u8>,
}

/// The fields of [`EncryptionResponse`], in the order in which they travel.
pub type EncryptionResponseFields = (LenPrefixed<u8>, LenPrefixed<u8>);

impl Packet for EncryptionResponse {
    const ID: i32 = 0x01;

    const NAME: &'static str = "EncryptionResponse";

    const SIDE: PacketSide = PacketSide::Server;

    const STATE: PacketState = PacketState::Login;
}

impl Wire for EncryptionResponse {
    type Model = <EncryptionResponseFields as Wire>::Model;

    open spec fn model(&self) -> Self::Model {
        (self.shared_secret.model(), self.verify_token.model())
    }

    open spec fn encoding(m: Self::Model) -> Result<Seq<u8>, EncodeError> {
        <EncryptionResponseFields>::encoding(m)
    }

    open spec fn parse(s: Seq<u8>) -> Result<(Self::Model, nat), DecodeError> {
        <EncryptionResponseFields>::parse(s)
    }

    open spec fn self_delimiting() -> bool {
        <EncryptionResponseFields>::self_delimiting()
    }

    open spec fn well_formed() -> bool {
        <EncryptionResponseFields>::well_formed()
    }

    proof fn lemma_parse_len(s: Seq<u8>) {
        <EncryptionResponseFields>::lemma_parse_len(s);
    }

    proof fn lemma_round_trip(m: Self::Model, rest: Seq<u8>) {
        <EncryptionResponseFields>::lemma_round_trip(m, rest);
    }
}

impl Encode for EncryptionResponse {
    fn encode(&self, wtr: &mut BytesMut) -> (r: Result<(), EncodeError>) {
        (&self.shared_secret, &self.verify_token).encode(wtr)
    }
}

impl<'a> Decode<'a> for EncryptionResponse {
    fn decode(rdr: &mut &'a [u8]) -> (r: Result<Self, DecodeError>) {
        match <EncryptionResponseFields>::decode(rdr) {
            Ok((shared_secret, verify_token)) => Ok(EncryptionResponse { shared_secret,
                verify_token }),
            Err(e) => Err(e),
        }
    }
}

/// Answers a question of a plugin; data follows only where the client understood the question.
#[derive(Debug, PartialEq)]
pub struct LoginPluginResponse<'a> {
    pub message_id: VarInt,
    pub successful: bool,
    pub data: Option<Bounded<RawBytes<'a>, 1048576>>,
}

/// The fields of [`LoginPluginResponse`], in the order in which they travel.
pub type LoginPluginResponseFields<'a> = (VarInt, (bool, Option<Bounded<RawBytes<'a>,
    1048576>>));

impl<'a> Packet for LoginPluginResponse<'a> {
    const ID: i32 = 0x02;

    const NAME: &'static str = "LoginPluginResponse";

    const SIDE: PacketSide = PacketSide::Server;

    const STATE: PacketState = PacketState::Login;
}

impl<'a> Wire for LoginPluginResponse<'a> {
    type Model = <LoginPluginResponseFields<'a> as Wire>::Model;

    open spec fn model(&self) -> Self::Model {
        (self.message_id.model(), (self.successful.model(), self.data.model()))
    }

    open spec fn encoding(m: Self::Model) -> Result<Seq<u8>, EncodeError> {
        <LoginPluginResponseFields<'a>>::encoding(m)
    }

    open spec fn parse(s: Seq<u8>) -> Result<(Self::Model, nat), DecodeError> {
        <LoginPluginResponseFields<'a>>::parse(s)
    }

    open spec fn self_delimiting() -> bool {
        <LoginPluginResponseFields<'a>>::self_delimiting()
    }

    open spec fn well_formed() -> bool {
        <LoginPluginResponseFields<'a>>::well_formed()
    }

    proof fn lemma_parse_len(s: Seq<u8>) {
        <LoginPluginResponseFields<'a>>::lemma_parse_len(s);
    }

    proof fn lemma_round_trip(m: Self::Model, rest: Seq<u8>) {
        <LoginPluginResponseFields<'a>>::lemma_round_trip(m, rest);
    }
}

impl<'a> Encode for LoginPluginResponse<'a> {
    fn encode(&self, wtr: &mut BytesMut) -> (r: Result<(), EncodeError>) {
        (&self.message_id, (&self.successful, &self.data)).encode(wtr)
    }
}

impl<'a> Decode<'a> for LoginPluginResponse<'a> {
    fn decode(rdr: &mut &'a [u8]) -> (r: Result<Self, DecodeError>) {
        match <LoginPluginResponseFields<'a>>::decode(rdr) {
            Ok((message_id, (successful, data))) => Ok(LoginPluginResponse { message_id,
                successful, data }),
            Err(e) => Err(e),
        }
    }
}

/// Confirms the end of the login.
#[derive(Debug, PartialEq)]
pub struct LoginAcknowledged {}

/// The fields of [`LoginAcknowledged`], in the order in which they travel.
pub type LoginAcknowledgedFields = ();

impl Packet for LoginAcknowledged {
    const ID: i32 = 0x03;

    const NAME: &'static str = "LoginAcknowledged";

    const SIDE: PacketSide = PacketSide::Server;

    const STATE: PacketState = PacketState::Login;
}

impl Wire for LoginAcknowledged {
    type Model = <LoginAcknowledgedFields as Wire>::Model;

    open spec fn model(&self) -> Self::Model {
        ()
    }

    open spec fn encoding(m: Self::Model) -> Result<Seq<u8>, EncodeError> {
        <LoginAcknowledgedFields>::encoding(m)
    }

    open spec fn parse(s: Seq<u8>) -> Result<(Self::Model, nat), DecodeError> {
        <LoginAcknowledgedFields>::parse(s)
    }

    open spec fn self_delimiting() -> bool {
        <LoginAcknowledgedFields>::self_delimiting()
    }

    open spec fn well_formed() -> bool {
        <LoginAcknowledgedFields>::well_formed()
    }

    proof fn lemma_parse_len(s: Seq<u8>) {
        <LoginAcknowledgedFields>::lemma_parse_len(s);
    }

    proof fn lemma_round_trip(m: Self::Model, rest: Seq<u8>) {
        <LoginAcknowledgedFields>::lemma_round_trip(m, rest);
    }
}

impl Encode for LoginAcknowledged {
    fn encode(&self, wtr: &mut BytesMut) -> (r: Result<(), EncodeError>) {
        ().encode(wtr)
    }
}

impl<'a> Decode<'a> for LoginAcknowledged {
    fn decode(rdr: &mut &'a [u8]) -> (r: Result<Self, DecodeError>) {
        match <LoginAcknowledgedFields>::decode(rdr) {
            Ok(()) => Ok(LoginAcknowledged { }),
            Err(e) => Err(e),
        }
    }
}

/// Hands over a cookie that was asked for, if the client has it.
#[derive(Debug, PartialEq)]
pub struct CookieResponseLogin<'a> {
    pub key: &'a str,
    pub payload: Option<LenPrefixed<u8>>,
}

/// The fields of [`CookieResponseLogin`], in the order in which they travel.
pub type CookieResponseLoginFields<'a> = (&'a str, Option<LenPrefixed<u8>>);

impl<'a> Packet for CookieResponseLogin<'a> {
    const ID: i32 = 0x04;

    const NAME: &'static str = "CookieResponseLogin";

    const SIDE: PacketSide = PacketSide::Server;

    const STATE: PacketState = PacketState::Login;
}

impl<'a> Wire for CookieResponseLogin<'a> {
    type Model = <CookieResponseLoginFields<'a> as Wire>::Model;

    open spec fn model(&self) -> Self::Model {
        (self.key.model(), self.payload.model())
    }

    open spec fn encoding(m: Self::Model) -> Result<Seq<u8>, EncodeError> {
        <CookieResponseLoginFields<'a>>::encoding(m)
    }

    open spec fn parse(s: Seq<u8>) -> Result<(Self::Model, nat), DecodeError> {
        <CookieResponseLoginFields<'a>>::parse(s)
    }

    open spec fn self_delimiting() -> bool {
        <CookieResponseLoginFields<'a>>::self_delimiting()
    }

    open spec fn well_formed() -> bool {
        <CookieResponseLoginFields<'a>>::well_formed()
    }

    proof fn lemma_parse_len(s: Seq<u8>) {
        <CookieResponseLoginFields<'a>>::lemma_parse_len(s);
    }

    proof fn lemma_round_trip(m: Self::Model, rest: Seq<u8>) {
        <CookieResponseLoginFields<'a>>::lemma_round_trip(m, rest);
    }
}

impl<'a> Encode for CookieResponseLogin<'a> {
    fn encode(&self, wtr: &mut BytesMut) -> (r: Result<(), EncodeError>) {
        (&self.key, &self.payload).encode(wtr)
    }
}

impl<'a> Decode<'a> for CookieResponseLogin<'a> {
    fn decode(rdr: &mut &'a [u8]) -> (r: Result<Self, DecodeError>) {
        match <CookieResponseLoginFields<'a>>::decode(rdr) {
            Ok((key, payload)) => Ok(CookieResponseLogin { key, payload }),
            Err(e) => Err(e),
        }
    }
}

/// Asks for a cookie that the client stores.
#[derive(Debug, PartialEq)]
pub struct CookieRequest<'a> {
    pub key: &'a str,
}

/// The fields of [`CookieRequest`], in the order in which they travel.
pub type CookieRequestFields<'a> = &'a str;

impl<'a> Packet for CookieRequest<'a> {
    const ID: i32 = 0x00;

    const NAME: &'static str = "CookieRequest";

    const SIDE: PacketSide = PacketSide::Client;

    const STATE: PacketState = PacketState::Configuration;
}

impl<'a> Wire for CookieRequest<'a> {
    type Model = <CookieRequestFields<'a> as Wire>::Model;

    open spec fn model(&self) -> Self::Model {
        self.key.model()
    }

    open spec fn encoding(m: Self::Model) -> Result<Seq<u8>, EncodeError> {
        <CookieRequestFields<'a>>::encoding(m)
    }

    open spec fn parse(s: Seq<u8>) -> Result<(Self::Model, nat), DecodeError> {
        <CookieRequestFields<'a>>::parse(s)
    }

    open spec fn self_delimiting() -> bool {
        <CookieRequestFields<'a>>::self_delimiting()
    }

    open spec fn well_formed() -> bool {
        <CookieRequestFields<'a>>::well_formed()
    }

    proof fn lemma_parse_len(s: Seq<u8>) {
        <CookieRequestFields<'a>>::lemma_parse_len(s);
    }

    proof fn lemma_round_trip(m: Self::Model, rest: Seq<u8>) {
        <CookieRequestFields<'a>>::lemma_round_trip(m, rest);
    }
}

impl<'a> Encode for CookieRequest<'a> {
    fn encode(&self, wtr: &mut BytesMut) -> (r: Result<(), EncodeError>) {
        self.key.encode(wtr)
    }
}

impl<'a> Decode<'a> for CookieRequest<'a> {
    fn decode(rdr: &mut &'a [u8]) -> (r: Result<Self, DecodeError>) {
        match <CookieRequestFields<'a>>::decode(rdr) {
            Ok(key) => Ok(CookieRequest { key }),
            Err(e) => Err(e),
        }
    }
}

/// A message of a plugin to the client; the data reaches to the end of the packet.
#[derive(Debug, PartialEq)]
pub struct ClientPluginMessageConfiguration<'a> {
    pub channel: &'a str,
    pub data: Bounded<RawBytes<'a>, 1048576>,
}

/// The fields of [`ClientPluginMessageConfiguration`], in the order in which they travel.
pub type ClientPluginMessageConfigurationFields<'a> = (&'a str, Bounded<RawBytes<'a>, 1048576>);

impl<'a> Packet for ClientPluginMessageConfiguration<'a> {
    const ID: i32 = 0x01;

    const NAME: &'static str = "ClientPluginMessageConfiguration";

    const SIDE: PacketSide = PacketSide::Client;

    const STATE: PacketState = PacketState::Configuration;
}

impl<'a> Wire for ClientPluginMessageConfiguration<'a> {
    type Model = <ClientPluginMessageConfigurationFields<'a> as Wire>::Model;

    open spec fn model(&self) -> Self::Model {
        (self.channel.model(), self.data.model())
    }

    open spec fn encoding(m: Self::Model) -> Result<Seq<u8>, EncodeError> {
        <ClientPluginMessageConfigurationFields<'a>>::encoding(m)
    }

    open spec fn parse(s: Seq<u8>) -> Result<(Self::Model, nat), DecodeError> {
        <ClientPluginMessageConfigurationFields<'a>>::parse(s)
    }

    open spec fn self_delimiting() -> bool {
        <ClientPluginMessageConfigurationFields<'a>>::self_delimiting()
    }

    open spec fn well_formed() -> bool {
        <ClientPluginMessageConfigurationFields<'a>>::well_formed()
    }

    proof fn lemma_parse_len(s: Seq<u8>) {
        <ClientPluginMessageConfigurationFields<'a>>::lemma_parse_len(s);
    }

    proof fn lemma_round_trip(m: Self::Model, rest: Seq<u8>) {
        <ClientPluginMessageConfigurationFields<'a>>::lemma_round_trip(m, rest);
    }
}

impl<'a> Encode for ClientPluginMessageConfiguration<'a> {
    fn encode(&self, wtr: &mut BytesMut) -> (r: Result<(), EncodeError>) {
        (&self.channel, &self.data).encode(wtr)
    }
}

impl<'a> Decode<'a> for ClientPluginMessageConfiguration<'a> {
    fn decode(rdr: &mut &'a [u8]) -> (r: Result<Self, DecodeError>) {
        match <ClientPluginMessageConfigurationFields<'a>>::decode(rdr) {
            Ok((channel, data)) => Ok(ClientPluginMessageConfiguration { channel, data }),
            Err(e) => Err(e),
        }
    }
}

/// Ends the connection during configuration and says why.
#[derive(Debug, PartialEq)]
pub struct DisconnectConfiguration<'a> {
    pub reason: &'a str,
}

/// The fields of [`DisconnectConfiguration`], in the order in which they travel.
pub type DisconnectConfigurationFields<'a> = &'a str;

impl<'a> Packet for DisconnectConfiguration<'a> {
    const ID: i32 = 0x02;

    const NAME: &'static str = "DisconnectConfiguration";

    const SIDE: PacketSide = PacketSide::Client;

    const STATE: PacketState = PacketState::Configuration;
}

impl<'a> Wire for DisconnectConfiguration<'a> {
    type Model = <DisconnectConfigurationFields<'a> as Wire>::Model;

    open spec fn model(&self) -> Self::Model {
        self.reason.model()
    }

    open spec fn encoding(m: Self::Model) -> Result<Seq<u8>, EncodeError> {
        <DisconnectConfigurationFields<'a>>::encoding(m)
    }

    open spec fn parse(s: Seq<u8>) -> Result<(Self::Model, nat), DecodeError> {
        <DisconnectConfigurationFields<'a>>::parse(s)
    }

    open spec fn self_delimiting() -> bool {
        <DisconnectConfigurationFields<'a>>::self_delimiting()
    }

    open spec fn well_formed() -> bool {
        <DisconnectConfigurationFields<'a>>::well_formed()
    }

    proof fn lemma_parse_len(s: Seq<u8>) {
        <DisconnectConfigurationFields<'a>>::lemma_parse_len(s);
    }

    proof fn lemma_round_trip(m: Self::Model, rest: Seq<u8>) {
        <DisconnectConfigurationFields<'a>>::lemma_round_trip(m, rest);
    }
}

impl<'a> Encode for DisconnectConfiguration<'a> {
    fn encode(&self, wtr: &mut BytesMut) -> (r: Result<(), EncodeError>) {
        self.reason.encode(wtr)
    }
}

impl<'a> Decode<'a> for DisconnectConfiguration<'a> {
    fn decode(rdr: &mut &'a [u8]) -> (r: Result<Self, DecodeError>) {
        match <DisconnectConfigurationFields<'a>>::decode(rdr) {
            Ok(reason) => Ok(DisconnectConfiguration { reason }),
            Err(e) => Err(e),
        }
    }
}

/// Ends the configuration.
#[derive(Debug, PartialEq)]
pub struct FinishConfiguration {}

/// The fields of [`FinishConfiguration`], in the order in which they travel.
pub type FinishConfigurationFields = ();

impl Packet for FinishConfiguration {
    const ID: i32 = 0x03;

    const NAME: &'static str = "FinishConfiguration";

    const SIDE: PacketSide = PacketSide::Client;

    const STATE: PacketState = PacketState::Configuration;
}

impl Wire for FinishConfiguration {
    type Model = <FinishConfigurationFields as Wire>::Model;

    open spec fn model(&self) -> Self::Model {
        ()
    }

    open spec fn encoding(m: Self::Model) -> Result<Seq<u8>, EncodeError> {
        <FinishConfigurationFields>::encoding(m)
    }

    open spec fn parse(s: Seq<u8>) -> Result<(Self::Model, nat), DecodeError> {
        <FinishConfigurationFields>::parse(s)
    }

    open spec fn self_delimiting() -> bool {
        <FinishConfigurationFields>::self_delimiting()
    }

    open spec fn well_formed() -> bool {
        <FinishConfigurationFields>::well_formed()
    }

    proof fn lemma_parse_len(s: Seq<u8>) {
        <FinishConfigurationFields>::lemma_parse_len(s);
    }

    proof fn lemma_round_trip(m: Self::Model, rest: Seq<u8>) {
        <FinishConfigurationFields>::lemma_round_trip(m, rest);
    }
}

impl Encode for FinishConfiguration {
    fn encode(&self, wtr: &mut BytesMut) -> (r: Result<(), EncodeError>) {
        ().encode(wtr)
    }
}

impl<'a> Decode<'a> for FinishConfiguration {
    fn decode(rdr: &mut &'a [u8]) -> (r: Result<Self, DecodeError>) {
        match <FinishConfigurationFields>::decode(rdr) {
            Ok(()) => Ok(FinishConfiguration { }),
            Err(e) => Err(e),
        }
    }
}

/// Asks the client to show that it is still there.
#[derive(Debug, PartialEq)]
pub struct KeepAliveClientConfiguration {
    pub id: i64,
}

/// The fields of [`KeepAliveClientConfiguration`], in the order in which they travel.
pub type KeepAliveClientConfigurationFields = i64;

impl Packet for KeepAliveClientConfiguration {
    const ID: i32 = 0x04;

    const NAME: &'static str = "KeepAliveClientConfiguration";

    const SIDE: PacketSide = PacketSide::Client;

    const STATE: PacketState = PacketState::Configuration;
}

impl Wire for KeepAliveClientConfiguration {
    type Model = <KeepAliveClientConfigurationFields as Wire>::Model;

    open spec fn model(&self) -> Self::Model {
        self.id.model()
    }

    open spec fn encoding(m: Self::Model) -> Result<Seq<u8>, EncodeError> {
        <KeepAliveClientConfigurationFields>::encoding(m)
    }

    open spec fn parse(s: Seq<u8>) -> Result<(Self::Model, nat), DecodeError> {
        <KeepAliveClientConfigurationFields>::parse(s)
    }

    open spec fn self_delimiting() -> bool {
        <KeepAliveClientConfigurationFields>::self_delimiting()
    }

    open spec fn well_formed() -> bool {
        <KeepAliveClientConfigurationFields>::well_formed()
    }

    proof fn lemma_parse_len(s: Seq<u8>) {
        <KeepAliveClientConfigurationFields>::lemma_parse_len(s);
    }

    proof fn lemma_round_trip(m: Self::Model, rest: Seq<u8>) {
        <KeepAliveClientConfigurationFields>::lemma_round_trip(m, rest);
    }
}

impl Encode for KeepAliveClientConfiguration {
    fn encode(&self, wtr: &mut BytesMut) -> (r: Result<(), EncodeError>) {
        self.id.encode(wtr)
    }
}

impl<'a> Decode<'a> for KeepAliveClientConfiguration {
    fn decode(rdr: &mut &'a [u8]) -> (r: Result<Self, DecodeError>) {
        match <KeepAliveClientConfigurationFields>::decode(rdr) {
            Ok(id) => Ok(KeepAliveClientConfiguration { id }),
            Err(e) => Err(e),
        }
    }
}

/// A ping; the id comes back in the answer.
#[derive(Debug, PartialEq)]
pub struct PingConfiguration {
    pub id: i32,
}

/// The fields of [`PingConfiguration`], in the order in which they travel.
pub type PingConfigurationFields = i32;

impl Packet for PingConfiguration {
    const ID: i32 = 0x05;

    const NAME: &'static str = "PingConfiguration";

    const SIDE: PacketSide = PacketSide::Client;

    const STATE: PacketState = PacketState::Configuration;
}

impl Wire for PingConfiguration {
    type Model = <PingConfigurationFields as Wire>::Model;

    open spec fn model(&self) -> Self::Model {
        self.id.model()
    }

    open spec fn encoding(m: Self::Model) -> Result<Seq<u8>, EncodeError> {
        <PingConfigurationFields>::encoding(m)
    }

    open spec fn parse(s: Seq<u8>) -> Result<(Self::Model, nat), DecodeError> {
        <PingConfigurationFields>::parse(s)
    }

    open spec fn self_delimiting() -> bool {
        <PingConfigurationFields>::self_delimiting()
    }

    open spec fn well_formed() -> bool {
        <PingConfigurationFields>::well_formed()
    }

    proof fn lemma_parse_len(s: Seq<u8>) {
        <PingConfigurationFields>::lemma_parse_len(s);
    }

    proof fn lemma_round_trip(m: Self::Model, rest: Seq<u8>) {
        <PingConfigurationFields>::lemma_round_trip(m, rest);
    }
}

impl Encode for PingConfiguration {
    fn encode(&self, wtr: &mut BytesMut) -> (r: Result<(), EncodeError>) {
        self.id.encode(wtr)
    }
}

impl<'a> Decode<'a> for PingConfiguration {
    fn decode(rdr: &mut &'a [u8]) -> (r: Result<Self, DecodeError>) {
        match <PingConfigurationFields>::decode(rdr) {
            Ok(id) => Ok(PingConfiguration { id }),
            Err(e) => Err(e),
        }
    }
}

/// Clears the chat of the client.
#[derive(Debug, PartialEq)]
pub struct ResetChat {}

/// The fields of [`ResetChat`], in the order in which they travel.
pub type ResetChatFields = ();

impl Packet for ResetChat {
    const ID: i32 = 0x06;

    const NAME: &'static str = "ResetChat";

    const SIDE: PacketSide = PacketSide::Client;

    const STATE: PacketState = PacketState::Configuration;
}

impl Wire for ResetChat {
    type Model = <ResetChatFields as Wire>::Model;

    open spec fn model(&self) -> Self::Model {
        ()
    }

    open spec fn encoding(m: Self::Model) -> Result<Seq<u8>, EncodeError> {
        <ResetChatFields>::encoding(m)
    }

    open spec fn parse(s: Seq<u8>) -> Result<(Self::Model, nat), DecodeError> {
        <ResetChatFields>::parse(s)
    }

    open spec fn self_delimiting() -> bool {
        <ResetChatFields>::self_delimiting()
    }

    open spec fn well_formed() -> bool {
        <ResetChatFields>::well_formed()
    }

    proof fn lemma_parse_len(s: Seq<u8>) {
        <ResetChatFields>::lemma_parse_len(s);
    }

    proof fn lemma_round_trip(m: Self::Model, rest: Seq<u8>) {
        <ResetChatFields>::lemma_round_trip(m, rest);
    }
}

impl Encode for ResetChat {
    fn encode(&self, wtr: &mut BytesMut) -> (r: Result<(), EncodeError>) {
        ().encode(wtr)
    }
}

impl<'a> Decode<'a> for ResetChat {
    fn decode(rdr: &mut &'a [u8]) -> (r: Result<Self, DecodeError>) {
        match <ResetChatFields>::decode(rdr) {
            Ok(()) => Ok(ResetChat { }),
            Err(e) => Err(e),
        }
    }
}

/// The registries of the server, as one tag.
#[derive(Debug, PartialEq)]
pub struct RegistryData {
    pub registry_codec: NBT,
}

/// The fields of [`RegistryData`], in the order in which they travel.
pub type RegistryDataFields = NBT;

impl Packet for RegistryData {
    const ID: i32 = 0x07;

    const NAME: &'static str = "RegistryData";

    const SIDE: PacketSide = PacketSide::Client;

    const STATE: PacketState = PacketState::Configuration;
}

impl Wire for RegistryData {
    type Model = <RegistryDataFields as Wire>::Model;

    open spec fn model(&self) -> Self::Model {
        self.registry_codec.model()
    }

    open spec fn encoding(m: Self::Model) -> Result<Seq<u8>, EncodeError> {
        <RegistryDataFields>::encoding(m)
    }

    open spec fn parse(s: Seq<u8>) -> Result<(Self::Model, nat), DecodeError> {
        <RegistryDataFields>::parse(s)
    }

    open spec fn self_delimiting() -> bool {
        <RegistryDataFields>::self_delimiting()
    }

    open spec fn well_formed() -> bool {
        <RegistryDataFields>::well_formed()
    }

    proof fn lemma_parse_len(s: Seq<u8>) {
        <RegistryDataFields>::lemma_parse_len(s);
    }

    proof fn lemma_round_trip(m: Self::Model, rest: Seq<u8>) {
        <RegistryDataFields>::lemma_round_trip(m, rest);
    }
}

impl Encode for RegistryData {
    fn encode(&self, wtr: &mut BytesMut) -> (r: Result<(), EncodeError>) {
        self.registry_codec.encode(wtr)
    }
}

impl<'a> Decode<'a> for RegistryData {
    fn decode(rdr: &mut &'a [u8]) -> (r: Result<Self, DecodeError>) {
        match <RegistryDataFields>::decode(rdr) {
            Ok(registry_codec) => Ok(RegistryData { registry_codec }),
            Err(e) => Err(e),
        }
    }
}

/// Removes one resource pack, or all where none is named.
#[derive(Debug, PartialEq)]
pub struct RemoveResourcePackConfiguration {
    pub uuid: Option<Uuid>,
}

/// The fields of [`RemoveResourcePackConfiguration`], in the order in which they travel.
pub type RemoveResourcePackConfigurationFields = Option<Uuid>;

impl Packet for RemoveResourcePackConfiguration {
    const ID: i32 = 0x08;

    const NAME: &'static str = "RemoveResourcePackConfiguration";

    const SIDE: PacketSide = PacketSide::Client;

    const STATE: PacketState = PacketState::Configuration;
}

impl Wire for RemoveResourcePackConfiguration {
    type Model = <RemoveResourcePackConfigurationFields as Wire>::Model;

    open spec fn model(&self) -> Self::Model {
        self.uuid.model()
    }

    open spec fn encoding(m: Self::Model) -> Result<Seq<u8>, EncodeError> {
        <RemoveResourcePackConfigurationFields>::encoding(m)
    }

    open spec fn parse(s: Seq<u8>) -> Result<(Self::Model, nat), DecodeError> {
        <RemoveResourcePackConfigurationFields>::parse(s)
    }

    open spec fn self_delimiting() -> bool {
        <RemoveResourcePackConfigurationFields>::self_delimiting()
    }

    open spec fn well_formed() -> bool {
        <RemoveResourcePackConfigurationFields>::well_formed()
    }

    proof fn lemma_parse_len(s: Seq<u8>) {
        <RemoveResourcePackConfigurationFields>::lemma_parse_len(s);
    }

    proof fn lemma_round_trip(m: Self::Model, rest: Seq<u8>) {
        <RemoveResourcePackConfigurationFields>::lemma_round_trip(m, rest);
    }
}

impl Encode for RemoveResourcePackConfiguration {
    fn encode(&self, wtr: &mut BytesMut) -> (r: Result<(), EncodeError>) {
        self.uuid.encode(wtr)
    }
}

impl<'a> Decode<'a> for RemoveResourcePackConfiguration {
    fn decode(rdr: &mut &'a [u8]) -> (r: Result<Self, DecodeError>) {
        match <RemoveResourcePackConfigurationFields>::decode(rdr) {
            Ok(uuid) => Ok(RemoveResourcePackConfiguration { uuid }),
            Err(e) => Err(e),
        }
    }
}

/// Offers a resource pack to the client.
#[derive(Debug, PartialEq)]
pub struct AddResourcePackConfiguration<'a> {
    pub uuid: Uuid,
    pub url: &'a str,
    pub hash: Bounded<&'a str, 40>,
    pub forced: bool,
    pub option: Option<String>,
}

/// The fields of [`AddResourcePackConfiguration`], in the order in which they travel.
pub type AddResourcePackConfigurationFields<'a> = (Uuid, (&'a str, (Bounded<&'a str, 40>, (bool,
    Option<String>))));

impl<'a> Packet for AddResourcePackConfiguration<'a> {
    const ID: i32 = 0x09;

    const NAME: &'static str = "AddResourcePackConfiguration";

    const SIDE: PacketSide = PacketSide::Client;

    const STATE: PacketState = PacketState::Configuration;
}

impl<'a> Wire for AddResourcePackConfiguration<'a> {
    type Model = <AddResourcePackConfigurationFields<'a> as Wire>::Model;

    open spec fn model(&self) -> Self::Model {
        (self.uuid.model(), (self.url.model(), (self.hash.model(), (self.forced.model(),
            self.option.model()))))
    }

    open spec fn encoding(m: Self::Model) -> Result<Seq<u8>, EncodeError> {
        <AddResourcePackConfigurationFields<'a>>::encoding(m)
    }

    open spec fn parse(s: Seq<u8>) -> Result<(Self::Model, nat), DecodeError> {
        <AddResourcePackConfigurationFields<'a>>::parse(s)
    }

    open spec fn self_delimiting() -> bool {
        <AddResourcePackConfigurationFields<'a>>::self_delimiting()
    }

    open spec fn well_formed() -> bool {
        <AddResourcePackConfigurationFields<'a>>::well_formed()
    }

    proof fn lemma_parse_len(s: Seq<u8>) {
        <AddResourcePackConfigurationFields<'a>>::lemma_parse_len(s);
    }

    proof fn lemma_round_trip(m: Self::Model, rest: Seq<u8>) {
        <AddResourcePackConfigurationFields<'a>>::lemma_round_trip(m, rest);
    }
}

impl<'a> Encode for AddResourcePackConfiguration<'a> {
    fn encode(&self, wtr: &mut BytesMut) -> (r: Result<(), EncodeError>) {
        (&self.uuid, (&self.url, (&self.hash, (&self.forced, &self.option)))).encode(wtr)
    }
}

impl<'a> Decode<'a> for AddResourcePackConfiguration<'a> {
    fn decode(rdr: &mut &'a [u8]) -> (r: Result<Self, DecodeError>) {
        match <AddResourcePackConfigurationFields<'a>>::decode(rdr) {
            Ok((uuid, (url, (hash, (forced,
                option))))) => Ok(AddResourcePackConfiguration { uuid, url, hash, forced,
                option }),
            Err(e) => Err(e),
        }
    }
}

/// Hands the client a cookie to store; the payload reaches to the end of the packet.
#[derive(Debug, PartialEq)]
pub struct StoreCookieConfiguration<'a> {
    pub key: &'a str,
    pub payload: RawBytes<'a>,
}

/// The fields of [`StoreCookieConfiguration`], in the order in which they travel.
pub type StoreCookieConfigurationFields<'a> = (&'a str, RawBytes<'a>);

impl<'a> Packet for StoreCookieConfiguration<'a> {
    const ID: i32 = 0x0a;

    const NAME: &'static str = "StoreCookieConfiguration";

    const SIDE: PacketSide = PacketSide::Client;

    const STATE: PacketState = PacketState::Configuration;
}

impl<'a> Wire for StoreCookieConfiguration<'a> {
    type Model = <StoreCookieConfigurationFields<'a> as Wire>::Model;

    open spec fn model(&self) -> Self::Model {
        (self.key.model(), self.payload.model())
    }

    open spec fn encoding(m: Self::Model) -> Result<Seq<u8>, EncodeError> {
        <StoreCookieConfigurationFields<'a>>::encoding(m)
    }

    open spec fn parse(s: Seq<u8>) -> Result<(Self::Model, nat), DecodeError> {
        <StoreCookieConfigurationFields<'a>>::parse(s)
    }

    open spec fn self_delimiting() -> bool {
        <StoreCookieConfigurationFields<'a>>::self_delimiting()
    }

    open spec fn well_formed() -> bool {
        <StoreCookieConfigurationFields<'a>>::well_formed()
    }

    proof fn lemma_parse_len(s: Seq<u8>) {
        <StoreCookieConfigurationFields<'a>>::lemma_parse_len(s);
    }

    proof fn lemma_round_trip(m: Self::Model, rest: Seq<u8>) {
        <StoreCookieConfigurationFields<'a>>::lemma_round_trip(m, rest);
    }
}

impl<'a> Encode for StoreCookieConfiguration<'a> {
    fn encode(&self, wtr: &mut BytesMut) -> (r: Result<(), EncodeError>) {
        (&self.key, &self.payload).encode(wtr)
    }
}

impl<'a> Decode<'a> for StoreCookieConfiguration<'a> {
    fn decode(rdr: &mut &'a [u8]) -> (r: Result<Self, DecodeError>) {
        match <StoreCookieConfigurationFields<'a>>::decode(rdr) {
            Ok((key, payload)) => Ok(StoreCookieConfiguration { key, payload }),
            Err(e) => Err(e),
        }
    }
}

/// Sends the client on to another server.
#[derive(Debug, PartialEq)]
pub struct TransferConfiguration<'a> {
    pub host: &'a str,
    pub port: VarInt,
}

/// The fields of [`TransferConfiguration`], in the order in which they travel.
pub type TransferConfigurationFields<'a> = (&'a str, VarInt);

impl<'a> Packet for TransferConfiguration<'a> {
    const ID: i32 = 0x0b;

    const NAME: &'static str = "TransferConfiguration";

    const SIDE: PacketSide = PacketSide::Client;

    const STATE: PacketState = PacketState::Configuration;
}

impl<'a> Wire for TransferConfiguration<'a> {
    type Model = <TransferConfigurationFields<'a> as Wire>::Model;

    open spec fn model(&self) -> Self::Model {
        (self.host.model(), self.port.model())
    }

    open spec fn encoding(m: Self::Model) -> Result<Seq<u8>, EncodeError> {
        <TransferConfigurationFields<'a>>::encoding(m)
    }

    open spec fn parse(s: Seq<u8>) -> Result<(Self::Model, nat), DecodeError> {
        <TransferConfigurationFields<'a>>::parse(s)
    }

    open spec fn self_delimiting() -> bool {
        <TransferConfigurationFields<'a>>::self_delimiting()
    }

    open spec fn well_formed() -> bool {
        <TransferConfigurationFields<'a>>::well_formed()
    }

    proof fn lemma_parse_len(s: Seq<u8>) {
        <TransferConfigurationFields<'a>>::lemma_parse_len(s);
    }

    proof fn lemma_round_trip(m: Self::Model, rest: Seq<u8>) {
        <TransferConfigurationFields<'a>>::lemma_round_trip(m, rest);
    }
}

impl<'a> Encode for TransferConfiguration<'a> {
    fn encode(&self, wtr: &mut BytesMut) -> (r: Result<(), EncodeError>) {
        (&self.host, &self.port).encode(wtr)
    }
}

impl<'a> Decode<'a> for TransferConfiguration<'a> {
    fn decode(rdr: &mut &'a [u8]) -> (r: Result<Self, DecodeError>) {
        match <TransferConfigurationFields<'a>>::decode(rdr) {
            Ok((host, port)) => Ok(TransferConfiguration { host, port }),
            Err(e) => Err(e),
        }
    }
}

/// The features that the server has switched on.
#[derive(Debug, PartialEq)]
pub struct FeatureFlags {
    pub feature_flags: LenPrefixed<String>,
}

/// The fields of [`FeatureFlags`], in the order in which they travel.
pub type FeatureFlagsFields = LenPrefixed<String>;

impl Packet for FeatureFlags {
    const ID: i32 = 0x0c;

    const NAME: &'static str = "FeatureFlags";

    const SIDE: PacketSide = PacketSide::Client;

    const STATE: PacketState = PacketState::Configuration;
}

impl Wire for FeatureFlags {
    type Model = <FeatureFlagsFields as Wire>::Model;

    open spec fn model(&self) -> Self::Model {
        self.feature_flags.model()
    }

    open spec fn encoding(m: Self::Model) -> Result<Seq<u8>, EncodeError> {
        <FeatureFlagsFields>::encoding(m)
    }

    open spec fn parse(s: Seq<u8>) -> Result<(Self::Model, nat), DecodeError> {
        <FeatureFlagsFields>::parse(s)
    }

    open spec fn self_delimiting() -> bool {
        <FeatureFlagsFields>::self_delimiting()
    }

    open spec fn well_formed() -> bool {
        <FeatureFlagsFields>::well_formed()
    }

    proof fn lemma_parse_len(s: Seq<u8>) {
        <FeatureFlagsFields>::lemma_parse_len(s);
    }

    proof fn lemma_round_trip(m: Self::Model, rest: Seq<u8>) {
        <FeatureFlagsFields>::lemma_round_trip(m, rest);
    }
}

impl Encode for FeatureFlags {
    fn encode(&self, wtr: &mut BytesMut) -> (r: Result<(), EncodeError>) {
        self.feature_flags.encode(wtr)
    }
}

impl<'a> Decode<'a> for FeatureFlags {
    fn decode(rdr: &mut &'a [u8]) -> (r: Result<Self, DecodeError>) {
        match <FeatureFlagsFields>::decode(rdr) {
            Ok(feature_flags) => Ok(FeatureFlags { feature_flags }),
            Err(e) => Err(e),
        }
    }
}

/// The tags of the registries.
#[derive(Debug, PartialEq)]
pub struct UpdateTagsConfiguration {
    pub tags: LenPrefixed<TagArray>,
}

/// The fields of [`UpdateTagsConfiguration`], in the order in which they travel.
pub type UpdateTagsConfigurationFields = LenPrefixed<TagArray>;

impl Packet for UpdateTagsConfiguration {
    const ID: i32 = 0x0d;

    const NAME: &'static str = "UpdateTagsConfiguration";

    const SIDE: PacketSide = PacketSide::Client;

    const STATE: PacketState = PacketState::Configuration;
}

impl Wire for UpdateTagsConfiguration {
    type Model = <UpdateTagsConfigurationFields as Wire>::Model;

    open spec fn model(&self) -> Self::Model {
        self.tags.model()
    }

    open spec fn encoding(m: Self::Model) -> Result<Seq<u8>, EncodeError> {
        <UpdateTagsConfigurationFields>::encoding(m)
    }

    open spec fn parse(s: Seq<u8>) -> Result<(Self::Model, nat), DecodeError> {
        <UpdateTagsConfigurationFields>::parse(s)
    }

    open spec fn self_delimiting() -> bool {
        <UpdateTagsConfigurationFields>::self_delimiting()
    }

    open spec fn well_formed() -> bool {
        <UpdateTagsConfigurationFields>::well_formed()
    }

    proof fn lemma_parse_len(s: Seq<u8>) {
        <UpdateTagsConfigurationFields>::lemma_parse_len(s);
    }

    proof fn lemma_round_trip(m: Self::Model, rest: Seq<u8>) {
        <UpdateTagsConfigurationFields>::lemma_round_trip(m, rest);
    }
}

impl Encode for UpdateTagsConfiguration {
    fn encode(&self, wtr: &mut BytesMut) -> (r: Result<(), EncodeError>) {
        self.tags.encode(wtr)
    }
}

impl<'a> Decode<'a> for UpdateTagsConfiguration {
    fn decode(rdr: &mut &'a [u8]) -> (r: Result<Self, DecodeError>) {
        match <UpdateTagsConfigurationFields>::decode(rdr) {
            Ok(tags) => Ok(UpdateTagsConfiguration { tags }),
            Err(e) => Err(e),
        }
    }
}

/// The settings of the client.
#[derive(Debug, PartialEq)]
pub struct ClientInformationConfiguration<'a> {
    pub locale: Bounded<&'a str, 16>,
    pub view_distance: u8,
    pub chat_mode: ChatMode,
    pub chat_colors: bool,
    pub displayed_skin_parts: u8,
    pub main_hand: Hand,
    pub enable_text_filtering: bool,
    pub allow_server_listings: bool,
}

/// The fields of [`ClientInformationConfiguration`], in the order in which they travel.
pub type ClientInformationConfigurationFields<'a> = (Bounded<&'a str, 16>, (u8, (ChatMode,
    (bool, (u8, (Hand, (bool, bool)))))));

impl<'a> Packet for ClientInformationConfiguration<'a> {
    const ID: i32 = 0x00;

    const NAME: &'static str = "ClientInformationConfiguration";

    const SIDE: PacketSide = PacketSide::Server;

    const STATE: PacketState = PacketState::Configuration;
}

impl<'a> Wire for ClientInformationConfiguration<'a> {
    type Model = <ClientInformationConfigurationFields<'a> as Wire>::Model;

    open spec fn model(&self) -> Self::Model {
        (self.locale.model(), (self.view_distance.model(), (self.chat_mode.model(),
            (self.chat_colors.model(), (self.displayed_skin_parts.model(),
            (self.main_hand.model(), (self.enable_text_filtering.model(),
            self.allow_server_listings.model())))))))
    }

    open spec fn encoding(m: Self::Model) -> Result<Seq<u8>, EncodeError> {
        <ClientInformationConfigurationFields<'a>>::encoding(m)
    }

    open spec fn parse(s: Seq<u8>) -> Result<(Self::Model, nat), DecodeError> {
        <ClientInformationConfigurationFields<'a>>::parse(s)
    }

    open spec fn self_delimiting() -> bool {
        <ClientInformationConfigurationFields<'a>>::self_delimiting()
    }

    open spec fn well_formed() -> bool {
        <ClientInformationConfigurationFields<'a>>::well_formed()
    }

    proof fn lemma_parse_len(s: Seq<u8>) {
        <ClientInformationConfigurationFields<'a>>::lemma_parse_len(s);
    }

    proof fn lemma_round_trip(m: Self::Model, rest: Seq<u8>) {
        <ClientInformationConfigurationFields<'a>>::lemma_round_trip(m, rest);
    }
}

impl<'a> Encode for ClientInformationConfiguration<'a> {
    fn encode(&self, wtr: &mut BytesMut) -> (r: Result<(), EncodeError>) {
        (&self.locale, (&self.view_distance, (&self.chat_mode, (&self.chat_colors,
            (&self.displayed_skin_parts, (&self.main_hand, (&self.enable_text_filtering,
            &self.allow_server_listings))))))).encode(wtr)
    }
}

impl<'a> Decode<'a> for ClientInformationConfiguration<'a> {
    fn decode(rdr: &mut &'a [u8]) -> (r: Result<Self, DecodeError>) {
        match <ClientInformationConfigurationFields<'a>>::decode(rdr) {
            Ok((locale, (view_distance, (chat_mode, (chat_colors, (displayed_skin_parts,
                (main_hand, (enable_text_filtering,
                allow_server_listings)))))))) => Ok(ClientInformationConfiguration { locale,
                view_distance, chat_mode, chat_colors, displayed_skin_parts, main_hand,
                enable_text_filtering, allow_server_listings }),
            Err(e) => Err(e),
        }
    }
}

/// Hands over a cookie that was asked for, if the client has it.
#[derive(Debug, PartialEq)]
pub struct CookieResponseConfiguration<'a> {
    pub key: &'a str,
    pub payload: Option<LenPrefixed<u8>>,
}

/// The fields of [`CookieResponseConfiguration`], in the order in which they travel.
pub type CookieResponseConfigurationFields<'a> = (&'a str, Option<LenPrefixed<u8>>);

impl<'a> Packet for CookieResponseConfiguration<'a> {
    const ID: i32 = 0x01;

    const NAME: &'static str = "CookieResponseConfiguration";

    const SIDE: PacketSide = PacketSide::Server;

    const STATE: PacketState = PacketState::Configuration;
}

impl<'a> Wire for CookieResponseConfiguration<'a> {
    type Model = <CookieResponseConfigurationFields<'a> as Wire>::Model;

    open spec fn model(&self) -> Self::Model {
        (self.key.model(), self.payload.model())
    }

    open spec fn encoding(m: Self::Model) -> Result<Seq<u8>, EncodeError> {
        <CookieResponseConfigurationFields<'a>>::encoding(m)
    }

    open spec fn parse(s: Seq<u8>) -> Result<(Self::Model, nat), DecodeError> {
        <CookieResponseConfigurationFields<'a>>::parse(s)
    }

    open spec fn self_delimiting() -> bool {
        <CookieResponseConfigurationFields<'a>>::self_delimiting()
    }

    open spec fn well_formed() -> bool {
        <CookieResponseConfigurationFields<'a>>::well_formed()
    }

    proof fn lemma_parse_len(s: Seq<u8>) {
        <CookieResponseConfigurationFields<'a>>::lemma_parse_len(s);
    }

    proof fn lemma_round_trip(m: Self::Model, rest: Seq<u8>) {
        <CookieResponseConfigurationFields<'a>>::lemma_round_trip(m, rest);
    }
}

impl<'a> Encode for CookieResponseConfiguration<'a> {
    fn encode(&self, wtr: &mut BytesMut) -> (r: Result<(), EncodeError>) {
        (&self.key, &self.payload).encode(wtr)
    }
}

impl<'a> Decode<'a> for CookieResponseConfiguration<'a> {
    fn decode(rdr: &mut &'a [u8]) -> (r: Result<Self, DecodeError>) {
        match <CookieResponseConfigurationFields<'a>>::decode(rdr) {
            Ok((key, payload)) => Ok(CookieResponseConfiguration { key, payload }),
            Err(e) => Err(e),
        }
    }
}

/// A message of a plugin to the server; the data reaches to the end of the packet.
#[derive(Debug, PartialEq)]
pub struct ServerPluginMessageConfiguration<'a> {
    pub channel: &'a str,
    pub data: Bounded<RawBytes<'a>, 32767>,
}

/// The fields of [`ServerPluginMessageConfiguration`], in the order in which they travel.
pub type ServerPluginMessageConfigurationFields<'a> = (&'a str, Bounded<RawBytes<'a>, 32767>);

impl<'a> Packet for ServerPluginMessageConfiguration<'a> {
    const ID: i32 = 0x02;

    const NAME: &'static str = "ServerPluginMessageConfiguration";

    const SIDE: PacketSide = PacketSide::Server;

    const STATE: PacketState = PacketState::Configuration;
}

impl<'a> Wire for ServerPluginMessageConfiguration<'a> {
    type Model = <ServerPluginMessageConfigurationFields<'a> as Wire>::Model;

    open spec fn model(&self) -> Self::Model {
        (self.channel.model(), self.data.model())
    }

    open spec fn encoding(m: Self::Model) -> Result<Seq<u8>, EncodeError> {
        <ServerPluginMessageConfigurationFields<'a>>::encoding(m)
    }

    open spec fn parse(s: Seq<u8>) -> Result<(Self::Model, nat), DecodeError> {
        <ServerPluginMessageConfigurationFields<'a>>::parse(s)
    }

    open spec fn self_delimiting() -> bool {
        <ServerPluginMessageConfigurationFields<'a>>::self_delimiting()
    }

    open spec fn well_formed() -> bool {
        <ServerPluginMessageConfigurationFields<'a>>::well_formed()
    }

    proof fn lemma_parse_len(s: Seq<u8>) {
        <ServerPluginMessageConfigurationFields<'a>>::lemma_parse_len(s);
    }

    proof fn lemma_round_trip(m: Self::Model, rest: Seq<u8>) {
        <ServerPluginMessageConfigurationFields<'a>>::lemma_round_trip(m, rest);
    }
}

impl<'a> Encode for ServerPluginMessageConfiguration<'a> {
    fn encode(&self, wtr: &mut BytesMut) -> (r: Result<(), EncodeError>) {
        (&self.channel, &self.data).encode(wtr)
    }
}

impl<'a> Decode<'a> for ServerPluginMessageConfiguration<'a> {
    fn decode(rdr: &mut &'a [u8]) -> (r: Result<Self, DecodeError>) {
        match <ServerPluginMessageConfigurationFields<'a>>::decode(rdr) {
            Ok((channel, data)) => Ok(ServerPluginMessageConfiguration { channel, data }),
            Err(e) => Err(e),
        }
    }
}

/// Confirms the end of the configuration.
#[derive(Debug, PartialEq)]
pub struct AcknowledgeFinishConfiguration {}

/// The fields of [`AcknowledgeFinishConfiguration`], in the order in which they travel.
pub type AcknowledgeFinishConfigurationFields = ();

impl Packet for AcknowledgeFinishConfiguration {
    const ID: i32 = 0x03;

    const NAME: &'static str = "AcknowledgeFinishConfiguration";

    const SIDE: PacketSide = PacketSide::Server;

    const STATE: PacketState = PacketState::Configuration;
}

impl Wire for AcknowledgeFinishConfiguration {
    type Model = <AcknowledgeFinishConfigurationFields as Wire>::Model;

    open spec fn model(&self) -> Self::Model {
        ()
    }

    open spec fn encoding(m: Self::Model) -> Result<Seq<u8>, EncodeError> {
        <AcknowledgeFinishConfigurationFields>::encoding(m)
    }

    open spec fn parse(s: Seq<u8>) -> Result<(Self::Model, nat), DecodeError> {
        <AcknowledgeFinishConfigurationFields>::parse(s)
    }

    open spec fn self_delimiting() -> bool {
        <AcknowledgeFinishConfigurationFields>::self_delimiting()
    }

    open spec fn well_formed() -> bool {
        <AcknowledgeFinishConfigurationFields>::well_formed()
    }

    proof fn lemma_parse_len(s: Seq<u8>) {
        <AcknowledgeFinishConfigurationFields>::lemma_parse_len(s);
    }

    proof fn lemma_round_trip(m: Self::Model, rest: Seq<u8>) {
        <AcknowledgeFinishConfigurationFields>::lemma_round_trip(m, rest);
    }
}

impl Encode for AcknowledgeFinishConfiguration {
    fn encode(&self, wtr: &mut BytesMut) -> (r: Result<(), EncodeError>) {
        ().encode(wtr)
    }
}

impl<'a> Decode<'a> for AcknowledgeFinishConfiguration {
    fn decode(rdr: &mut &'a [u8]) -> (r: Result<Self, DecodeError>) {
        match <AcknowledgeFinishConfigurationFields>::decode(rdr) {
            Ok(()) => Ok(AcknowledgeFinishConfiguration { }),
            Err(e) => Err(e),
        }
    }
}

/// Shows that the client is still there.
#[derive(Debug, PartialEq)]
pub struct ServerKeepAliveConfiguration {
    pub id: i64,
}

/// The fields of [`ServerKeepAliveConfiguration`], in the order in which they travel.
pub type ServerKeepAliveConfigurationFields = i64;

impl Packet for ServerKeepAliveConfiguration {
    const ID: i32 = 0x04;

    const NAME: &'static str = "ServerKeepAliveConfiguration";

    const SIDE: PacketSide = PacketSide::Server;

    const STATE: PacketState = PacketState::Configuration;
}

impl Wire for ServerKeepAliveConfiguration {
    type Model = <ServerKeepAliveConfigurationFields as Wire>::Model;

    open spec fn model(&self) -> Self::Model {
        self.id.model()
    }

    open spec fn encoding(m: Self::Model) -> Result<Seq<u8>, EncodeError> {
        <ServerKeepAliveConfigurationFields>::encoding(m)
    }

    open spec fn parse(s: Seq<u8>) -> Result<(Self::Model, nat), DecodeError> {
        <ServerKeepAliveConfigurationFields>::parse(s)
    }

    open spec fn self_delimiting() -> bool {
        <ServerKeepAliveConfigurationFields>::self_delimiting()
    }

    open spec fn well_formed() -> bool {
        <ServerKeepAliveConfigurationFields>::well_formed()
    }

    proof fn lemma_parse_len(s: Seq<u8>) {
        <ServerKeepAliveConfigurationFields>::lemma_parse_len(s);
    }

    proof fn lemma_round_trip(m: Self::Model, rest: Seq<u8>) {
        <ServerKeepAliveConfigurationFields>::lemma_round_trip(m, rest);
    }
}

impl Encode for ServerKeepAliveConfiguration {
    fn encode(&self, wtr: &mut BytesMut) -> (r: Result<(), EncodeError>) {
        self.id.encode(wtr)
    }
}

impl<'a> Decode<'a> for ServerKeepAliveConfiguration {
    fn decode(rdr: &mut &'a [u8]) -> (r: Result<Self, DecodeError>) {
        match <ServerKeepAliveConfigurationFields>::decode(rdr) {
            Ok(id) => Ok(ServerKeepAliveConfiguration { id }),
            Err(e) => Err(e),
        }
    }
}

/// Answers a ping with the id that the ping carried.
#[derive(Debug, PartialEq)]
pub struct PongConfiguration {
    pub id: i32,
}

/// The fields of [`PongConfiguration`], in the order in which they travel.
pub type PongConfigurationFields = i32;

impl Packet for PongConfiguration {
    const ID: i32 = 0x05;

    const NAME: &'static str = "PongConfiguration";

    const SIDE: PacketSide = PacketSide::Server;

    const STATE: PacketState = PacketState::Configuration;
}

impl Wire for PongConfiguration {
    type Model = <PongConfigurationFields as Wire>::Model;

    open spec fn model(&self) -> Self::Model {
        self.id.model()
    }

    open spec fn encoding(m: Self::Model) -> Result<Seq<u8>, EncodeError> {
        <PongConfigurationFields>::encoding(m)
    }

    open spec fn parse(s: Seq<u8>) -> Result<(Self::Model, nat), DecodeError> {
        <PongConfigurationFields>::parse(s)
    }

    open spec fn self_delimiting() -> bool {
        <PongConfigurationFields>::self_delimiting()
    }

    open spec fn well_formed() -> bool {
        <PongConfigurationFields>::well_formed()
    }

    proof fn lemma_parse_len(s: Seq<u8>) {
        <PongConfigurationFields>::lemma_parse_len(s);
    }

    proof fn lemma_round_trip(m: Self::Model, rest: Seq<u8>) {
        <PongConfigurationFields>::lemma_round_trip(m, rest);
    }
}

impl Encode for PongConfiguration {
    fn encode(&self, wtr: &mut BytesMut) -> (r: Result<(), EncodeError>) {
        self.id.encode(wtr)
    }
}

impl<'a> Decode<'a> for PongConfiguration {
    fn decode(rdr: &mut &'a [u8]) -> (r: Result<Self, DecodeError>) {
        match <PongConfigurationFields>::decode(rdr) {
            Ok(id) => Ok(PongConfiguration { id }),
            Err(e) => Err(e),
        }
    }
}

/// Says what became of a resource pack that was offered.
#[derive(Debug, PartialEq)]
pub struct ResourcePackResponseConfiguration {
    pub uuid: Uuid,
    pub result: ResourcePackResponseConfigurationResult,
}

/// The fields of [`ResourcePackResponseConfiguration`], in the order in which they travel.
pub type ResourcePackResponseConfigurationFields = (Uuid,
    ResourcePackResponseConfigurationResult);

impl Packet for ResourcePackResponseConfiguration {
    const ID: i32 = 0x06;

    const NAME: &'static str = "ResourcePackResponseConfiguration";

    const SIDE: PacketSide = PacketSide::Server;

    const STATE: PacketState = PacketState::Configuration;
}

impl Wire for ResourcePackResponseConfiguration {
    type Model = <ResourcePackResponseConfigurationFields as Wire>::Model;

    open spec fn model(&self) -> Self::Model {
        (self.uuid.model(), self.result.model())
    }

    open spec fn encoding(m: Self::Model) -> Result<Seq<u8>, EncodeError> {
        <ResourcePackResponseConfigurationFields>::encoding(m)
    }

    open spec fn parse(s: Seq<u8>) -> Result<(Self::Model, nat), DecodeError> {
        <ResourcePackResponseConfigurationFields>::parse(s)
    }

    open spec fn self_delimiting() -> bool {
        <ResourcePackResponseConfigurationFields>::self_delimiting()
    }

    open spec fn well_formed() -> bool {
        <ResourcePackResponseConfigurationFields>::well_formed()
    }

    proof fn lemma_parse_len(s: Seq<u8>) {
        <ResourcePackResponseConfigurationFields>::lemma_parse_len(s);
    }

    proof fn lemma_round_trip(m: Self::Model, rest: Seq<u8>) {
        <ResourcePackResponseConfigurationFields>::lemma_round_trip(m, rest);
    }
}

impl Encode for ResourcePackResponseConfiguration {
    fn encode(&self, wtr: &mut BytesMut) -> (r: Result<(), EncodeError>) {
        (&self.uuid, &self.result).encode(wtr)
    }
}

impl<'a> Decode<'a> for ResourcePackResponseConfiguration {
    fn decode(rdr: &mut &'a [u8]) -> (r: Result<Self, DecodeError>) {
        match <ResourcePackResponseConfigurationFields>::decode(rdr) {
            Ok((uuid, result)) => Ok(ResourcePackResponseConfiguration { uuid, result }),
            Err(e) => Err(e),
        }
    }
}

/// The data packs that the client knows. The count stands in front of a sequence that carries a count of its own.
#[derive(Debug, PartialEq)]
pub struct ServerKnownPacks<'a> {
    pub count: VarInt,
    pub known_packs: Vec<KnownPack<'a>>,
}

/// The fields of [`ServerKnownPacks`], in the order in which they travel.
pub type ServerKnownPacksFields<'a> = (VarInt, Vec<KnownPack<'a>>);

impl<'a> Packet for ServerKnownPacks<'a> {
    const ID: i32 = 0x07;

    const NAME: &'static str = "ServerKnownPacks";

    const SIDE: PacketSide = PacketSide::Server;

    const STATE: PacketState = PacketState::Configuration;
}

impl<'a> Wire for ServerKnownPacks<'a> {
    type Model = <ServerKnownPacksFields<'a> as Wire>::Model;

    open spec fn model(&self) -> Self::Model {
        (self.count.model(), self.known_packs.model())
    }

    open spec fn encoding(m: Self::Model) -> Result<Seq<u8>, EncodeError> {
        <ServerKnownPacksFields<'a>>::encoding(m)
    }

    open spec fn parse(s: Seq<u8>) -> Result<(Self::Model, nat), DecodeError> {
        <ServerKnownPacksFields<'a>>::parse(s)
    }

    open spec fn self_delimiting() -> bool {
        <ServerKnownPacksFields<'a>>::self_delimiting()
    }

    open spec fn well_formed() -> bool {
        <ServerKnownPacksFields<'a>>::well_formed()
    }

    proof fn lemma_parse_len(s: Seq<u8>) {
        <ServerKnownPacksFields<'a>>::lemma_parse_len(s);
    }

    proof fn lemma_round_trip(m: Self::Model, rest: Seq<u8>) {
        <ServerKnownPacksFields<'a>>::lemma_round_trip(m, rest);
    }
}

impl<'a> Encode for ServerKnownPacks<'a> {
    fn encode(&self, wtr: &mut BytesMut) -> (r: Result<(), EncodeError>) {
        (&self.count, &self.known_packs).encode(wtr)
    }
}

impl<'a> Decode<'a> for ServerKnownPacks<'a> {
    fn decode(rdr: &mut &'a [u8]) -> (r: Result<Self, DecodeError>) {
        match <ServerKnownPacksFields<'a>>::decode(rdr) {
            Ok((count, known_packs)) => Ok(ServerKnownPacks { count, known_packs }),
            Err(e) => Err(e),
        }
    }
}

/// Asks the client to show that it is still there.
#[derive(Debug, PartialEq)]
pub struct ClientKeepAlivePlay {
    pub id: i64,
}

/// The fields of [`ClientKeepAlivePlay`], in the order in which they travel.
pub type ClientKeepAlivePlayFields = i64;

impl Packet for ClientKeepAlivePlay {
    const ID: i32 = 0x24;

    const NAME: &'static str = "ClientKeepAlivePlay";

    const SIDE: PacketSide = PacketSide::Client;

    const STATE: PacketState = PacketState::Play;
}

impl Wire for ClientKeepAlivePlay {
    type Model = <ClientKeepAlivePlayFields as Wire>::Model;

    open spec fn model(&self) -> Self::Model {
        self.id.model()
    }

    open spec fn encoding(m: Self::Model) -> Result<Seq<u8>, EncodeError> {
        <ClientKeepAlivePlayFields>::encoding(m)
    }

    open spec fn parse(s: Seq<u8>) -> Result<(Self::Model, nat), DecodeError> {
        <ClientKeepAlivePlayFields>::parse(s)
    }

    open spec fn self_delimiting() -> bool {
        <ClientKeepAlivePlayFields>::self_delimiting()
    }

    open spec fn well_formed() -> bool {
        <ClientKeepAlivePlayFields>::well_formed()
    }

    proof fn lemma_parse_len(s: Seq<u8>) {
        <ClientKeepAlivePlayFields>::lemma_parse_len(s);
    }

    proof fn lemma_round_trip(m: Self::Model, rest: Seq<u8>) {
        <ClientKeepAlivePlayFields>::lemma_round_trip(m, rest);
    }
}

impl Encode for ClientKeepAlivePlay {
    fn encode(&self, wtr: &mut BytesMut) -> (r: Result<(), EncodeError>) {
        self.id.encode(wtr)
    }
}

impl<'a> Decode<'a> for ClientKeepAlivePlay {
    fn decode(rdr: &mut &'a [u8]) -> (r: Result<Self, DecodeError>) {
        match <ClientKeepAlivePlayFields>::decode(rdr) {
            Ok(id) => Ok(ClientKeepAlivePlay { id }),
            Err(e) => Err(e),
        }
    }
}

/// The blocks and the light of one chunk.
#[derive(Debug, PartialEq)]
pub struct ChunkDataAndUpdateLight {
    pub chunk_x: i32,
    pub chunk_z: i32,
    pub heightmaps: NBT,
    pub data: LenPrefixed<u8>,
    pub block_entities: LenPrefixed<(u8, u16, VarInt, NBT)>,
    pub sky_light_mask: LenPrefixed<i64>,
    pub block_light_mask: LenPrefixed<i64>,
    pub empty_sky_light_mask: LenPrefixed<i64>,
    pub empty_block_light_mask: LenPrefixed<i64>,
    pub sky_lights: LenPrefixed<LenPrefixed<u8>>,
    pub block_lights: LenPrefixed<LenPrefixed<u8>>,
}

/// The fields of [`ChunkDataAndUpdateLight`], in the order in which they travel.
pub type ChunkDataAndUpdateLightFields = (i32, (i32, (NBT, (LenPrefixed<u8>, (LenPrefixed<(u8,
    u16, VarInt, NBT)>, (LenPrefixed<i64>, (LenPrefixed<i64>, (LenPrefixed<i64>,
    (LenPrefixed<i64>, (LenPrefixed<LenPrefixed<u8>>, LenPrefixed<LenPrefixed<u8>>))))))))));

impl Packet for ChunkDataAndUpdateLight {
    const ID: i32 = 0x25;

    const NAME: &'static str = "ChunkDataAndUpdateLight";

    const SIDE: PacketSide = PacketSide::Client;

    const STATE: PacketState = PacketState::Play;
}

impl Wire for ChunkDataAndUpdateLight {
    type Model = <ChunkDataAndUpdateLightFields as Wire>::Model;

    open spec fn model(&self) -> Self::Model {
        (self.chunk_x.model(), (self.chunk_z.model(), (self.heightmaps.model(),
            (self.data.model(), (self.block_entities.model(), (self.sky_light_mask.model(),
            (self.block_light_mask.model(), (self.empty_sky_light_mask.model(),
            (self.empty_block_light_mask.model(), (self.sky_lights.model(),
            self.block_lights.model()))))))))))
    }

    open spec fn encoding(m: Self::Model) -> Result<Seq<u8>, EncodeError> {
        <ChunkDataAndUpdateLightFields>::encoding(m)
    }

    open spec fn parse(s: Seq<u8>) -> Result<(Self::Model, nat), DecodeError> {
        <ChunkDataAndUpdateLightFields>::parse(s)
    }

    open spec fn self_delimiting() -> bool {
        <ChunkDataAndUpdateLightFields>::self_delimiting()
    }

    open spec fn well_formed() -> bool {
        <ChunkDataAndUpdateLightFields>::well_formed()
    }

    proof fn lemma_parse_len(s: Seq<u8>) {
        <ChunkDataAndUpdateLightFields>::lemma_parse_len(s);
    }

    proof fn lemma_round_trip(m: Self::Model, rest: Seq<u8>) {
        <ChunkDataAndUpdateLightFields>::lemma_round_trip(m, rest);
    }
}

impl Encode for ChunkDataAndUpdateLight {
    fn encode(&self, wtr: &mut BytesMut) -> (r: Result<(), EncodeError>) {
        (&self.chunk_x, (&self.chunk_z, (&self.heightmaps, (&self.data, (&self.block_entities,
            (&self.sky_light_mask, (&self.block_light_mask, (&self.empty_sky_light_mask,
            (&self.empty_block_light_mask, (&self.sky_lights,
            &self.block_lights)))))))))).encode(wtr)
    }
}

impl<'a> Decode<'a> for ChunkDataAndUpdateLight {
    fn decode(rdr: &mut &'a [u8]) -> (r: Result<Self, DecodeError>) {
        match <ChunkDataAndUpdateLightFields>::decode(rdr) {
            Ok((chunk_x, (chunk_z, (heightmaps, (data, (block_entities, (sky_light_mask,
                (block_light_mask, (empty_sky_light_mask, (empty_block_light_mask, (sky_lights,
                block_lights))))))))))) => Ok(ChunkDataAndUpdateLight { chunk_x, chunk_z,
                heightmaps, data, block_entities, sky_light_mask, block_light_mask,
                empty_sky_light_mask, empty_block_light_mask, sky_lights, block_lights }),
            Err(e) => Err(e),
        }
    }
}

/// Puts the player into the world.
#[derive(Debug, PartialEq)]
pub struct LoginPlay<'a> {
    pub id: i32,
    pub is_hardcore: bool,
    pub dimensions: LenPrefixed<String>,
    pub max_players: VarInt,
    pub view_distance: VarInt,
    pub simulation_distance: VarInt,
    pub reduced_debug_info: bool,
    pub enable_respawn_screen: bool,
    pub do_limited_craftingn: bool,
    pub dimension_type: &'a str,
    pub dimension_name: &'a str,
    pub hashed_seed: i64,
    pub gamemode: u8,
    pub previous_gamemode: i8,
    pub is_debug: bool,
    pub is_flat: bool,
    pub death_location: Option<(String, Position)>,
}

/// The fields of [`LoginPlay`], in the order in which they travel.
pub type LoginPlayFields<'a> = (i32, (bool, (LenPrefixed<String>, (VarInt, (VarInt, (VarInt,
    (bool, (bool, (bool, (&'a str, (&'a str, (i64, (u8, (i8, (bool, (bool, Option<(String,
    Position)>))))))))))))))));

impl<'a> Packet for LoginPlay<'a> {
    const ID: i32 = 0x29;

    const NAME: &'static str = "LoginPlay";

    const SIDE: PacketSide = PacketSide::Client;

    const STATE: PacketState = PacketState::Play;
}

impl<'a> Wire for LoginPlay<'a> {
    type Model = <LoginPlayFields<'a> as Wire>::Model;

    open spec fn model(&self) -> Self::Model {
        (self.id.model(), (self.is_hardcore.model(), (self.dimensions.model(),
            (self.max_players.model(), (self.view_distance.model(),
            (self.simulation_distance.model(), (self.reduced_debug_info.model(),
            (self.enable_respawn_screen.model(), (self.do_limited_craftingn.model(),
            (self.dimension_type.model(), (self.dimension_name.model(),
            (self.hashed_seed.model(), (self.gamemode.model(), (self.previous_gamemode.model(),
            (self.is_debug.model(), (self.is_flat.model(),
            self.death_location.model()))))))))))))))))
    }

    open spec fn encoding(m: Self::Model) -> Result<Seq<u8>, EncodeError> {
        <LoginPlayFields<'a>>::encoding(m)
    }

    open spec fn parse(s: Seq<u8>) -> Result<(Self::Model, nat), DecodeError> {
        <LoginPlayFields<'a>>::parse(s)
    }

    open spec fn self_delimiting() -> bool {
        <LoginPlayFields<'a>>::self_delimiting()
    }

    open spec fn well_formed() -> bool {
        <LoginPlayFields<'a>>::well_formed()
    }

    proof fn lemma_parse_len(s: Seq<u8>) {
        <LoginPlayFields<'a>>::lemma_parse_len(s);
    }

    proof fn lemma_round_trip(m: Self::Model, rest: Seq<u8>) {
        <LoginPlayFields<'a>>::lemma_round_trip(m, rest);
    }
}

impl<'a> Encode for LoginPlay<'a> {
    fn encode(&self, wtr: &mut BytesMut) -> (r: Result<(), EncodeError>) {
        (&self.id, (&self.is_hardcore, (&self.dimensions, (&self.max_players,
            (&self.view_distance, (&self.simulation_distance, (&self.reduced_debug_info,
            (&self.enable_respawn_screen, (&self.do_limited_craftingn, (&self.dimension_type,
            (&self.dimension_name, (&self.hashed_seed, (&self.gamemode,
            (&self.previous_gamemode, (&self.is_debug, (&self.is_flat,
            &self.death_location)))))))))))))))).encode(wtr)
    }
}

impl<'a> Decode<'a> for LoginPlay<'a> {
    fn decode(rdr: &mut &'a [u8]) -> (r: Result<Self, DecodeError>) {
        match <LoginPlayFields<'a>>::decode(rdr) {
            Ok((id, (is_hardcore, (dimensions, (max_players, (view_distance,
                (simulation_distance, (reduced_debug_info, (enable_respawn_screen,
                (do_limited_craftingn, (dimension_type, (dimension_name, (hashed_seed,
                (gamemode, (previous_gamemode, (is_debug, (is_flat,
                death_location))))))))))))))))) => Ok(LoginPlay { id, is_hardcore, dimensions,
                max_players, view_distance, simulation_distance, reduced_debug_info,
                enable_respawn_screen, do_limited_craftingn, dimension_type, dimension_name,
                hashed_seed, gamemode, previous_gamemode, is_debug, is_flat, death_location }),
            Err(e) => Err(e),
        }
    }
}

/// Moves the player; the client confirms with the teleport id.
#[derive(Debug, PartialEq)]
pub struct SynchronizePlayerPosition {
    pub x: Float64,
    pub y: Float64,
    pub z: Float64,
    pub yaw: Float32,
    pub pitch: Float32,
    pub flags: u8,
    pub teleport_id: VarInt,
}

/// The fields of [`SynchronizePlayerPosition`], in the order in which they travel.
pub type SynchronizePlayerPositionFields = (Float64, (Float64, (Float64, (Float32, (Float32,
    (u8, VarInt))))));

impl Packet for SynchronizePlayerPosition {
    const ID: i32 = 0x3e;

    const NAME: &'static str = "SynchronizePlayerPosition";

    const SIDE: PacketSide = PacketSide::Client;

    const STATE: PacketState = PacketState::Play;
}

impl Wire for SynchronizePlayerPosition {
    type Model = <SynchronizePlayerPositionFields as Wire>::Model;

    open spec fn model(&self) -> Self::Model {
        (self.x.model(), (self.y.model(), (self.z.model(), (self.yaw.model(),
            (self.pitch.model(), (self.flags.model(), self.teleport_id.model()))))))
    }

    open spec fn encoding(m: Self::Model) -> Result<Seq<u8>, EncodeError> {
        <SynchronizePlayerPositionFields>::encoding(m)
    }

    open spec fn parse(s: Seq<u8>) -> Result<(Self::Model, nat), DecodeError> {
        <SynchronizePlayerPositionFields>::parse(s)
    }

    open spec fn self_delimiting() -> bool {
        <SynchronizePlayerPositionFields>::self_delimiting()
    }

    open spec fn well_formed() -> bool {
        <SynchronizePlayerPositionFields>::well_formed()
    }

    proof fn lemma_parse_len(s: Seq<u8>) {
        <SynchronizePlayerPositionFields>::lemma_parse_len(s);
    }

    proof fn lemma_round_trip(m: Self::Model, rest: Seq<u8>) {
        <SynchronizePlayerPositionFields>::lemma_round_trip(m, rest);
    }
}

impl Encode for SynchronizePlayerPosition {
    fn encode(&self, wtr: &mut BytesMut) -> (r: Result<(), EncodeError>) {
        (&self.x, (&self.y, (&self.z, (&self.yaw, (&self.pitch, (&self.flags,
            &self.teleport_id)))))).encode(wtr)
    }
}

impl<'a> Decode<'a> for SynchronizePlayerPosition {
    fn decode(rdr: &mut &'a [u8]) -> (r: Result<Self, DecodeError>) {
        match <SynchronizePlayerPositionFields>::decode(rdr) {
            Ok((x, (y, (z, (yaw, (pitch, (flags,
                teleport_id))))))) => Ok(SynchronizePlayerPosition { x, y, z, yaw, pitch, flags,
                teleport_id }),
            Err(e) => Err(e),
        }
    }
}

/// Confirms a move that the server ordered.
#[derive(Debug, PartialEq)]
pub struct ConfirmTeleport {
    pub teleport_id: VarInt,
}

/// The fields of [`ConfirmTeleport`], in the order in which they travel.
pub type ConfirmTeleportFields = VarInt;

impl Packet for ConfirmTeleport {
    const ID: i32 = 0x00;

    const NAME: &'static str = "ConfirmTeleport";

    const SIDE: PacketSide = PacketSide::Server;

    const STATE: PacketState = PacketState::Play;
}

impl Wire for ConfirmTeleport {
    type Model = <ConfirmTeleportFields as Wire>::Model;

    open spec fn model(&self) -> Self::Model {
        self.teleport_id.model()
    }

    open spec fn encoding(m: Self::Model) -> Result<Seq<u8>, EncodeError> {
        <ConfirmTeleportFields>::encoding(m)
    }

    open spec fn parse(s: Seq<u8>) -> Result<(Self::Model, nat), DecodeError> {
        <ConfirmTeleportFields>::parse(s)
    }

    open spec fn self_delimiting() -> bool {
        <ConfirmTeleportFields>::self_delimiting()
    }

    open spec fn well_formed() -> bool {
        <ConfirmTeleportFields>::well_formed()
    }

    proof fn lemma_parse_len(s: Seq<u8>) {
        <ConfirmTeleportFields>::lemma_parse_len(s);
    }

    proof fn lemma_round_trip(m: Self::Model, rest: Seq<u8>) {
        <ConfirmTeleportFields>::lemma_round_trip(m, rest);
    }
}

impl Encode for ConfirmTeleport {
    fn encode(&self, wtr: &mut BytesMut) -> (r: Result<(), EncodeError>) {
        self.teleport_id.encode(wtr)
    }
}

impl<'a> Decode<'a> for ConfirmTeleport {
    fn decode(rdr: &mut &'a [u8]) -> (r: Result<Self, DecodeError>) {
        match <ConfirmTeleportFields>::decode(rdr) {
            Ok(teleport_id) => Ok(ConfirmTeleport { teleport_id }),
            Err(e) => Err(e),
        }
    }
}

/// Shows that the client is still there.
#[derive(Debug, PartialEq)]
pub struct ServerKeepAlivePlay {
    pub id: i64,
}

/// The fields of [`ServerKeepAlivePlay`], in the order in which they travel.
pub type ServerKeepAlivePlayFields = i64;

impl Packet for ServerKeepAlivePlay {
    const ID: i32 = 0x15;

    const NAME: &'static str = "ServerKeepAlivePlay";

    const SIDE: PacketSide = PacketSide::Server;

    const STATE: PacketState = PacketState::Play;
}

impl Wire for ServerKeepAlivePlay {
    type Model = <ServerKeepAlivePlayFields as Wire>::Model;

    open spec fn model(&self) -> Self::Model {
        self.id.model()
    }

    open spec fn encoding(m: Self::Model) -> Result<Seq<u8>, EncodeError> {
        <ServerKeepAlivePlayFields>::encoding(m)
    }

    open spec fn parse(s: Seq<u8>) -> Result<(Self::Model, nat), DecodeError> {
        <ServerKeepAlivePlayFields>::parse(s)
    }

    open spec fn self_delimiting() -> bool {
        <ServerKeepAlivePlayFields>::self_delimiting()
    }

    open spec fn well_formed() -> bool {
        <ServerKeepAlivePlayFields>::well_formed()
    }

    proof fn lemma_parse_len(s: Seq<u8>) {
        <ServerKeepAlivePlayFields>::lemma_parse_len(s);
    }

    proof fn lemma_round_trip(m: Self::Model, rest: Seq<u8>) {
        <ServerKeepAlivePlayFields>::lemma_round_trip(m, rest);
    }
}

impl Encode for ServerKeepAlivePlay {
    fn encode(&self, wtr: &mut BytesMut) -> (r: Result<(), EncodeError>) {
        self.id.encode(wtr)
    }
}

impl<'a> Decode<'a> for ServerKeepAlivePlay {
    fn decode(rdr: &mut &'a [u8]) -> (r: Result<Self, DecodeError>) {
        match <ServerKeepAlivePlayFields>::decode(rdr) {
            Ok(id) => Ok(ServerKeepAlivePlay { id }),
            Err(e) => Err(e),
        }
    }
}

/// Every packet above stands in the table, under its own phase, side and
/// id and with its own name.
pub proof fn lemma_table_lists_every_packet()
    ensures
        index_of(Handshake::STATE, Handshake::SIDE, Handshake::ID) == Some(0int),
        table()[0].name@ == Handshake::NAME@,
        index_of(StatusResponse::STATE, StatusResponse::SIDE, StatusResponse::ID) == Some(1int),
        table()[1].name@ == StatusResponse::NAME@,
        index_of(PingStatus::STATE, PingStatus::SIDE, PingStatus::ID) == Some(2int),
        table()[2].name@ == PingStatus::NAME@,
        index_of(StatusRequest::STATE, StatusRequest::SIDE, StatusRequest::ID) == Some(3int),
        table()[3].name@ == StatusRequest::NAME@,
        index_of(PongStatus::STATE, PongStatus::SIDE, PongStatus::ID) == Some(4int),
        table()[4].name@ == PongStatus::NAME@,
        index_of(DisconnectLogin::STATE, DisconnectLogin::SIDE, DisconnectLogin::ID) == Some(5int),
        table()[5].name@ == DisconnectLogin::NAME@,
        index_of(EncryptionRequest::STATE, EncryptionRequest::SIDE, EncryptionRequest::ID) == Some(6int),
        table()[6].name@ == EncryptionRequest::NAME@,
        index_of(LoginSuccess::STATE, LoginSuccess::SIDE, LoginSuccess::ID) == Some(7int),
        table()[7].name@ == LoginSuccess::NAME@,
        index_of(SetCompression::STATE, SetCompression::SIDE, SetCompression::ID) == Some(8int),
        table()[8].name@ == SetCompression::NAME@,
        index_of(LoginPluginRequest::STATE, LoginPluginRequest::SIDE, LoginPluginRequest::ID) == Some(9int),
        table()[9].name@ == LoginPluginRequest::NAME@,
        index_of(CookieRequestLogin::STATE, CookieRequestLogin::SIDE, CookieRequestLogin::ID) == Some(10int),
        table()[10].name@ == CookieRequestLogin::NAME@,
        index_of(LoginStart::STATE, LoginStart::SIDE, LoginStart::ID) == Some(11int),
        table()[11].name@ == LoginStart::NAME@,
        index_of(EncryptionResponse::STATE, EncryptionResponse::SIDE, EncryptionResponse::ID) == Some(12int),
        table()[12].name@ == EncryptionResponse::NAME@,
        index_of(LoginPluginResponse::STATE, LoginPluginResponse::SIDE, LoginPluginResponse::ID) == Some(13int),
        table()[13].name@ == LoginPluginResponse::NAME@,
        index_of(LoginAcknowledged::STATE, LoginAcknowledged::SIDE, LoginAcknowledged::ID) == Some(14int),
        table()[14].name@ == LoginAcknowledged::NAME@,
        index_of(CookieResponseLogin::STATE, CookieResponseLogin::SIDE, CookieResponseLogin::ID) == Some(15int),
        table()[15].name@ == CookieResponseLogin::NAME@,
        index_of(CookieRequest::STATE, CookieRequest::SIDE, CookieRequest::ID) == Some(16int),
        table()[16].name@ == CookieRequest::NAME@,
        index_of(ClientPluginMessageConfiguration::STATE, ClientPluginMessageConfiguration::SIDE, ClientPluginMessageConfiguration::ID) == Some(17int),
        table()[17].name@ == ClientPluginMessageConfiguration::NAME@,
        index_of(DisconnectConfiguration::STATE, DisconnectConfiguration::SIDE, DisconnectConfiguration::ID) == Some(18int),
        table()[18].name@ == DisconnectConfiguration::NAME@,
        index_of(FinishConfiguration::STATE, FinishConfiguration::SIDE, FinishConfiguration::ID) == Some(19int),
        table()[19].name@ == FinishConfiguration::NAME@,
        index_of(KeepAliveClientConfiguration::STATE, KeepAliveClientConfiguration::SIDE, KeepAliveClientConfiguration::ID) == Some(20int),
        table()[20].name@ == KeepAliveClientConfiguration::NAME@,
        index_of(PingConfiguration::STATE, PingConfiguration::SIDE, PingConfiguration::ID) == Some(21int),
        table()[21].name@ == PingConfiguration::NAME@,
        index_of(ResetChat::STATE, ResetChat::SIDE, ResetChat::ID) == Some(22int),
        table()[22].name@ == ResetChat::NAME@,
        index_of(RegistryData::STATE, RegistryData::SIDE, RegistryData::ID) == Some(23int),
        table()[23].name@ == RegistryData::NAME@,
        index_of(RemoveResourcePackConfiguration::STATE, RemoveResourcePackConfiguration::SIDE, RemoveResourcePackConfiguration::ID) == Some(24int),
        table()[24].name@ == RemoveResourcePackConfiguration::NAME@,
        index_of(AddResourcePackConfiguration::STATE, AddResourcePackConfiguration::SIDE, AddResourcePackConfiguration::ID) == Some(25int),
        table()[25].name@ == AddResourcePackConfiguration::NAME@,
        index_of(StoreCookieConfiguration::STATE, StoreCookieConfiguration::SIDE, StoreCookieConfiguration::ID) == Some(26int),
        table()[26].name@ == StoreCookieConfiguration::NAME@,
        index_of(TransferConfiguration::STATE, TransferConfiguration::SIDE, TransferConfiguration::ID) == Some(27int),
        table()[27].name@ == TransferConfiguration::NAME@,
        index_of(FeatureFlags::STATE, FeatureFlags::SIDE, FeatureFlags::ID) == Some(28int),
        table()[28].name@ == FeatureFlags::NAME@,
        index_of(UpdateTagsConfiguration::STATE, UpdateTagsConfiguration::SIDE, UpdateTagsConfiguration::ID) == Some(29int),
        table()[29].name@ == UpdateTagsConfiguration::NAME@,
        index_of(ClientInformationConfiguration::STATE, ClientInformationConfiguration::SIDE, ClientInformationConfiguration::ID) == Some(30int),
        table()[30].name@ == ClientInformationConfiguration::NAME@,
        index_of(CookieResponseConfiguration::STATE, CookieResponseConfiguration::SIDE, CookieResponseConfiguration::ID) == Some(31int),
        table()[31].name@ == CookieResponseConfiguration::NAME@,
        index_of(ServerPluginMessageConfiguration::STATE, ServerPluginMessageConfiguration::SIDE, ServerPluginMessageConfiguration::ID) == Some(32int),
        table()[32].name@ == ServerPluginMessageConfiguration::NAME@,
        index_of(AcknowledgeFinishConfiguration::STATE, AcknowledgeFinishConfiguration::SIDE, AcknowledgeFinishConfiguration::ID) == Some(33int),
        table()[33].name@ == AcknowledgeFinishConfiguration::NAME@,
        index_of(ServerKeepAliveConfiguration::STATE, ServerKeepAliveConfiguration::SIDE, ServerKeepAliveConfiguration::ID) == Some(34int),
        table()[34].name@ == ServerKeepAliveConfiguration::NAME@,
        index_of(PongConfiguration::STATE, PongConfiguration::SIDE, PongConfiguration::ID) == Some(35int),
        table()[35].name@ == PongConfiguration::NAME@,
        index_of(ResourcePackResponseConfiguration::STATE, ResourcePackResponseConfiguration::SIDE, ResourcePackResponseConfiguration::ID) == Some(36int),
        table()[36].name@ == ResourcePackResponseConfiguration::NAME@,
        index_of(ServerKnownPacks::STATE, ServerKnownPacks::SIDE, ServerKnownPacks::ID) == Some(37int),
        table()[37].name@ == ServerKnownPacks::NAME@,
        index_of(ClientKeepAlivePlay::STATE, ClientKeepAlivePlay::SIDE, ClientKeepAlivePlay::ID) == Some(38int),
        table()[38].name@ == ClientKeepAlivePlay::NAME@,
        index_of(ChunkDataAndUpdateLight::STATE, ChunkDataAndUpdateLight::SIDE, ChunkDataAndUpdateLight::ID) == Some(39int),
        table()[39].name@ == ChunkDataAndUpdateLight::NAME@,
        index_of(LoginPlay::STATE, LoginPlay::SIDE, LoginPlay::ID) == Some(40int),
        table()[40].name@ == LoginPlay::NAME@,
        index_of(SynchronizePlayerPosition::STATE, SynchronizePlayerPosition::SIDE, SynchronizePlayerPosition::ID) == Some(41int),
        table()[41].name@ == SynchronizePlayerPosition::NAME@,
        index_of(ConfirmTeleport::STATE, ConfirmTeleport::SIDE, ConfirmTeleport::ID) == Some(42int),
        table()[42].name@ == ConfirmTeleport::NAME@,
        index_of(ServerKeepAlivePlay::STATE, ServerKeepAlivePlay::SIDE, ServerKeepAlivePlay::ID) == Some(43int),
        table()[43].name@ == ServerKeepAlivePlay::NAME@,
{
}

/// In every packet above, only the last field may reach to the end of the
/// input, so every packet that has an encoding reads back from it.
pub proof fn lemma_packets_well_formed()
    ensures
        Handshake::well_formed(),
        StatusResponse::well_formed(),
        PingStatus::well_formed(),
        StatusRequest::well_formed(),
        PongStatus::well_formed(),
        DisconnectLogin::well_formed(),
        EncryptionRequest::well_formed(),
        LoginSuccess::well_formed(),
        SetCompression::well_formed(),
        LoginPluginRequest::well_formed(),
        CookieRequestLogin::well_formed(),
        LoginStart::well_formed(),
        EncryptionResponse::well_formed(),
        LoginPluginResponse::well_formed(),
        LoginAcknowledged::well_formed(),
        CookieResponseLogin::well_formed(),
        CookieRequest::well_formed(),
        ClientPluginMessageConfiguration::well_formed(),
        DisconnectConfiguration::well_formed(),
        FinishConfiguration::well_formed(),
        KeepAliveClientConfiguration::well_formed(),
        PingConfiguration::well_formed(),
        ResetChat::well_formed(),
        RegistryData::well_formed(),
        RemoveResourcePackConfiguration::well_formed(),
        AddResourcePackConfiguration::well_formed(),
        StoreCookieConfiguration::well_formed(),
        TransferConfiguration::well_formed(),
        FeatureFlags::well_formed(),
        UpdateTagsConfiguration::well_formed(),
        ClientInformationConfiguration::well_formed(),
        CookieResponseConfiguration::well_formed(),
        ServerPluginMessageConfiguration::well_formed(),
        AcknowledgeFinishConfiguration::well_formed(),
        ServerKeepAliveConfiguration::well_formed(),
        PongConfiguration::well_formed(),
        ResourcePackResponseConfiguration::well_formed(),
        ServerKnownPacks::well_formed(),
        ClientKeepAlivePlay::well_formed(),
        ChunkDataAndUpdateLight::well_formed(),
        LoginPlay::well_formed(),
        SynchronizePlayerPosition::well_formed(),
        ConfirmTeleport::well_formed(),
        ServerKeepAlivePlay::well_formed(),
{
}

} // verus!
