//! The packet table: which id names which packet, in which phase and from
//! which side. An id alone names nothing, for the same id serves in several
//! phases and from both sides.

use crate::packet::{Packet, PacketSide, PacketState};
use vstd::prelude::*;

verus! {

/// What the table records of a packet.
#[derive(Debug, Clone, Copy, PartialEq, Eq)]
pub struct PacketInfo {
    pub id: i32,
    pub name: &'static str,
    pub side: PacketSide,
    pub state: PacketState,
}

/// What a packet type says of itself.
pub fn info<P: Packet>() -> (r: PacketInfo)
    ensures
        r.id == P::ID,
        r.name@ == P::NAME@,
        r.side == P::SIDE,
        r.state == P::STATE,
{
    PacketInfo { id: P::ID, name: P::NAME, side: P::SIDE, state: P::STATE }
}

/// The table, phase by phase and side by side, in the order of the ids.
pub open spec fn table() -> Seq<PacketInfo> {
    seq![
        PacketInfo { id: 0x00, name: "Handshake", side: PacketSide::Server, state: PacketState::Handshaking },
        PacketInfo { id: 0x00, name: "StatusResponse", side: PacketSide::Client, state: PacketState::Status },
        PacketInfo { id: 0x01, name: "PingStatus", side: PacketSide::Client, state: PacketState::Status },
        PacketInfo { id: 0x00, name: "StatusRequest", side: PacketSide::Server, state: PacketState::Status },
        PacketInfo { id: 0x01, name: "PongStatus", side: PacketSide::Server, state: PacketState::Status },
        PacketInfo { id: 0x00, name: "DisconnectLogin", side: PacketSide::Client, state: PacketState::Login },
        PacketInfo { id: 0x01, name: "EncryptionRequest", side: PacketSide::Client, state: PacketState::Login },
        PacketInfo { id: 0x02, name: "LoginSuccess", side: PacketSide::Client, state: PacketState::Login },
        PacketInfo { id: 0x03, name: "SetCompression", side: PacketSide::Client, state: PacketState::Login },
        PacketInfo { id: 0x04, name: "LoginPluginRequest", side: PacketSide::Client, state: PacketState::Login },
        PacketInfo { id: 0x05, name: "CookieRequestLogin", side: PacketSide::Client, state: PacketState::Login },
        PacketInfo { id: 0x00, name: "LoginStart", side: PacketSide::Server, state: PacketState::Login },
        PacketInfo { id: 0x01, name: "EncryptionResponse", side: PacketSide::Server, state: PacketState::Login },
        PacketInfo { id: 0x02, name: "LoginPluginResponse", side: PacketSide::Server, state: PacketState::Login },
        PacketInfo { id: 0x03, name: "LoginAcknowledged", side: PacketSide::Server, state: PacketState::Login },
        PacketInfo { id: 0x04, name: "CookieResponseLogin", side: PacketSide::Server, state: PacketState::Login },
        PacketInfo { id: 0x00, name: "CookieRequest", side: PacketSide::Client, state: PacketState::Configuration },
        PacketInfo { id: 0x01, name: "ClientPluginMessageConfiguration", side: PacketSide::Client, state: PacketState::Configuration },
        PacketInfo { id: 0x02, name: "DisconnectConfiguration", side: PacketSide::Client, state: PacketState::Configuration },
        PacketInfo { id: 0x03, name: "FinishConfiguration", side: PacketSide::Client, state: PacketState::Configuration },
        PacketInfo { id: 0x04, name: "KeepAliveClientConfiguration", side: PacketSide::Client, state: PacketState::Configuration },
        PacketInfo { id: 0x05, name: "PingConfiguration", side: PacketSide::Client, state: PacketState::Configuration },
        PacketInfo { id: 0x06, name: "ResetChat", side: PacketSide::Client, state: PacketState::Configuration },
        PacketInfo { id: 0x07, name: "RegistryData", side: PacketSide::Client, state: PacketState::Configuration },
        PacketInfo { id: 0x08, name: "RemoveResourcePackConfiguration", side: PacketSide::Client, state: PacketState::Configuration },
        PacketInfo { id: 0x09, name: "AddResourcePackConfiguration", side: PacketSide::Client, state: PacketState::Configuration },
        PacketInfo { id: 0x0a, name: "StoreCookieConfiguration", side: PacketSide::Client, state: PacketState::Configuration },
        PacketInfo { id: 0x0b, name: "TransferConfiguration", side: PacketSide::Client, state: PacketState::Configuration },
        PacketInfo { id: 0x0c, name: "FeatureFlags", side: PacketSide::Client, state: PacketState::Configuration },
        PacketInfo { id: 0x0d, name: "UpdateTagsConfiguration", side: PacketSide::Client, state: PacketState::Configuration },
        PacketInfo { id: 0x00, name: "ClientInformationConfiguration", side: PacketSide::Server, state: PacketState::Configuration },
        PacketInfo { id: 0x01, name: "CookieResponseConfiguration", side: PacketSide::Server, state: PacketState::Configuration },
        PacketInfo { id: 0x02, name: "ServerPluginMessageConfiguration", side: PacketSide::Server, state: PacketState::Configuration },
        PacketInfo { id: 0x03, name: "AcknowledgeFinishConfiguration", side: PacketSide::Server, state: PacketState::Configuration },
        PacketInfo { id: 0x04, name: "ServerKeepAliveConfiguration", side: PacketSide::Server, state: PacketState::Configuration },
        PacketInfo { id: 0x05, name: "PongConfiguration", side: PacketSide::Server, state: PacketState::Configuration },
        PacketInfo { id: 0x06, name: "ResourcePackResponseConfiguration", side: PacketSide::Server, state: PacketState::Configuration },
        PacketInfo { id: 0x07, name: "ServerKnownPacks", side: PacketSide::Server, state: PacketState::Configuration },
        PacketInfo { id: 0x24, name: "ClientKeepAlivePlay", side: PacketSide::Client, state: PacketState::Play },
        PacketInfo { id: 0x25, name: "ChunkDataAndUpdateLight", side: PacketSide::Client, state: PacketState::Play },
        PacketInfo { id: 0x29, name: "LoginPlay", side: PacketSide::Client, state: PacketState::Play },
        PacketInfo { id: 0x3e, name: "SynchronizePlayerPosition", side: PacketSide::Client, state: PacketState::Play },
        PacketInfo { id: 0x00, name: "ConfirmTeleport", side: PacketSide::Server, state: PacketState::Play },
        PacketInfo { id: 0x15, name: "ServerKeepAlivePlay", side: PacketSide::Server, state: PacketState::Play },
    ]
}

/// The place in the table of the packet with the given id, in the given
/// phase and from the given side, if there is one.
pub open spec fn index_of(state: PacketState, side: PacketSide, id: i32) -> Option<int> {
    match (state, side) {
        (PacketState::Handshaking, PacketSide::Client) => None,
        (PacketState::Handshaking, PacketSide::Server) => match id {
            0x00 => Some(0),
            _ => None,
        },
        (PacketState::Status, PacketSide::Client) => match id {
            0x00 => Some(1),
            0x01 => Some(2),
            _ => None,
        },
        (PacketState::Status, PacketSide::Server) => match id {
            0x00 => Some(3),
            0x01 => Some(4),
            _ => None,
        },
        (PacketState::Login, PacketSide::Client) => match id {
            0x00 => Some(5),
            0x01 => Some(6),
            0x02 => Some(7),
            0x03 => Some(8),
            0x04 => Some(9),
            0x05 => Some(10),
            _ => None,
        },
        (PacketState::Login, PacketSide::Server) => match id {
            0x00 => Some(11),
            0x01 => Some(12),
            0x02 => Some(13),
            0x03 => Some(14),
            0x04 => Some(15),
            _ => None,
        },
        (PacketState::Configuration, PacketSide::Client) => match id {
            0x00 => Some(16),
            0x01 => Some(17),
            0x02 => Some(18),
            0x03 => Some(19),
            0x04 => Some(20),
            0x05 => Some(21),
            0x06 => Some(22),
            0x07 => Some(23),
            0x08 => Some(24),
            0x09 => Some(25),
            0x0a => Some(26),
            0x0b => Some(27),
            0x0c => Some(28),
            0x0d => Some(29),
            _ => None,
        },
        (PacketState::Configuration, PacketSide::Server) => match id {
            0x00 => Some(30),
            0x01 => Some(31),
            0x02 => Some(32),
            0x03 => Some(33),
            0x04 => Some(34),
            0x05 => Some(35),
            0x06 => Some(36),
            0x07 => Some(37),
            _ => None,
        },
        (PacketState::Play, PacketSide::Client) => match id {
            0x24 => Some(38),
            0x25 => Some(39),
            0x29 => Some(40),
            0x3e => Some(41),
            _ => None,
        },
        (PacketState::Play, PacketSide::Server) => match id {
            0x00 => Some(42),
            0x15 => Some(43),
            _ => None,
        },
    }
}

/// Every entry of the table is found at its own place.
pub proof fn lemma_table_index()
    ensures
        table().len() == 44,
        forall|i: int|
            0 <= i < table().len() ==> index_of(
                (#[trigger] table()[i]).state,
                table()[i].side,
                table()[i].id,
            ) == Some(i),
{
    let t = table();
    assert(index_of(t[0].state, t[0].side, t[0].id) == Some(0int));
    assert(index_of(t[1].state, t[1].side, t[1].id) == Some(1int));
    assert(index_of(t[2].state, t[2].side, t[2].id) == Some(2int));
    assert(index_of(t[3].state, t[3].side, t[3].id) == Some(3int));
    assert(index_of(t[4].state, t[4].side, t[4].id) == Some(4int));
    assert(index_of(t[5].state, t[5].side, t[5].id) == Some(5int));
    assert(index_of(t[6].state, t[6].side, t[6].id) == Some(6int));
    assert(index_of(t[7].state, t[7].side, t[7].id) == Some(7int));
    assert(index_of(t[8].state, t[8].side, t[8].id) == Some(8int));
    assert(index_of(t[9].state, t[9].side, t[9].id) == Some(9int));
    assert(index_of(t[10].state, t[10].side, t[10].id) == Some(10int));
    assert(index_of(t[11].state, t[11].side, t[11].id) == Some(11int));
    assert(index_of(t[12].state, t[12].side, t[12].id) == Some(12int));
    assert(index_of(t[13].state, t[13].side, t[13].id) == Some(13int));
    assert(index_of(t[14].state, t[14].side, t[14].id) == Some(14int));
    assert(index_of(t[15].state, t[15].side, t[15].id) == Some(15int));
    assert(index_of(t[16].state, t[16].side, t[16].id) == Some(16int));
    assert(index_of(t[17].state, t[17].side, t[17].id) == Some(17int));
    assert(index_of(t[18].state, t[18].side, t[18].id) == Some(18int));
    assert(index_of(t[19].state, t[19].side, t[19].id) == Some(19int));
    assert(index_of(t[20].state, t[20].side, t[20].id) == Some(20int));
    assert(index_of(t[21].state, t[21].side, t[21].id) == Some(21int));
    assert(index_of(t[22].state, t[22].side, t[22].id) == Some(22int));
    assert(index_of(t[23].state, t[23].side, t[23].id) == Some(23int));
    assert(index_of(t[24].state, t[24].side, t[24].id) == Some(24int));
    assert(index_of(t[25].state, t[25].side, t[25].id) == Some(25int));
    assert(index_of(t[26].state, t[26].side, t[26].id) == Some(26int));
    assert(index_of(t[27].state, t[27].side, t[27].id) == Some(27int));
    assert(index_of(t[28].state, t[28].side, t[28].id) == Some(28int));
    assert(index_of(t[29].state, t[29].side, t[29].id) == Some(29int));
    assert(index_of(t[30].state, t[30].side, t[30].id) == Some(30int));
    assert(index_of(t[31].state, t[31].side, t[31].id) == Some(31int));
    assert(index_of(t[32].state, t[32].side, t[32].id) == Some(32int));
    assert(index_of(t[33].state, t[33].side, t[33].id) == Some(33int));
    assert(index_of(t[34].state, t[34].side, t[34].id) == Some(34int));
    assert(index_of(t[35].state, t[35].side, t[35].id) == Some(35int));
    assert(index_of(t[36].state, t[36].side, t[36].id) == Some(36int));
    assert(index_of(t[37].state, t[37].side, t[37].id) == Some(37int));
    assert(index_of(t[38].state, t[38].side, t[38].id) == Some(38int));
    assert(index_of(t[39].state, t[39].side, t[39].id) == Some(39int));
    assert(index_of(t[40].state, t[40].side, t[40].id) == Some(40int));
    assert(index_of(t[41].state, t[41].side, t[41].id) == Some(41int));
    assert(index_of(t[42].state, t[42].side, t[42].id) == Some(42int));
    assert(index_of(t[43].state, t[43].side, t[43].id) == Some(43int));
}

/// No two entries of the table share phase, side and id.
pub proof fn lemma_table_unique(i: int, j: int)
    requires
        0 <= i < table().len(),
        0 <= j < table().len(),
        table()[i].state == table()[j].state,
        table()[i].side == table()[j].side,
        table()[i].id == table()[j].id,
    ensures
        i == j,
{
    lemma_table_index();
}


/// Looks a packet up by phase, side and id.
pub fn find(state: PacketState, side: PacketSide, id: i32) -> (r: Option<PacketInfo>)
    ensures
        match index_of(state, side, id) {
            Some(i) => r == Some(table()[i]),
            None => r is None,
        },
{
    match (state, side) {
        (PacketState::Handshaking, PacketSide::Client) => None,
        (PacketState::Handshaking, PacketSide::Server) => match id {
            0x00 => Some(
                PacketInfo { id: 0x00, name: "Handshake", side: PacketSide::Server, state: PacketState::Handshaking },
            ),
            _ => None,
        },
        (PacketState::Status, PacketSide::Client) => match id {
            0x00 => Some(
                PacketInfo { id: 0x00, name: "StatusResponse", side: PacketSide::Client, state: PacketState::Status },
            ),
            0x01 => Some(
                PacketInfo { id: 0x01, name: "PingStatus", side: PacketSide::Client, state: PacketState::Status },
            ),
            _ => None,
        },
        (PacketState::Status, PacketSide::Server) => match id {
            0x00 => Some(
                PacketInfo { id: 0x00, name: "StatusRequest", side: PacketSide::Server, state: PacketState::Status },
            ),
            0x01 => Some(
                PacketInfo { id: 0x01, name: "PongStatus", side: PacketSide::Server, state: PacketState::Status },
            ),
            _ => None,
        },
        (PacketState::Login, PacketSide::Client) => match id {
            0x00 => Some(
                PacketInfo { id: 0x00, name: "DisconnectLogin", side: PacketSide::Client, state: PacketState::Login },
            ),
            0x01 => Some(
                PacketInfo { id: 0x01, name: "EncryptionRequest", side: PacketSide::Client, state: PacketState::Login },
            ),
            0x02 => Some(
                PacketInfo { id: 0x02, name: "LoginSuccess", side: PacketSide::Client, state: PacketState::Login },
            ),
            0x03 => Some(
                PacketInfo { id: 0x03, name: "SetCompression", side: PacketSide::Client, state: PacketState::Login },
            ),
            0x04 => Some(
                PacketInfo { id: 0x04, name: "LoginPluginRequest", side: PacketSide::Client, state: PacketState::Login },
            ),
            0x05 => Some(
                PacketInfo { id: 0x05, name: "CookieRequestLogin", side: PacketSide::Client, state: PacketState::Login },
            ),
            _ => None,
        },
        (PacketState::Login, PacketSide::Server) => match id {
            0x00 => Some(
                PacketInfo { id: 0x00, name: "LoginStart", side: PacketSide::Server, state: PacketState::Login },
            ),
            0x01 => Some(
                PacketInfo { id: 0x01, name: "EncryptionResponse", side: PacketSide::Server, state: PacketState::Login },
            ),
            0x02 => Some(
                PacketInfo { id: 0x02, name: "LoginPluginResponse", side: PacketSide::Server, state: PacketState::Login },
            ),
            0x03 => Some(
                PacketInfo { id: 0x03, name: "LoginAcknowledged", side: PacketSide::Server, state: PacketState::Login },
            ),
            0x04 => Some(
                PacketInfo { id: 0x04, name: "CookieResponseLogin", side: PacketSide::Server, state: PacketState::Login },
            ),
            _ => None,
        },
        (PacketState::Configuration, PacketSide::Client) => match id {
            0x00 => Some(
                PacketInfo { id: 0x00, name: "CookieRequest", side: PacketSide::Client, state: PacketState::Configuration },
            ),
            0x01 => Some(
                PacketInfo { id: 0x01, name: "ClientPluginMessageConfiguration", side: PacketSide::Client, state: PacketState::Configuration },
            ),
            0x02 => Some(
                PacketInfo { id: 0x02, name: "DisconnectConfiguration", side: PacketSide::Client, state: PacketState::Configuration },
            ),
            0x03 => Some(
                PacketInfo { id: 0x03, name: "FinishConfiguration", side: PacketSide::Client, state: PacketState::Configuration },
            ),
            0x04 => Some(
                PacketInfo { id: 0x04, name: "KeepAliveClientConfiguration", side: PacketSide::Client, state: PacketState::Configuration },
            ),
            0x05 => Some(
                PacketInfo { id: 0x05, name: "PingConfiguration", side: PacketSide::Client, state: PacketState::Configuration },
            ),
            0x06 => Some(
                PacketInfo { id: 0x06, name: "ResetChat", side: PacketSide::Client, state: PacketState::Configuration },
            ),
            0x07 => Some(
                PacketInfo { id: 0x07, name: "RegistryData", side: PacketSide::Client, state: PacketState::Configuration },
            ),
            0x08 => Some(
                PacketInfo { id: 0x08, name: "RemoveResourcePackConfiguration", side: PacketSide::Client, state: PacketState::Configuration },
            ),
            0x09 => Some(
                PacketInfo { id: 0x09, name: "AddResourcePackConfiguration", side: PacketSide::Client, state: PacketState::Configuration },
            ),
            0x0a => Some(
                PacketInfo { id: 0x0a, name: "StoreCookieConfiguration", side: PacketSide::Client, state: PacketState::Configuration },
            ),
            0x0b => Some(
                PacketInfo { id: 0x0b, name: "TransferConfiguration", side: PacketSide::Client, state: PacketState::Configuration },
            ),
            0x0c => Some(
                PacketInfo { id: 0x0c, name: "FeatureFlags", side: PacketSide::Client, state: PacketState::Configuration },
            ),
            0x0d => Some(
                PacketInfo { id: 0x0d, name: "UpdateTagsConfiguration", side: PacketSide::Client, state: PacketState::Configuration },
            ),
            _ => None,
        },
        (PacketState::Configuration, PacketSide::Server) => match id {
            0x00 => Some(
                PacketInfo { id: 0x00, name: "ClientInformationConfiguration", side: PacketSide::Server, state: PacketState::Configuration },
            ),
            0x01 => Some(
                PacketInfo { id: 0x01, name: "CookieResponseConfiguration", side: PacketSide::Server, state: PacketState::Configuration },
            ),
            0x02 => Some(
                PacketInfo { id: 0x02, name: "ServerPluginMessageConfiguration", side: PacketSide::Server, state: PacketState::Configuration },
            ),
            0x03 => Some(
                PacketInfo { id: 0x03, name: "AcknowledgeFinishConfiguration", side: PacketSide::Server, state: PacketState::Configuration },
            ),
            0x04 => Some(
                PacketInfo { id: 0x04, name: "ServerKeepAliveConfiguration", side: PacketSide::Server, state: PacketState::Configuration },
            ),
            0x05 => Some(
                PacketInfo { id: 0x05, name: "PongConfiguration", side: PacketSide::Server, state: PacketState::Configuration },
            ),
            0x06 => Some(
                PacketInfo { id: 0x06, name: "ResourcePackResponseConfiguration", side: PacketSide::Server, state: PacketState::Configuration },
            ),
            0x07 => Some(
                PacketInfo { id: 0x07, name: "ServerKnownPacks", side: PacketSide::Server, state: PacketState::Configuration },
            ),
            _ => None,
        },
        (PacketState::Play, PacketSide::Client) => match id {
            0x24 => Some(
                PacketInfo { id: 0x24, name: "ClientKeepAlivePlay", side: PacketSide::Client, state: PacketState::Play },
            ),
            0x25 => Some(
                PacketInfo { id: 0x25, name: "ChunkDataAndUpdateLight", side: PacketSide::Client, state: PacketState::Play },
            ),
            0x29 => Some(
                PacketInfo { id: 0x29, name: "LoginPlay", side: PacketSide::Client, state: PacketState::Play },
            ),
            0x3e => Some(
                PacketInfo { id: 0x3e, name: "SynchronizePlayerPosition", side: PacketSide::Client, state: PacketState::Play },
            ),
            _ => None,
        },
        (PacketState::Play, PacketSide::Server) => match id {
            0x00 => Some(
                PacketInfo { id: 0x00, name: "ConfirmTeleport", side: PacketSide::Server, state: PacketState::Play },
            ),
            0x15 => Some(
                PacketInfo { id: 0x15, name: "ServerKeepAlivePlay", side: PacketSide::Server, state: PacketState::Play },
            ),
            _ => None,
        },
    }
}

} // verus!
