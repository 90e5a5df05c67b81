use bytes::BytesMut;
use protocol::packets::{
    ChatMode, ChunkDataAndUpdateLight, ClientInformationConfiguration, EncryptionRequest, Hand,
    Handshake, HandshakeNextState, KnownPack, LoginPlay, LoginPluginResponse, LoginStart,
    LoginSuccess, PingStatus, Property, RegistryData, ResourcePackResponseConfiguration,
    ResourcePackResponseConfigurationResult, ServerKnownPacks, StatusRequest,
    StoreCookieConfiguration, SynchronizePlayerPosition, Tag, TagArray, UpdateTagsConfiguration,
    PROTOCOL_VERSION,
};
use protocol::schema::{find, info, PacketInfo};
use protocol::{
    decode_packet, encode_with_id, Bounded, Compound, Decode, DecodeError, Encode, EncodeError,
    Float32, Float64, FrameError, LenPrefixed, Packet, PacketDecoder, PacketEncoder, PacketFrame,
    PacketSide, PacketState, Position, RawBytes, Uuid, VarInt, MAX_DATA_LEN, MAX_PACKET_SIZE, NBT,
};

#[test]
fn macros_packet_metadata() {
    assert_eq!(Handshake::ID, 0x00);
    assert_eq!(Handshake::NAME, "Handshake");
    assert_eq!(Handshake::SIDE, PacketSide::Server);
    assert_eq!(Handshake::STATE, PacketState::Handshaking);
}

#[test]
fn mod_packet_metadata() {
    assert_eq!(<Handshake as Packet>::ID, 0x00);
    assert_eq!(<Handshake as Packet>::NAME, "Handshake");
    assert_eq!(<Handshake as Packet>::SIDE, PacketSide::Client.opposite());
    assert_eq!(<Handshake as Packet>::STATE, PacketState::Handshaking);
    assert_eq!(<Handshake as Packet>::STATE.name(), "Handshaking");
}

#[test]
fn macros_packet_data() {
    let packet = Handshake {
        protocol_version: VarInt(1),
        host: "localhost",
        port: 25565,
        next: 1,
    };

    assert_eq!(packet.protocol_version, VarInt(1));
}

#[test]
fn mod_packet_data() {
    let host = "localhost".to_owned();
    let packet = Handshake {
        protocol_version: VarInt(1),
        host: &host,
        port: 25565,
        next: 1,
    };

    assert_eq!(packet.protocol_version.0, 1);
    assert_eq!(packet.host, "localhost");
    assert_eq!(packet.port, 25565);
    assert_eq!(packet.next, 1);
}

fn handshake() -> Handshake<'static> {
    Handshake {
        protocol_version: VarInt(767),
        host: "localhost",
        port: 25565,
        next: 2,
    }
}

const HANDSHAKE_FRAME: [u8; 17] = [
    0x10, 0x00, 0xFF, 0x05, 0x09, b'l', b'o', b'c', b'a', b'l', b'h', b'o', b's', b't', 0x63,
    0xDD, 0x02,
];

#[test]
fn handshake_frame_is_exact() {
    let mut encoder = PacketEncoder::new();
    encoder.append_packet(&handshake()).unwrap();
    assert_eq!(&encoder.take()[..], &HANDSHAKE_FRAME[..]);
    assert!(encoder.take().is_empty());
}

#[test]
fn handshake_with_id_has_no_length() {
    let mut buf = BytesMut::new();
    encode_with_id(&handshake(), &mut buf).unwrap();
    assert_eq!(&buf[..], &HANDSHAKE_FRAME[1..]);
}

#[test]
fn frame_split_over_two_pieces() {
    let mut decoder = PacketDecoder::new();
    decoder.queue_slice(&HANDSHAKE_FRAME[..7]);
    assert!(decoder.try_next_packet().unwrap().is_none());
    assert_eq!(decoder.buf.len(), 7);
    decoder.queue_slice(&HANDSHAKE_FRAME[7..]);
    let frame = decoder.try_next_packet().unwrap().unwrap();
    assert_eq!(frame.id, 0x00);
    assert_eq!(&frame.body[..], &HANDSHAKE_FRAME[2..]);
    assert!(decoder.buf.is_empty());
    assert!(decoder.try_next_packet().unwrap().is_none());
    let packet: Handshake = frame.decode().unwrap();
    assert_eq!(packet, handshake());
}

#[test]
fn frame_id_mismatch_is_reported() {
    let mut decoder = PacketDecoder::new();
    decoder.queue_slice(&[0x03, 0x07, 0x01, 0x02]);
    let frame = decoder.try_next_packet().unwrap().unwrap();
    assert_eq!(frame.id, 7);
    let r: Result<Handshake, FrameError> = frame.decode();
    assert_eq!(r, Err(FrameError::IdMismatch { packet: "Handshake", expected: 0, got: 7 }));
}

#[test]
fn oversized_frame_fails_at_once() {
    let mut decoder = PacketDecoder::new();
    // 2,097,153 as a length, and not one byte of the frame
    decoder.queue_slice(&[0x81, 0x80, 0x80, 0x01]);
    assert_eq!(decoder.try_next_packet().unwrap_err(), DecodeError::SizeExceeded);
    assert_eq!(decoder.buf.len(), 4);
}

#[test]
fn largest_length_waits_for_its_frame() {
    let mut decoder = PacketDecoder::new();
    // 2,097,152
    decoder.queue_slice(&[0x80, 0x80, 0x80, 0x01, 0x00]);
    assert!(decoder.try_next_packet().unwrap().is_none());
    assert_eq!(decoder.buf.len(), 5);
}

#[test]
fn malformed_lengths_are_fatal() {
    let mut decoder = PacketDecoder::new();
    decoder.queue_slice(&[0x80, 0x80, 0x80, 0x80, 0x80, 0x01]);
    assert_eq!(decoder.try_next_packet().unwrap_err(), DecodeError::VarNumTooLarge);
    assert_eq!(decoder.buf.len(), 6);

    let mut decoder = PacketDecoder::new();
    decoder.queue_slice(&[0xFF, 0xFF, 0xFF, 0xFF, 0x0F]);
    assert_eq!(decoder.try_next_packet().unwrap_err(), DecodeError::NegativeLength);
    assert_eq!(decoder.buf.len(), 5);
}

#[test]
fn incomplete_length_is_no_frame_yet() {
    let mut decoder = PacketDecoder::new();
    assert!(decoder.try_next_packet().unwrap().is_none());
    decoder.queue_slice(&[0x80]);
    assert!(decoder.try_next_packet().unwrap().is_none());
    decoder.queue_slice(&[0x80]);
    assert!(decoder.try_next_packet().unwrap().is_none());
    assert_eq!(decoder.buf.len(), 2);
}

#[test]
fn frame_without_an_id_is_dropped() {
    let mut decoder = PacketDecoder::new();
    decoder.queue_slice(&[0x00, 0x01, 0x05]);
    assert_eq!(decoder.try_next_packet().unwrap_err(), DecodeError::UnexpectedEof);
    assert_eq!(&decoder.buf[..], &[0x01, 0x05]);
    let frame = decoder.try_next_packet().unwrap().unwrap();
    assert_eq!(frame.id, 5);
    assert!(frame.body.is_empty());
}

#[test]
fn frames_come_out_in_order() {
    let mut encoder = PacketEncoder::new();
    encoder.append_packet(&PingStatus { payload: 1 }).unwrap();
    encoder.append_packet(&StatusRequest {}).unwrap();
    encoder.append_packet(&PingStatus { payload: -2 }).unwrap();
    let bytes = encoder.take();
    assert_eq!(
        &bytes[..],
        &[
            9, 1, 0, 0, 0, 0, 0, 0, 0, 1, 1, 0, 9, 1, 0xFF, 0xFF, 0xFF, 0xFF, 0xFF, 0xFF, 0xFF,
            0xFE
        ]
    );
    let mut decoder = PacketDecoder::new();
    decoder.queue_bytes(bytes);
    let a = decoder.try_next_packet().unwrap().unwrap();
    let b = decoder.try_next_packet().unwrap().unwrap();
    let c = decoder.try_next_packet().unwrap().unwrap();
    assert!(decoder.try_next_packet().unwrap().is_none());
    assert_eq!(a.decode::<PingStatus>().unwrap(), PingStatus { payload: 1 });
    assert_eq!(b.decode::<StatusRequest>().unwrap(), StatusRequest {});
    assert_eq!(c.decode::<PingStatus>().unwrap(), PingStatus { payload: -2 });
    assert_eq!(b.id, 0);
    let copy = c.clone();
    assert_eq!(copy.id, 1);
    assert_eq!(copy.body, c.body);
}

#[test]
fn every_cut_of_a_frame_is_no_frame_yet() {
    for cut in 0..HANDSHAKE_FRAME.len() {
        let mut decoder = PacketDecoder::new();
        decoder.queue_slice(&HANDSHAKE_FRAME[..cut]);
        assert!(decoder.try_next_packet().unwrap().is_none());
        decoder.queue_slice(&HANDSHAKE_FRAME[cut..]);
        let frame = decoder.try_next_packet().unwrap().unwrap();
        assert_eq!(frame.decode::<Handshake>().unwrap(), handshake());
    }
}

#[test]
fn bytes_left_over_are_an_error() {
    let r: Result<PingStatus, FrameError> = decode_packet(1, &[0, 0, 0, 0, 0, 0, 0, 5, 9, 9]);
    assert_eq!(r, Err(FrameError::TrailingBytes { packet: "PingStatus", missed: 2 }));
    let r: Result<PingStatus, FrameError> = decode_packet(1, &[0, 0, 0, 0, 0, 0, 0]);
    assert_eq!(r, Err(FrameError::Malformed { packet: "PingStatus", error: DecodeError::UnexpectedEof }));
    let r: Result<PingStatus, FrameError> = decode_packet(1, &[0, 0, 0, 0, 0, 0, 0, 5]);
    assert_eq!(r, Ok(PingStatus { payload: 5 }));
    let r: Result<StatusRequest, FrameError> = decode_packet(0, &[1]);
    assert_eq!(r, Err(FrameError::TrailingBytes { packet: "StatusRequest", missed: 1 }));
}

#[test]
fn packet_too_large_for_a_frame_changes_nothing() {
    let big = vec![0u8; 2097152];
    let pkt = StoreCookieConfiguration { key: "k", payload: RawBytes(&big) };
    let mut encoder = PacketEncoder::new();
    encoder.append_packet(&StatusRequest {}).unwrap();
    assert_eq!(encoder.append_packet(&pkt), Err(EncodeError::SizeExceeded));
    assert_eq!(&encoder.take()[..], &[1, 0]);

    // id, key and payload together take exactly 2,097,152 bytes
    let fits = StoreCookieConfiguration { key: "k", payload: RawBytes(&big[..2097149]) };
    encoder.append_packet(&fits).unwrap();
    let bytes = encoder.take();
    assert_eq!(bytes.len(), 4 + 2097152);
    assert_eq!(&bytes[..7], &[0x80, 0x80, 0x80, 0x01, 0x0a, 1, b'k']);
    let mut decoder = PacketDecoder::new();
    decoder.queue_bytes(bytes);
    let frame = decoder.try_next_packet().unwrap().unwrap();
    assert_eq!(frame.decode::<StoreCookieConfiguration>().unwrap(), fits);
}

#[test]
fn packet_with_a_field_over_its_bound_changes_nothing() {
    let pkt = LoginStart { name: Bounded("seventeen_letters"), uuid: Uuid(0) };
    let mut encoder = PacketEncoder::new();
    encoder.append_packet(&StatusRequest {}).unwrap();
    assert_eq!(encoder.append_packet(&pkt), Err(EncodeError::SizeExceeded));
    assert_eq!(&encoder.take()[..], &[1, 0]);
}

fn through_the_stream<'a, P>(pkt: &P, frame: &'a mut Option<PacketFrame>) -> P
where
    P: Packet + Encode + Decode<'a>,
{
    let mut encoder = PacketEncoder::new();
    encoder.append_packet(pkt).unwrap();
    let mut decoder = PacketDecoder::new();
    decoder.queue_bytes(encoder.take());
    *frame = decoder.try_next_packet().unwrap();
    assert!(decoder.buf.is_empty());
    let frame = frame.as_ref().unwrap();
    assert_eq!(frame.id, P::ID);
    frame.decode::<P>().unwrap()
}

#[test]
fn packets_round_trip() {
    let mut f = None;
    let p = LoginStart { name: Bounded("Rust"), uuid: Uuid::from_u128(7) };
    assert_eq!(through_the_stream(&p, &mut f), p);

    let mut f = None;
    let p = EncryptionRequest {
        server_id: Bounded(""),
        public_key: LenPrefixed(vec![1, 2, 3]),
        verify_token: LenPrefixed(vec![4]),
        should_authenticate: true,
    };
    assert_eq!(through_the_stream(&p, &mut f), p);

    let mut f = None;
    let p = LoginSuccess {
        uuid: Uuid(u128::MAX),
        username: "Rust",
        properties: LenPrefixed(vec![
            Property { name: "a".to_owned(), value: "b".to_owned(), signature: None },
            Property {
                name: "c".to_owned(),
                value: "d".to_owned(),
                signature: Some("e".to_owned()),
            },
        ]),
        strict_error_handing: false,
    };
    assert_eq!(through_the_stream(&p, &mut f), p);

    let mut f = None;
    let p = LoginPluginResponse {
        message_id: VarInt(300),
        successful: true,
        data: Some(Bounded(RawBytes(&[1, 2, 3]))),
    };
    assert_eq!(through_the_stream(&p, &mut f), p);

    let mut f = None;
    let p = LoginPluginResponse { message_id: VarInt(0), successful: false, data: None };
    assert_eq!(through_the_stream(&p, &mut f), p);

    let mut f = None;
    let p = ClientInformationConfiguration {
        locale: Bounded("en_GB"),
        view_distance: 12,
        chat_mode: ChatMode::Hidden,
        chat_colors: true,
        displayed_skin_parts: 0x7F,
        main_hand: Hand::Right,
        enable_text_filtering: false,
        allow_server_listings: true,
    };
    assert_eq!(through_the_stream(&p, &mut f), p);

    let mut f = None;
    let p = ServerKnownPacks {
        count: VarInt(1),
        known_packs: vec![KnownPack { namespace: "minecraft", id: "core", version: "1.21" }],
    };
    assert_eq!(through_the_stream(&p, &mut f), p);

    let mut f = None;
    let p = UpdateTagsConfiguration {
        tags: LenPrefixed(vec![TagArray {
            identifier: "minecraft:block".to_owned(),
            tags: LenPrefixed(vec![Tag {
                identifier: "minecraft:logs".to_owned(),
                ids: LenPrefixed(vec![VarInt(1), VarInt(300)]),
            }]),
        }]),
    };
    assert_eq!(through_the_stream(&p, &mut f), p);

    let mut f = None;
    let p = SynchronizePlayerPosition {
        x: Float64(1.5f64.to_bits()),
        y: Float64(64.0f64.to_bits()),
        z: Float64((-3.25f64).to_bits()),
        yaw: Float32(90.0f32.to_bits()),
        pitch: Float32(0),
        flags: 0x1F,
        teleport_id: VarInt(-1),
    };
    assert_eq!(through_the_stream(&p, &mut f), p);

    let mut f = None;
    let p = ResourcePackResponseConfiguration {
        uuid: Uuid(1),
        result: ResourcePackResponseConfigurationResult::Discarded,
    };
    assert_eq!(through_the_stream(&p, &mut f), p);
}

#[test]
fn packets_with_tags_round_trip() {
    let mut heightmaps = Compound::new();
    heightmaps.insert("MOTION_BLOCKING".to_owned(), NBT::LongArray(vec![1, 2, 3]));
    let mut f = None;
    let p = ChunkDataAndUpdateLight {
        chunk_x: -1,
        chunk_z: 2,
        heightmaps: NBT::Compound(heightmaps),
        data: LenPrefixed(vec![1, 2, 3, 4]),
        block_entities: LenPrefixed(vec![(1, 2, VarInt(3), NBT::End())]),
        sky_light_mask: LenPrefixed(vec![1]),
        block_light_mask: LenPrefixed(vec![]),
        empty_sky_light_mask: LenPrefixed(vec![-1]),
        empty_block_light_mask: LenPrefixed(vec![0, 1]),
        sky_lights: LenPrefixed(vec![LenPrefixed(vec![0; 4])]),
        block_lights: LenPrefixed(vec![]),
    };
    assert_eq!(through_the_stream(&p, &mut f), p);

    let mut f = None;
    let p = LoginPlay {
        id: 1,
        is_hardcore: false,
        dimensions: LenPrefixed(vec!["minecraft:overworld".to_owned()]),
        max_players: VarInt(20),
        view_distance: VarInt(10),
        simulation_distance: VarInt(10),
        reduced_debug_info: false,
        enable_respawn_screen: true,
        do_limited_craftingn: false,
        dimension_type: "minecraft:overworld",
        dimension_name: "minecraft:overworld",
        hashed_seed: -42,
        gamemode: 1,
        previous_gamemode: -1,
        is_debug: false,
        is_flat: true,
        death_location: Some(("minecraft:the_nether".to_owned(), Position { x: 1, y: 2, z: 3 })),
    };
    assert_eq!(through_the_stream(&p, &mut f), p);

    let mut f = None;
    let p = RegistryData { registry_codec: NBT::Compound(Compound::new()) };
    assert_eq!(through_the_stream(&p, &mut f), p);
}

#[test]
fn enums_travel_as_their_place() {
    let mut buf = BytesMut::new();
    ChatMode::Enabled.encode(&mut buf).unwrap();
    ChatMode::CommandOnly.encode(&mut buf).unwrap();
    Hand::Right.encode(&mut buf).unwrap();
    HandshakeNextState::Login.encode(&mut buf).unwrap();
    ResourcePackResponseConfigurationResult::InvalidURL.encode(&mut buf).unwrap();
    assert_eq!(&buf[..], &[0, 1, 1, 1, 5]);
    let mut rdr = &buf[..];
    assert_eq!(ChatMode::decode(&mut rdr).unwrap(), ChatMode::Enabled);
    assert_eq!(ChatMode::decode(&mut rdr).unwrap(), ChatMode::CommandOnly);
    assert_eq!(Hand::decode(&mut rdr).unwrap(), Hand::Right);
    assert_eq!(HandshakeNextState::decode(&mut rdr).unwrap(), HandshakeNextState::Login);
    assert_eq!(
        ResourcePackResponseConfigurationResult::decode(&mut rdr).unwrap(),
        ResourcePackResponseConfigurationResult::InvalidURL
    );
    let mut rdr: &[u8] = &[3];
    assert_eq!(ChatMode::decode(&mut rdr), Err(DecodeError::UnknownVariant));
    assert_eq!(rdr.len(), 1);
    let mut rdr: &[u8] = &[2];
    assert_eq!(Hand::decode(&mut rdr), Err(DecodeError::UnknownVariant));
    let mut rdr: &[u8] = &[0xFF, 0xFF, 0xFF, 0xFF, 0x0F];
    assert_eq!(HandshakeNextState::decode(&mut rdr), Err(DecodeError::UnknownVariant));
    let mut rdr: &[u8] = &[8];
    assert_eq!(
        ResourcePackResponseConfigurationResult::decode(&mut rdr),
        Err(DecodeError::UnknownVariant)
    );
}

#[test]
fn table_finds_packets_by_phase_side_and_id() {
    assert_eq!(PROTOCOL_VERSION, 767);
    assert_eq!(
        find(PacketState::Handshaking, PacketSide::Server, 0),
        Some(info::<Handshake>())
    );
    assert_eq!(find(PacketState::Handshaking, PacketSide::Client, 0), None);
    assert_eq!(find(PacketState::Status, PacketSide::Client, 1).unwrap().name, "PingStatus");
    assert_eq!(find(PacketState::Status, PacketSide::Server, 1).unwrap().name, "PongStatus");
    assert_eq!(
        find(PacketState::Play, PacketSide::Client, 0x3e),
        Some(info::<SynchronizePlayerPosition>())
    );
    assert_eq!(
        find(PacketState::Configuration, PacketSide::Server, 7),
        Some(PacketInfo {
            id: 7,
            name: "ServerKnownPacks",
            side: PacketSide::Server,
            state: PacketState::Configuration
        })
    );
    assert_eq!(find(PacketState::Play, PacketSide::Server, 1), None);
    assert_eq!(find(PacketState::Login, PacketSide::Client, 6), None);
    assert_eq!(find(PacketState::Login, PacketSide::Client, -1), None);
    let mut found = 0;
    for state in [
        PacketState::Handshaking,
        PacketState::Status,
        PacketState::Login,
        PacketState::Configuration,
        PacketState::Play,
    ] {
        for side in [PacketSide::Client, PacketSide::Server] {
            for id in 0..0x40 {
                if let Some(entry) = find(state, side, id) {
                    assert_eq!((entry.state, entry.side, entry.id), (state, side, id));
                    found += 1;
                }
            }
        }
    }
    assert_eq!(found, 44);
}

#[test]
fn phases_have_names() {
    assert_eq!(PacketState::Handshaking.name(), "Handshaking");
    assert_eq!(PacketState::Status.name(), "Status");
    assert_eq!(PacketState::Login.name(), "Login");
    assert_eq!(PacketState::Configuration.name(), "Configuration");
    assert_eq!(PacketState::Play.name(), "Play");
    assert_eq!(PacketSide::Client.opposite(), PacketSide::Server);
    assert_eq!(PacketSide::Server.opposite(), PacketSide::Client);
    assert_eq!(MAX_PACKET_SIZE, 2097152);
    assert_eq!(MAX_DATA_LEN, 1048576);
}
