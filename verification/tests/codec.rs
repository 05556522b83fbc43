use bincode::Options;
use bytes::BytesMut;
use jkmp_server::chat::ChatChannel;
use jkmp_server::codec::{CodecError, MessagesCodec};
use jkmp_server::encoding::{get_varint_le, put_varint_le, VarintError};
use jkmp_server::math::Vector2;
use jkmp_server::messages::{
    HandshakeRequest, HandshakeResponse, IncomingChatMessage, InformNearbyClients, Message,
    OutgoingChatMessage, PositionUpdate, ServerStatusUpdate, SetMatchmakingPassword,
};
use jkmp_server::payload::{deserialize, serialize};

fn reference_bytes<T: serde::Serialize>(value: &T) -> Vec<u8> {
    bincode::DefaultOptions::new()
        .with_little_endian()
        .with_limit(4096)
        .with_varint_encoding()
        .serialize(value)
        .unwrap()
}

fn position(x: f32, y: f32) -> Vector2 {
    Vector2 { x: x.to_bits(), y: y.to_bits() }
}

#[test]
fn varint_single_byte() {
    let mut buf = BytesMut::new();
    put_varint_le(&mut buf, 250);
    assert_eq!(&buf[..], &[250u8][..]);
    assert_eq!(get_varint_le(&mut buf), Ok(250));
    assert!(buf.is_empty());
}

#[test]
fn varint_two_bytes() {
    let mut buf = BytesMut::new();
    put_varint_le(&mut buf, 251);
    assert_eq!(&buf[..], &[251u8, 251, 0][..]);
    assert_eq!(get_varint_le(&mut buf), Ok(251));
    let mut buf = BytesMut::new();
    put_varint_le(&mut buf, 0xffff);
    assert_eq!(&buf[..], &[251u8, 0xff, 0xff][..]);
    assert_eq!(get_varint_le(&mut buf), Ok(0xffff));
}

#[test]
fn varint_four_bytes() {
    let mut buf = BytesMut::new();
    put_varint_le(&mut buf, 0x1_0000);
    assert_eq!(&buf[..], &[252u8, 0, 0, 1, 0][..]);
    assert_eq!(get_varint_le(&mut buf), Ok(0x1_0000));
    let mut buf = BytesMut::new();
    put_varint_le(&mut buf, 0x0809_a0a1);
    assert_eq!(&buf[..], &[252u8, 0xa1, 0xa0, 0x09, 0x08][..]);
    assert_eq!(get_varint_le(&mut buf), Ok(0x0809_a0a1));
}

#[test]
fn varint_eight_bytes() {
    let mut buf = BytesMut::new();
    put_varint_le(&mut buf, 0x1_0000_0000);
    assert_eq!(&buf[..], &[253u8, 0, 0, 0, 0, 1, 0, 0, 0][..]);
    assert_eq!(get_varint_le(&mut buf), Ok(0x1_0000_0000));
    let mut buf = BytesMut::new();
    put_varint_le(&mut buf, u64::MAX);
    assert_eq!(get_varint_le(&mut buf), Ok(u64::MAX));
    assert!(buf.is_empty());
}

#[test]
fn varint_roundtrip_on_boundaries() {
    let values: Vec<u64> = vec![
        0, 1, 249, 250, 251, 255, 256, 65534, 65535, 65536, 0xffff_fffe, 0xffff_ffff,
        0x1_0000_0000, u64::MAX - 1, u64::MAX,
    ];
    for value in values {
        let mut buf = BytesMut::new();
        put_varint_le(&mut buf, value);
        assert_eq!(&buf[..], &reference_bytes(&value)[..]);
        buf.extend_from_slice(&[7, 7]);
        assert_eq!(get_varint_le(&mut buf), Ok(value));
        assert_eq!(&buf[..], &[7u8, 7][..]);
    }
}

#[test]
fn varint_rejects_other_discriminants() {
    let mut buf = BytesMut::from(&[254u8, 1, 2, 3][..]);
    assert_eq!(get_varint_le(&mut buf), Err(VarintError::InvalidDiscriminant(254)));
    assert_eq!(&buf[..], &[1u8, 2, 3][..]);
    let mut buf = BytesMut::from(&[255u8][..]);
    assert_eq!(get_varint_le(&mut buf), Err(VarintError::InvalidDiscriminant(255)));
}

#[test]
fn varint_short_buffer_is_left_alone() {
    let mut buf = BytesMut::new();
    assert_eq!(get_varint_le(&mut buf), Err(VarintError::UnexpectedEnd));
    let mut buf = BytesMut::from(&[251u8, 1][..]);
    assert_eq!(get_varint_le(&mut buf), Err(VarintError::UnexpectedEnd));
    assert_eq!(&buf[..], &[251u8, 1][..]);
    let mut buf = BytesMut::from(&[253u8, 1, 2, 3, 4, 5, 6, 7][..]);
    assert_eq!(get_varint_le(&mut buf), Err(VarintError::UnexpectedEnd));
    assert_eq!(buf.len(), 8);
}

#[test]
fn varint_accepts_wider_forms_of_small_values() {
    let mut buf = BytesMut::from(&[251u8, 5, 0][..]);
    assert_eq!(get_varint_le(&mut buf), Ok(5));
    let mut buf = BytesMut::from(&[253u8, 5, 0, 0, 0, 0, 0, 0, 0][..]);
    assert_eq!(get_varint_le(&mut buf), Ok(5));
}

fn sample_messages() -> Vec<Message> {
    vec![
        Message::HandshakeRequest(HandshakeRequest {
            auth_session_ticket: b"ticket".to_vec(),
            matchmaking_password: None,
            level_name: "game".to_string(),
            position: position(0.0, 0.0),
            version: 2,
        }),
        Message::HandshakeRequest(HandshakeRequest {
            auth_session_ticket: vec![0u8; 300],
            matchmaking_password: Some("s\u{e9}cret \u{1f600}".to_string()),
            level_name: "level1".to_string(),
            position: position(12.5, -1079.0),
            version: 70000,
        }),
        Message::HandshakeResponse(HandshakeResponse { success: true, error_message: None }),
        Message::HandshakeResponse(HandshakeResponse {
            success: false,
            error_message: Some("Your version is outdated".to_string()),
        }),
        Message::PositionUpdate(PositionUpdate { position: position(-3.25, 1e9) }),
        Message::SetMatchmakingPassword(SetMatchmakingPassword { password: None }),
        Message::SetMatchmakingPassword(SetMatchmakingPassword {
            password: Some(String::new()),
        }),
        Message::InformNearbyClients(InformNearbyClients { client_ids: vec![] }),
        Message::InformNearbyClients(InformNearbyClients {
            client_ids: vec![1, 250, 251, 76561198000000000, u64::MAX],
        }),
        Message::IncomingChatMessage(IncomingChatMessage {
            channel: ChatChannel::Group,
            message: "  hi  ".to_string(),
        }),
        Message::IncomingChatMessage(IncomingChatMessage {
            channel: ChatChannel::Local,
            message: String::new(),
        }),
        Message::OutgoingChatMessage(OutgoingChatMessage {
            channel: ChatChannel::Global,
            sender_id: None,
            sender_name: None,
            message: "Welcome! There are currently no other players online.".to_string(),
        }),
        Message::OutgoingChatMessage(OutgoingChatMessage {
            channel: ChatChannel::Group,
            sender_id: Some(76561198000000000),
            sender_name: Some("Gamer ID #1".to_string()),
            message: "hi".to_string(),
        }),
        Message::ServerStatusUpdate(ServerStatusUpdate { total_players: 1, group_players: 1 }),
        Message::ServerStatusUpdate(ServerStatusUpdate {
            total_players: 100000,
            group_players: 251,
        }),
    ]
}

fn channel_index(channel: ChatChannel) -> u32 {
    match channel {
        ChatChannel::Global => 0,
        ChatChannel::Group => 1,
        ChatChannel::Local => 2,
    }
}

/// The bytes that the serialisation library writes for a message whose
/// variants and fields are declared in the order of the protocol: a variant
/// is written as its index followed by its fields.
fn reference_payload(message: &Message) -> Vec<u8> {
    match message {
        Message::HandshakeRequest(m) => reference_bytes(&(
            0u32,
            &m.auth_session_ticket,
            &m.matchmaking_password,
            &m.level_name,
            (f32::from_bits(m.position.x), f32::from_bits(m.position.y)),
            m.version,
        )),
        Message::HandshakeResponse(m) => reference_bytes(&(1u32, m.success, &m.error_message)),
        Message::PositionUpdate(m) => reference_bytes(&(
            2u32,
            (f32::from_bits(m.position.x), f32::from_bits(m.position.y)),
        )),
        Message::SetMatchmakingPassword(m) => reference_bytes(&(3u32, &m.password)),
        Message::InformNearbyClients(m) => reference_bytes(&(4u32, &m.client_ids)),
        Message::IncomingChatMessage(m) => {
            reference_bytes(&(5u32, channel_index(m.channel), &m.message))
        }
        Message::OutgoingChatMessage(m) => reference_bytes(&(
            6u32,
            channel_index(m.channel),
            m.sender_id,
            &m.sender_name,
            &m.message,
        )),
        Message::ServerStatusUpdate(m) => {
            reference_bytes(&(7u32, m.total_players, m.group_players))
        }
    }
}

#[test]
fn payload_matches_the_serialisation_library() {
    for message in sample_messages() {
        assert_eq!(serialize(&message), reference_payload(&message), "{:?}", message);
    }
}

#[test]
fn payload_roundtrip() {
    for message in sample_messages() {
        let bytes = serialize(&message);
        assert_eq!(deserialize(&bytes), Some(message));
    }
}

#[test]
fn payload_exact_bytes_of_a_status_update() {
    let message =
        Message::ServerStatusUpdate(ServerStatusUpdate { total_players: 300, group_players: 2 });
    assert_eq!(serialize(&message), vec![7u8, 251, 0x2c, 0x01, 2]);
}

#[test]
fn payload_exact_bytes_of_a_position_update() {
    let message = Message::PositionUpdate(PositionUpdate { position: position(1.0, -2.0) });
    assert_eq!(serialize(&message), vec![2u8, 0, 0, 0x80, 0x3f, 0, 0, 0, 0xc0]);
}

#[test]
fn payload_rejects_trailing_bytes() {
    let message =
        Message::ServerStatusUpdate(ServerStatusUpdate { total_players: 1, group_players: 1 });
    let mut bytes = serialize(&message);
    bytes.push(0);
    assert_eq!(deserialize(&bytes), None);
}

#[test]
fn payload_rejects_truncation() {
    for message in sample_messages() {
        let bytes = serialize(&message);
        for cut in 0..bytes.len() {
            assert_eq!(deserialize(&bytes[..cut]), None, "{:?} cut at {}", message, cut);
        }
    }
}

#[test]
fn payload_rejects_unknown_selector_flag_channel_and_text() {
    assert_eq!(deserialize(&[8u8, 1, 1]), None);
    assert_eq!(deserialize(&[1u8, 2, 0]), None);
    assert_eq!(deserialize(&[3u8, 2]), None);
    assert_eq!(deserialize(&[5u8, 3, 0]), None);
    assert_eq!(deserialize(&[5u8, 0, 1, 0xff]), None);
    assert_eq!(deserialize(&[7u8, 253, 0, 0, 0, 0, 1, 0, 0, 0, 1]), None);
    assert_eq!(deserialize(&[4u8, 2, 1]), None);
    assert_eq!(deserialize(&[4u8, 253, 255, 255, 255, 255, 255, 255, 255, 255]), None);
}

#[test]
fn frame_roundtrip() {
    let mut codec = MessagesCodec::new();
    let mut buf = BytesMut::new();
    for message in sample_messages() {
        codec.encode(message, &mut buf).unwrap();
    }
    for message in sample_messages() {
        assert_eq!(codec.decode(&mut buf), Ok(Some(message)));
    }
    assert_eq!(codec.decode(&mut buf), Ok(None));
    assert!(buf.is_empty());
}

#[test]
fn frame_is_length_then_payload() {
    let mut codec = MessagesCodec::default();
    let mut buf = BytesMut::new();
    let message = Message::HandshakeRequest(HandshakeRequest {
        auth_session_ticket: vec![9u8; 300],
        matchmaking_password: None,
        level_name: "game".to_string(),
        position: position(0.0, 0.0),
        version: 2,
    });
    let payload = serialize(&message);
    assert_eq!(payload.len(), 1 + 3 + 300 + 1 + 5 + 8 + 1);
    codec.encode(message, &mut buf).unwrap();
    assert_eq!(&buf[..3], &[251u8, 0x3f, 0x01][..]);
    assert_eq!(&buf[3..], &payload[..]);
}

#[test]
fn frame_waits_for_the_length() {
    let mut codec = MessagesCodec::new();
    let mut buf = BytesMut::new();
    assert_eq!(codec.decode(&mut buf), Ok(None));
    let mut buf = BytesMut::from(&[251u8, 9][..]);
    assert_eq!(codec.decode(&mut buf), Ok(None));
    assert_eq!(&buf[..], &[251u8, 9][..]);
}

#[test]
fn frame_rejects_bad_discriminant() {
    let mut codec = MessagesCodec::new();
    let mut buf = BytesMut::from(&[254u8, 0, 0][..]);
    assert_eq!(codec.decode(&mut buf), Err(CodecError::InvalidDiscriminant(254)));
}

#[test]
fn frame_rejects_truncated_payload() {
    let mut codec = MessagesCodec::new();
    let mut buf = BytesMut::from(&[5u8, 7, 1, 1][..]);
    assert_eq!(
        codec.decode(&mut buf),
        Err(CodecError::LengthExceedsRemaining { length: 5, remaining: 3 })
    );
}

#[test]
fn frame_rejects_zero_length() {
    let mut codec = MessagesCodec::new();
    let mut buf = BytesMut::from(&[0u8, 7, 1, 1][..]);
    assert_eq!(codec.decode(&mut buf), Err(CodecError::ZeroLength));
}

#[test]
fn frame_rejects_malformed_payload() {
    let mut codec = MessagesCodec::new();
    let mut buf = BytesMut::from(&[3u8, 9, 1, 1][..]);
    assert_eq!(codec.decode(&mut buf), Err(CodecError::Malformed));
}

fn chat_of_len(len: usize) -> Message {
    Message::IncomingChatMessage(IncomingChatMessage {
        channel: ChatChannel::Global,
        message: "a".repeat(len),
    })
}

#[test]
fn frame_limit_is_4096_payload_bytes() {
    let mut codec = MessagesCodec::new();
    // selector, channel, three bytes of length, text
    let largest = chat_of_len(4096 - 5);
    assert_eq!(serialize(&largest).len(), 4096);
    let mut buf = BytesMut::new();
    assert_eq!(codec.encode(largest.clone(), &mut buf), Ok(()));
    assert_eq!(codec.decode(&mut buf), Ok(Some(largest)));

    let too_large = chat_of_len(4096 - 4);
    let mut buf = BytesMut::new();
    assert_eq!(codec.encode(too_large.clone(), &mut buf), Err(CodecError::TooLarge));
    assert!(buf.is_empty());

    let payload = serialize(&too_large);
    let mut buf = BytesMut::new();
    put_varint_le(&mut buf, payload.len() as u64);
    buf.extend_from_slice(&payload);
    assert_eq!(codec.decode(&mut buf), Err(CodecError::TooLarge));
}
