//! The body of a frame: one message as bytes.
//!
//! A message is the selector of its variant, a variable-length integer in
//! the order in which `Message` declares the variants, followed by the
//! fields of the variant in the order in which its struct declares them.

use vstd::prelude::*;

use crate::chat::ChatChannel;
use crate::math::Vector2;
use crate::messages::{
    HandshakeRequest, HandshakeRequestView, HandshakeResponse, HandshakeResponseView,
    IncomingChatMessage, IncomingChatMessageView, InformNearbyClients, Message, MessageView,
    OutgoingChatMessage, OutgoingChatMessageView, PositionUpdate, ServerStatusUpdate,
    SetMatchmakingPassword,
};
use crate::wire::{
    blob_bytes, lemma_parse_blob, lemma_parse_optional_text, lemma_parse_optional_u64,
    lemma_parse_text, lemma_parse_u32, lemma_parse_u64_list, lemma_parse_word,
    optional_text_bytes, optional_u64_bytes, parse_blob, parse_flag, parse_optional_text,
    parse_optional_u64, parse_text, parse_u32, parse_u64_list, parse_word, text_bytes, text_fits,
    u32_bytes, u64_list_bytes, word_bytes, write_blob, write_flag, write_optional_text,
    write_optional_u64, write_text, write_u32, write_u64_list, write_word, flag_bytes,
    lemma_parse_flag, Reader,
};

verus! {

/// The largest payload that a frame may carry, in bytes.
pub const MAX_PAYLOAD_LEN: usize = 4096;

/// The selector of a channel: its place among the channels.
pub open spec fn channel_index(channel: ChatChannel) -> u32 {
    match channel {
        ChatChannel::Global => 0,
        ChatChannel::Group => 1,
        ChatChannel::Local => 2,
    }
}

/// A channel as bytes: its selector.
pub open spec fn channel_bytes(channel: ChatChannel) -> Seq<u8> {
    u32_bytes(channel_index(channel))
}

/// Reads a channel from the front of `bytes`; gives it with what follows.
pub open spec fn parse_channel(bytes: Seq<u8>) -> Option<(ChatChannel, Seq<u8>)> {
    match parse_u32(bytes) {
        Some((index, len)) => if index == 0 {
            Some((ChatChannel::Global, bytes.skip(len as int)))
        } else if index == 1 {
            Some((ChatChannel::Group, bytes.skip(len as int)))
        } else if index == 2 {
            Some((ChatChannel::Local, bytes.skip(len as int)))
        } else {
            None
        },
        None => None,
    }
}

/// A position as bytes: `x`, then `y`, four bytes each.
pub open spec fn position_bytes(position: Vector2) -> Seq<u8> {
    word_bytes(position.x) + word_bytes(position.y)
}

/// Reads a position from the front of `bytes`; gives it with what follows.
pub open spec fn parse_position(bytes: Seq<u8>) -> Option<(Vector2, Seq<u8>)> {
    match parse_word(bytes) {
        Some((x, n)) => match parse_word(bytes.skip(n as int)) {
            Some((y, m)) => Some((Vector2 { x, y }, bytes.skip(n as int).skip(m as int))),
            None => None,
        },
        None => None,
    }
}

/// The fields of a handshake request as bytes.
pub open spec fn handshake_request_bytes(m: HandshakeRequestView) -> Seq<u8> {
    blob_bytes(m.auth_session_ticket) + optional_text_bytes(m.matchmaking_password) + text_bytes(
        m.level_name,
    ) + position_bytes(m.position) + u32_bytes(m.version)
}

/// Reads the fields of a handshake request from the front of `bytes`.
pub open spec fn parse_handshake_request(bytes: Seq<u8>) -> Option<(HandshakeRequestView, Seq<u8>)> {
    match parse_blob(bytes) {
        Some((auth_session_ticket, n1)) => {
            let r1 = bytes.skip(n1 as int);
            match parse_optional_text(r1) {
                Some((matchmaking_password, n2)) => {
                    let r2 = r1.skip(n2 as int);
                    match parse_text(r2) {
                        Some((level_name, n3)) => {
                            let r3 = r2.skip(n3 as int);
                            match parse_position(r3) {
                                Some((position, r4)) => match parse_u32(r4) {
                                    Some((version, n5)) => Some(
                                        (
                                            HandshakeRequestView {
                                                auth_session_ticket,
                                                matchmaking_password,
                                                level_name,
                                                position,
                                                version,
                                            },
                                            r4.skip(n5 as int),
                                        ),
                                    ),
                                    None => None,
                                },
                                None => None,
                            }
                        },
                        None => None,
                    }
                },
                None => None,
            }
        },
        None => None,
    }
}

/// The fields of a handshake response as bytes.
pub open spec fn handshake_response_bytes(m: HandshakeResponseView) -> Seq<u8> {
    flag_bytes(m.success) + optional_text_bytes(m.error_message)
}

/// Reads the fields of a handshake response from the front of `bytes`.
pub open spec fn parse_handshake_response(bytes: Seq<u8>) -> Option<
    (HandshakeResponseView, Seq<u8>),
> {
    match parse_flag(bytes) {
        Some((success, n1)) => {
            let r1 = bytes.skip(n1 as int);
            match parse_optional_text(r1) {
                Some((error_message, n2)) => Some(
                    (HandshakeResponseView { success, error_message }, r1.skip(n2 as int)),
                ),
                None => None,
            }
        },
        None => None,
    }
}

/// The fields of an incoming chat message as bytes.
pub open spec fn incoming_chat_bytes(m: IncomingChatMessageView) -> Seq<u8> {
    channel_bytes(m.channel) + text_bytes(m.message)
}

/// Reads the fields of an incoming chat message from the front of `bytes`.
pub open spec fn parse_incoming_chat(bytes: Seq<u8>) -> Option<(IncomingChatMessageView, Seq<u8>)> {
    match parse_channel(bytes) {
        Some((channel, r1)) => match parse_text(r1) {
            Some((message, n2)) => Some(
                (IncomingChatMessageView { channel, message }, r1.skip(n2 as int)),
            ),
            None => None,
        },
        None => None,
    }
}

/// The fields of an outgoing chat message as bytes.
pub open spec fn outgoing_chat_bytes(m: OutgoingChatMessageView) -> Seq<u8> {
    channel_bytes(m.channel) + optional_u64_bytes(m.sender_id) + optional_text_bytes(m.sender_name)
        + text_bytes(m.message)
}

/// Reads the fields of an outgoing chat message from the front of `bytes`.
pub open spec fn parse_outgoing_chat(bytes: Seq<u8>) -> Option<(OutgoingChatMessageView, Seq<u8>)> {
    match parse_channel(bytes) {
        Some((channel, r1)) => match parse_optional_u64(r1) {
            Some((sender_id, n2)) => {
                let r2 = r1.skip(n2 as int);
                match parse_optional_text(r2) {
                    Some((sender_name, n3)) => {
                        let r3 = r2.skip(n3 as int);
                        match parse_text(r3) {
                            Some((message, n4)) => Some(
                                (
                                    OutgoingChatMessageView {
                                        channel,
                                        sender_id,
                                        sender_name,
                                        message,
                                    },
                                    r3.skip(n4 as int),
                                ),
                            ),
                            None => None,
                        }
                    },
                    None => None,
                }
            },
            None => None,
        },
        None => None,
    }
}

/// The fields of a status update as bytes.
pub open spec fn status_bytes(m: ServerStatusUpdate) -> Seq<u8> {
    u32_bytes(m.total_players) + u32_bytes(m.group_players)
}

/// Reads the fields of a status update from the front of `bytes`.
pub open spec fn parse_status(bytes: Seq<u8>) -> Option<(ServerStatusUpdate, Seq<u8>)> {
    match parse_u32(bytes) {
        Some((total_players, n1)) => {
            let r1 = bytes.skip(n1 as int);
            match parse_u32(r1) {
                Some((group_players, n2)) => Some(
                    (ServerStatusUpdate { total_players, group_players }, r1.skip(n2 as int)),
                ),
                None => None,
            }
        },
        None => None,
    }
}

/// The selector of a message's variant.
pub open spec fn selector(m: MessageView) -> u32 {
    match m {
        MessageView::HandshakeRequest(_) => 0,
        MessageView::HandshakeResponse(_) => 1,
        MessageView::PositionUpdate(_) => 2,
        MessageView::SetMatchmakingPassword(_) => 3,
        MessageView::InformNearbyClients(_) => 4,
        MessageView::IncomingChatMessage(_) => 5,
        MessageView::OutgoingChatMessage(_) => 6,
        MessageView::ServerStatusUpdate(_) => 7,
    }
}

/// The fields of a message, without its selector.
pub open spec fn fields_bytes(m: MessageView) -> Seq<u8> {
    match m {
        MessageView::HandshakeRequest(r) => handshake_request_bytes(r),
        MessageView::HandshakeResponse(r) => handshake_response_bytes(r),
        MessageView::PositionUpdate(p) => position_bytes(p),
        MessageView::SetMatchmakingPassword(p) => optional_text_bytes(p),
        MessageView::InformNearbyClients(ids) => u64_list_bytes(ids),
        MessageView::IncomingChatMessage(c) => incoming_chat_bytes(c),
        MessageView::OutgoingChatMessage(c) => outgoing_chat_bytes(c),
        MessageView::ServerStatusUpdate(s) => status_bytes(s),
    }
}

/// A message as the payload of a frame.
pub open spec fn message_bytes(m: MessageView) -> Seq<u8> {
    u32_bytes(selector(m)) + fields_bytes(m)
}

/// Reads the fields of the variant that `index` selects.
pub open spec fn parse_fields(index: u32, bytes: Seq<u8>) -> Option<(MessageView, Seq<u8>)> {
    if index == 0 {
        match parse_handshake_request(bytes) {
            Some((r, rest)) => Some((MessageView::HandshakeRequest(r), rest)),
            None => None,
        }
    } else if index == 1 {
        match parse_handshake_response(bytes) {
            Some((r, rest)) => Some((MessageView::HandshakeResponse(r), rest)),
            None => None,
        }
    } else if index == 2 {
        match parse_position(bytes) {
            Some((p, rest)) => Some((MessageView::PositionUpdate(p), rest)),
            None => None,
        }
    } else if index == 3 {
        match parse_optional_text(bytes) {
            Some((p, n)) => Some((MessageView::SetMatchmakingPassword(p), bytes.skip(n as int))),
            None => None,
        }
    } else if index == 4 {
        match parse_u64_list(bytes) {
            Some((ids, n)) => Some((MessageView::InformNearbyClients(ids), bytes.skip(n as int))),
            None => None,
        }
    } else if index == 5 {
        match parse_incoming_chat(bytes) {
            Some((c, rest)) => Some((MessageView::IncomingChatMessage(c), rest)),
            None => None,
        }
    } else if index == 6 {
        match parse_outgoing_chat(bytes) {
            Some((c, rest)) => Some((MessageView::OutgoingChatMessage(c), rest)),
            None => None,
        }
    } else if index == 7 {
        match parse_status(bytes) {
            Some((s, rest)) => Some((MessageView::ServerStatusUpdate(s), rest)),
            None => None,
        }
    } else {
        None
    }
}

/// Reads one message from the front of `bytes`; gives it with what follows.
pub open spec fn parse_message(bytes: Seq<u8>) -> Option<(MessageView, Seq<u8>)> {
    match parse_u32(bytes) {
        Some((index, len)) => parse_fields(index, bytes.skip(len as int)),
        None => None,
    }
}

/// The message that `bytes` are the payload of: the bytes must spell one
/// message and nothing more.
pub open spec fn decode_message(bytes: Seq<u8>) -> Option<MessageView> {
    match parse_message(bytes) {
        Some((m, rest)) => if rest.len() == 0 {
            Some(m)
        } else {
            None
        },
        None => None,
    }
}

/// Whether every length in the message can be written down.
pub open spec fn lengths_fit(m: MessageView) -> bool {
    match m {
        MessageView::HandshakeRequest(r) => {
            &&& r.auth_session_ticket.len() <= u64::MAX
            &&& text_fits(r.matchmaking_password)
            &&& text_fits(Some(r.level_name))
        },
        MessageView::HandshakeResponse(r) => text_fits(r.error_message),
        MessageView::PositionUpdate(_) => true,
        MessageView::SetMatchmakingPassword(p) => text_fits(p),
        MessageView::InformNearbyClients(ids) => ids.len() <= u64::MAX,
        MessageView::IncomingChatMessage(c) => text_fits(Some(c.message)),
        MessageView::OutgoingChatMessage(c) => text_fits(c.sender_name) && text_fits(
            Some(c.message),
        ),
        MessageView::ServerStatusUpdate(_) => true,
    }
}

proof fn lemma_parse_channel(channel: ChatChannel, rest: Seq<u8>)
    ensures
        parse_channel(channel_bytes(channel) + rest) == Some((channel, rest)),
{
    let head = channel_bytes(channel);
    lemma_parse_u32(channel_index(channel), rest);
    assert((head + rest).skip(head.len() as int) =~= rest);
}

proof fn lemma_parse_position(position: Vector2, rest: Seq<u8>)
    ensures
        parse_position(position_bytes(position) + rest) == Some((position, rest)),
{
    let x = word_bytes(position.x);
    let y = word_bytes(position.y);
    let all = position_bytes(position) + rest;
    lemma_parse_word(position.x, y + rest);
    lemma_parse_word(position.y, rest);
    assert(all =~= x + (y + rest));
    assert(all.skip(4) =~= y + rest);
    assert((y + rest).skip(4) =~= rest);
}

proof fn lemma_parse_handshake_request(m: HandshakeRequestView, rest: Seq<u8>)
    requires
        lengths_fit(MessageView::HandshakeRequest(m)),
    ensures
        parse_handshake_request(handshake_request_bytes(m) + rest) == Some((m, rest)),
{
    let f1 = blob_bytes(m.auth_session_ticket);
    let f2 = optional_text_bytes(m.matchmaking_password);
    let f3 = text_bytes(m.level_name);
    let f4 = position_bytes(m.position);
    let f5 = u32_bytes(m.version);
    let r4 = f5 + rest;
    let r3 = f4 + r4;
    let r2 = f3 + r3;
    let r1 = f2 + r2;
    let all = handshake_request_bytes(m) + rest;
    assert(all =~= f1 + r1);
    lemma_parse_blob(m.auth_session_ticket, r1);
    assert((f1 + r1).skip(f1.len() as int) =~= r1);
    lemma_parse_optional_text(m.matchmaking_password, r2);
    assert((f2 + r2).skip(f2.len() as int) =~= r2);
    lemma_parse_text(m.level_name, r3);
    assert((f3 + r3).skip(f3.len() as int) =~= r3);
    lemma_parse_position(m.position, r4);
    lemma_parse_u32(m.version, rest);
    assert((f5 + rest).skip(f5.len() as int) =~= rest);
}

proof fn lemma_parse_handshake_response(m: HandshakeResponseView, rest: Seq<u8>)
    requires
        text_fits(m.error_message),
    ensures
        parse_handshake_response(handshake_response_bytes(m) + rest) == Some((m, rest)),
{
    let f1 = flag_bytes(m.success);
    let f2 = optional_text_bytes(m.error_message);
    let r1 = f2 + rest;
    let all = handshake_response_bytes(m) + rest;
    assert(all =~= f1 + r1);
    lemma_parse_flag(m.success, r1);
    assert((f1 + r1).skip(1) =~= r1);
    lemma_parse_optional_text(m.error_message, rest);
    assert((f2 + rest).skip(f2.len() as int) =~= rest);
}

proof fn lemma_parse_incoming_chat(m: IncomingChatMessageView, rest: Seq<u8>)
    requires
        text_fits(Some(m.message)),
    ensures
        parse_incoming_chat(incoming_chat_bytes(m) + rest) == Some((m, rest)),
{
    let f1 = channel_bytes(m.channel);
    let f2 = text_bytes(m.message);
    let r1 = f2 + rest;
    let all = incoming_chat_bytes(m) + rest;
    assert(all =~= f1 + r1);
    lemma_parse_channel(m.channel, r1);
    lemma_parse_text(m.message, rest);
    assert((f2 + rest).skip(f2.len() as int) =~= rest);
}

proof fn lemma_parse_outgoing_chat(m: OutgoingChatMessageView, rest: Seq<u8>)
    requires
        text_fits(m.sender_name),
        text_fits(Some(m.message)),
    ensures
        parse_outgoing_chat(outgoing_chat_bytes(m) + rest) == Some((m, rest)),
{
    let f1 = channel_bytes(m.channel);
    let f2 = optional_u64_bytes(m.sender_id);
    let f3 = optional_text_bytes(m.sender_name);
    let f4 = text_bytes(m.message);
    let r3 = f4 + rest;
    let r2 = f3 + r3;
    let r1 = f2 + r2;
    let all = outgoing_chat_bytes(m) + rest;
    assert(all =~= f1 + r1);
    lemma_parse_channel(m.channel, r1);
    lemma_parse_optional_u64(m.sender_id, r2);
    assert((f2 + r2).skip(f2.len() as int) =~= r2);
    lemma_parse_optional_text(m.sender_name, r3);
    assert((f3 + r3).skip(f3.len() as int) =~= r3);
    lemma_parse_text(m.message, rest);
    assert((f4 + rest).skip(f4.len() as int) =~= rest);
}

proof fn lemma_parse_status(m: ServerStatusUpdate, rest: Seq<u8>)
    ensures
        parse_status(status_bytes(m) + rest) == Some((m, rest)),
{
    let f1 = u32_bytes(m.total_players);
    let f2 = u32_bytes(m.group_players);
    let r1 = f2 + rest;
    let all = status_bytes(m) + rest;
    assert(all =~= f1 + r1);
    lemma_parse_u32(m.total_players, r1);
    assert((f1 + r1).skip(f1.len() as int) =~= r1);
    lemma_parse_u32(m.group_players, rest);
    assert((f2 + rest).skip(f2.len() as int) =~= rest);
}

proof fn lemma_parse_fields(m: MessageView, rest: Seq<u8>)
    requires
        lengths_fit(m),
    ensures
        parse_fields(selector(m), fields_bytes(m) + rest) == Some((m, rest)),
{
    let body = fields_bytes(m);
    match m {
        MessageView::HandshakeRequest(r) => lemma_parse_handshake_request(r, rest),
        MessageView::HandshakeResponse(r) => lemma_parse_handshake_response(r, rest),
        MessageView::PositionUpdate(p) => lemma_parse_position(p, rest),
        MessageView::SetMatchmakingPassword(p) => {
            lemma_parse_optional_text(p, rest);
            assert((body + rest).skip(body.len() as int) =~= rest);
        },
        MessageView::InformNearbyClients(ids) => {
            lemma_parse_u64_list(ids, rest);
            assert((body + rest).skip(body.len() as int) =~= rest);
        },
        MessageView::IncomingChatMessage(c) => lemma_parse_incoming_chat(c, rest),
        MessageView::OutgoingChatMessage(c) => lemma_parse_outgoing_chat(c, rest),
        MessageView::ServerStatusUpdate(s) => lemma_parse_status(s, rest),
    }
}

/// Reading undoes writing: the bytes of a message, followed by anything, are
/// read back as that message, and what followed is left over.
pub proof fn lemma_parse_message(m: MessageView, rest: Seq<u8>)
    requires
        lengths_fit(m),
    ensures
        parse_message(message_bytes(m) + rest) == Some((m, rest)),
{
    let head = u32_bytes(selector(m));
    let body = fields_bytes(m);
    let all = message_bytes(m) + rest;
    assert(all =~= head + (body + rest));
    lemma_parse_u32(selector(m), body + rest);
    assert((head + (body + rest)).skip(head.len() as int) =~= body + rest);
    lemma_parse_fields(m, rest);
}

/// A payload is decoded as the message that it was written for.
pub proof fn lemma_decode_message(m: MessageView)
    requires
        lengths_fit(m),
    ensures
        decode_message(message_bytes(m)) == Some(m),
{
    lemma_parse_message(m, Seq::empty());
    assert(message_bytes(m) + Seq::<u8>::empty() =~= message_bytes(m));
}

fn write_channel(out: &mut Vec<u8>, channel: ChatChannel)
    ensures
        final(out)@ == old(out)@ + channel_bytes(channel),
{
    let index: u32 = match channel {
        ChatChannel::Global => 0,
        ChatChannel::Group => 1,
        ChatChannel::Local => 2,
    };
    write_u32(out, index);
}

fn write_position(out: &mut Vec<u8>, position: &Vector2)
    ensures
        final(out)@ == old(out)@ + position_bytes(*position),
{
    write_word(out, position.x);
    write_word(out, position.y);
    assert(out@ =~= old(out)@ + position_bytes(*position));
}

fn write_handshake_request(out: &mut Vec<u8>, m: &HandshakeRequest)
    ensures
        final(out)@ == old(out)@ + handshake_request_bytes(m@),
        lengths_fit(MessageView::HandshakeRequest(m@)),
{
    write_blob(out, m.auth_session_ticket.as_slice());
    write_optional_text(out, &m.matchmaking_password);
    write_text(out, m.level_name.as_str());
    write_position(out, &m.position);
    write_u32(out, m.version);
    assert(out@ =~= old(out)@ + handshake_request_bytes(m@));
}

fn write_handshake_response(out: &mut Vec<u8>, m: &HandshakeResponse)
    ensures
        final(out)@ == old(out)@ + handshake_response_bytes(m@),
        lengths_fit(MessageView::HandshakeResponse(m@)),
{
    write_flag(out, m.success);
    write_optional_text(out, &m.error_message);
    assert(out@ =~= old(out)@ + handshake_response_bytes(m@));
}

fn write_incoming_chat(out: &mut Vec<u8>, m: &IncomingChatMessage)
    ensures
        final(out)@ == old(out)@ + incoming_chat_bytes(m@),
        lengths_fit(MessageView::IncomingChatMessage(m@)),
{
    write_channel(out, m.channel);
    write_text(out, m.message.as_str());
    assert(out@ =~= old(out)@ + incoming_chat_bytes(m@));
}

fn write_outgoing_chat(out: &mut Vec<u8>, m: &OutgoingChatMessage)
    ensures
        final(out)@ == old(out)@ + outgoing_chat_bytes(m@),
        lengths_fit(MessageView::OutgoingChatMessage(m@)),
{
    write_channel(out, m.channel);
    write_optional_u64(out, m.sender_id);
    write_optional_text(out, &m.sender_name);
    write_text(out, m.message.as_str());
    assert(out@ =~= old(out)@ + outgoing_chat_bytes(m@));
}

fn write_status(out: &mut Vec<u8>, m: &ServerStatusUpdate)
    ensures
        final(out)@ == old(out)@ + status_bytes(*m),
{
    write_u32(out, m.total_players);
    write_u32(out, m.group_players);
    assert(out@ =~= old(out)@ + status_bytes(*m));
}

fn write_fields(out: &mut Vec<u8>, message: &Message)
    ensures
        final(out)@ == old(out)@ + fields_bytes(message@),
        lengths_fit(message@),
{
    match message {
        Message::HandshakeRequest(m) => write_handshake_request(out, m),
        Message::HandshakeResponse(m) => write_handshake_response(out, m),
        Message::PositionUpdate(m) => write_position(out, &m.position),
        Message::SetMatchmakingPassword(m) => write_optional_text(out, &m.password),
        Message::InformNearbyClients(m) => write_u64_list(out, &m.client_ids),
        Message::IncomingChatMessage(m) => write_incoming_chat(out, m),
        Message::OutgoingChatMessage(m) => write_outgoing_chat(out, m),
        Message::ServerStatusUpdate(m) => write_status(out, m),
    }
}

fn selector_of(message: &Message) -> (index: u32)
    ensures
        index == selector(message@),
{
    match message {
        Message::HandshakeRequest(_) => 0,
        Message::HandshakeResponse(_) => 1,
        Message::PositionUpdate(_) => 2,
        Message::SetMatchmakingPassword(_) => 3,
        Message::InformNearbyClients(_) => 4,
        Message::IncomingChatMessage(_) => 5,
        Message::OutgoingChatMessage(_) => 6,
        Message::ServerStatusUpdate(_) => 7,
    }
}

/// Writes `message` as the payload of a frame.
pub fn serialize(message: &Message) -> (bytes: Vec<u8>)
    ensures
        bytes@ == message_bytes(message@),
        lengths_fit(message@),
{
    let mut out: Vec<u8> = Vec::new();
    write_u32(&mut out, selector_of(message));
    write_fields(&mut out, message);
    assert(out@ =~= message_bytes(message@));
    out
}

fn read_channel(reader: &mut Reader) -> (result: Option<ChatChannel>)
    ensures
        match parse_channel(old(reader).rest@) {
            Some((value, rest)) => result == Some(value) && final(reader).rest@ == rest,
            None => result is None,
        },
{
    match reader.read_u32() {
        Some(0) => Some(ChatChannel::Global),
        Some(1) => Some(ChatChannel::Group),
        Some(2) => Some(ChatChannel::Local),
        _ => None,
    }
}

fn read_position(reader: &mut Reader) -> (result: Option<Vector2>)
    ensures
        match parse_position(old(reader).rest@) {
            Some((value, rest)) => result == Some(value) && final(reader).rest@ == rest,
            None => result is None,
        },
{
    let x: u32 = match reader.read_word() {
        Some(x) => x,
        None => {
            return None;
        },
    };
    let y: u32 = match reader.read_word() {
        Some(y) => y,
        None => {
            return None;
        },
    };
    Some(Vector2 { x, y })
}

fn read_handshake_request(reader: &mut Reader) -> (result: Option<HandshakeRequest>)
    ensures
        match parse_handshake_request(old(reader).rest@) {
            Some((value, rest)) => {
                &&& result matches Some(m)
                &&& m@ == value
                &&& final(reader).rest@ == rest
            },
            None => result is None,
        },
{
    let auth_session_ticket: Vec<u8> = match reader.read_blob() {
        Some(v) => v,
        None => {
            return None;
        },
    };
    let matchmaking_password: Option<String> = match reader.read_optional_text() {
        Some(v) => v,
        None => {
            return None;
        },
    };
    let level_name: String = match reader.read_text() {
        Some(v) => v,
        None => {
            return None;
        },
    };
    let position: Vector2 = match read_position(reader) {
        Some(v) => v,
        None => {
            return None;
        },
    };
    let version: u32 = match reader.read_u32() {
        Some(v) => v,
        None => {
            return None;
        },
    };
    Some(
        HandshakeRequest {
            auth_session_ticket,
            matchmaking_password,
            level_name,
            position,
            version,
        },
    )
}

fn read_handshake_response(reader: &mut Reader) -> (result: Option<HandshakeResponse>)
    ensures
        match parse_handshake_response(old(reader).rest@) {
            Some((value, rest)) => {
                &&& result matches Some(m)
                &&& m@ == value
                &&& final(reader).rest@ == rest
            },
            None => result is None,
        },
{
    let success: bool = match reader.read_flag() {
        Some(v) => v,
        None => {
            return None;
        },
    };
    let error_message: Option<String> = match reader.read_optional_text() {
        Some(v) => v,
        None => {
            return None;
        },
    };
    Some(HandshakeResponse { success, error_message })
}

fn read_incoming_chat(reader: &mut Reader) -> (result: Option<IncomingChatMessage>)
    ensures
        match parse_incoming_chat(old(reader).rest@) {
            Some((value, rest)) => {
                &&& result matches Some(m)
                &&& m@ == value
                &&& final(reader).rest@ == rest
            },
            None => result is None,
        },
{
    let channel: ChatChannel = match read_channel(reader) {
        Some(v) => v,
        None => {
            return None;
        },
    };
    let message: String = match reader.read_text() {
        Some(v) => v,
        None => {
            return None;
        },
    };
    Some(IncomingChatMessage { channel, message })
}

fn read_outgoing_chat(reader: &mut Reader) -> (result: Option<OutgoingChatMessage>)
    ensures
        match parse_outgoing_chat(old(reader).rest@) {
            Some((value, rest)) => {
                &&& result matches Some(m)
                &&& m@ == value
                &&& final(reader).rest@ == rest
            },
            None => result is None,
        },
{
    let channel: ChatChannel = match read_channel(reader) {
        Some(v) => v,
        None => {
            return None;
        },
    };
    let sender_id: Option<u64> = match reader.read_optional_u64() {
        Some(v) => v,
        None => {
            return None;
        },
    };
    let sender_name: Option<String> = match reader.read_optional_text() {
        Some(v) => v,
        None => {
            return None;
        },
    };
    let message: String = match reader.read_text() {
        Some(v) => v,
        None => {
            return None;
        },
    };
    Some(OutgoingChatMessage { channel, sender_id, sender_name, message })
}

fn read_status(reader: &mut Reader) -> (result: Option<ServerStatusUpdate>)
    ensures
        match parse_status(old(reader).rest@) {
            Some((value, rest)) => result == Some(value) && final(reader).rest@ == rest,
            None => result is None,
        },
{
    let total_players: u32 = match reader.read_u32() {
        Some(v) => v,
        None => {
            return None;
        },
    };
    let group_players: u32 = match reader.read_u32() {
        Some(v) => v,
        None => {
            return None;
        },
    };
    Some(ServerStatusUpdate { total_players, group_players })
}

fn read_message(reader: &mut Reader) -> (result: Option<Message>)
    ensures
        match parse_message(old(reader).rest@) {
            Some((value, rest)) => {
                &&& result matches Some(m)
                &&& m@ == value
                &&& final(reader).rest@ == rest
            },
            None => result is None,
        },
{
    let index: u32 = match reader.read_u32() {
        Some(v) => v,
        None => {
            return None;
        },
    };
    if index == 0 {
        match read_handshake_request(reader) {
            Some(m) => Some(Message::HandshakeRequest(m)),
            None => None,
        }
    } else if index == 1 {
        match read_handshake_response(reader) {
            Some(m) => Some(Message::HandshakeResponse(m)),
            None => None,
        }
    } else if index == 2 {
        match read_position(reader) {
            Some(position) => Some(Message::PositionUpdate(PositionUpdate { position })),
            None => None,
        }
    } else if index == 3 {
        match reader.read_optional_text() {
            Some(password) => Some(
                Message::SetMatchmakingPassword(SetMatchmakingPassword { password }),
            ),
            None => None,
        }
    } else if index == 4 {
        match reader.read_u64_list() {
            Some(client_ids) => Some(
                Message::InformNearbyClients(InformNearbyClients { client_ids }),
            ),
            None => None,
        }
    } else if index == 5 {
        match read_incoming_chat(reader) {
            Some(m) => Some(Message::IncomingChatMessage(m)),
            None => None,
        }
    } else if index == 6 {
        match read_outgoing_chat(reader) {
            Some(m) => Some(Message::OutgoingChatMessage(m)),
            None => None,
        }
    } else if index == 7 {
        match read_status(reader) {
            Some(m) => Some(Message::ServerStatusUpdate(m)),
            None => None,
        }
    } else {
        None
    }
}

/// Reads the payload of a frame. The bytes must spell one message and
/// nothing more.
pub fn deserialize(bytes: &[u8]) -> (result: Option<Message>)
    ensures
        match decode_message(bytes@) {
            Some(value) => result matches Some(m) && m@ == value,
            None => result is None,
        },
{
    let mut reader = Reader { rest: bytes };
    match read_message(&mut reader) {
        Some(message) => if reader.rest.len() == 0 {
            Some(message)
        } else {
            None
        },
        None => None,
    }
}

} // verus!
