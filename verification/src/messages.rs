//! The messages that travel between a client and the server.

use vstd::prelude::*;

use crate::chat::ChatChannel;
use crate::math::Vector2;

verus! {

/// Every message of the protocol. The order of the variants is the order of
/// their selectors on the wire.
#[derive(Debug, Clone, PartialEq)]
pub enum Message {
    HandshakeRequest(HandshakeRequest),
    HandshakeResponse(HandshakeResponse),
    PositionUpdate(PositionUpdate),
    SetMatchmakingPassword(SetMatchmakingPassword),
    InformNearbyClients(InformNearbyClients),
    IncomingChatMessage(IncomingChatMessage),
    OutgoingChatMessage(OutgoingChatMessage),
    ServerStatusUpdate(ServerStatusUpdate),
}

/// Client to server, as the first message of a session: who the client is,
/// which group it wants to be in, where it is, and which version of the
/// protocol it speaks.
#[derive(Debug, Clone, PartialEq)]
pub struct HandshakeRequest {
    pub auth_session_ticket: Vec<u8>,
    pub matchmaking_password: Option<String>,
    pub level_name: String,
    pub position: Vector2,
    pub version: u32,
}

/// Server to client: whether the handshake succeeded, and if not, why.
#[derive(Debug, Clone, PartialEq)]
pub struct HandshakeResponse {
    pub success: bool,
    pub error_message: Option<String>,
}

/// Client to server: the client has moved.
#[derive(Debug, Clone, PartialEq)]
pub struct PositionUpdate {
    pub position: Vector2,
}

/// Client to server: the client changes its matchmaking password.
#[derive(Debug, Clone, PartialEq)]
pub struct SetMatchmakingPassword {
    pub password: Option<String>,
}

/// Server to client: the accounts of the clients that are near the client.
#[derive(Debug, Clone, PartialEq)]
pub struct InformNearbyClients {
    pub client_ids: Vec<u64>,
}

/// Client to server: a chat message to a channel.
#[derive(Debug, Clone, PartialEq)]
pub struct IncomingChatMessage {
    pub channel: ChatChannel,
    pub message: String,
}

/// Server to client: a chat message, from a client or from the server
/// itself (then without a sender).
#[derive(Debug, Clone, PartialEq)]
pub struct OutgoingChatMessage {
    pub channel: ChatChannel,
    pub sender_id: Option<u64>,
    pub sender_name: Option<String>,
    pub message: String,
}

/// Server to client: how many clients are connected, and how many of them
/// are in the client's group.
#[derive(Debug, Clone, Copy, PartialEq, Eq, Structural)]
pub struct ServerStatusUpdate {
    pub total_players: u32,
    pub group_players: u32,
}

/// A handshake request as plain values.
pub struct HandshakeRequestView {
    pub auth_session_ticket: Seq<u8>,
    pub matchmaking_password: Option<Seq<char>>,
    pub level_name: Seq<char>,
    pub position: Vector2,
    pub version: u32,
}

/// A handshake response as plain values.
pub struct HandshakeResponseView {
    pub success: bool,
    pub error_message: Option<Seq<char>>,
}

/// An incoming chat message as plain values.
pub struct IncomingChatMessageView {
    pub channel: ChatChannel,
    pub message: Seq<char>,
}

/// An outgoing chat message as plain values.
pub struct OutgoingChatMessageView {
    pub channel: ChatChannel,
    pub sender_id: Option<u64>,
    pub sender_name: Option<Seq<char>>,
    pub message: Seq<char>,
}

/// A message as plain values.
pub enum MessageView {
    HandshakeRequest(HandshakeRequestView),
    HandshakeResponse(HandshakeResponseView),
    PositionUpdate(Vector2),
    SetMatchmakingPassword(Option<Seq<char>>),
    InformNearbyClients(Seq<u64>),
    IncomingChatMessage(IncomingChatMessageView),
    OutgoingChatMessage(OutgoingChatMessageView),
    ServerStatusUpdate(ServerStatusUpdate),
}

impl View for HandshakeRequest {
    type V = HandshakeRequestView;

    open spec fn view(&self) -> HandshakeRequestView {
        HandshakeRequestView {
            auth_session_ticket: self.auth_session_ticket@,
            matchmaking_password: self.matchmaking_password.deep_view(),
            level_name: self.level_name@,
            position: self.position,
            version: self.version,
        }
    }
}

impl View for HandshakeResponse {
    type V = HandshakeResponseView;

    open spec fn view(&self) -> HandshakeResponseView {
        HandshakeResponseView {
            success: self.success,
            error_message: self.error_message.deep_view(),
        }
    }
}

impl View for IncomingChatMessage {
    type V = IncomingChatMessageView;

    open spec fn view(&self) -> IncomingChatMessageView {
        IncomingChatMessageView { channel: self.channel, message: self.message@ }
    }
}

impl View for OutgoingChatMessage {
    type V = OutgoingChatMessageView;

    open spec fn view(&self) -> OutgoingChatMessageView {
        OutgoingChatMessageView {
            channel: self.channel,
            sender_id: self.sender_id,
            sender_name: self.sender_name.deep_view(),
            message: self.message@,
        }
    }
}

impl View for Message {
    type V = MessageView;

    open spec fn view(&self) -> MessageView {
        match *self {
            Message::HandshakeRequest(m) => MessageView::HandshakeRequest(m@),
            Message::HandshakeResponse(m) => MessageView::HandshakeResponse(m@),
            Message::PositionUpdate(m) => MessageView::PositionUpdate(m.position),
            Message::SetMatchmakingPassword(m) => MessageView::SetMatchmakingPassword(
                m.password.deep_view(),
            ),
            Message::InformNearbyClients(m) => MessageView::InformNearbyClients(m.client_ids@),
            Message::IncomingChatMessage(m) => MessageView::IncomingChatMessage(m@),
            Message::OutgoingChatMessage(m) => MessageView::OutgoingChatMessage(m@),
            Message::ServerStatusUpdate(m) => MessageView::ServerStatusUpdate(m),
        }
    }
}

} // verus!
