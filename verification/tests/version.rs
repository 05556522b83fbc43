use std::collections::HashMap;

use bytes::BytesMut;
use jkmp_server::address::PeerAddr;
use jkmp_server::auth_backend::{AuthBackend, AuthError};
use jkmp_server::chat::ChatChannel;
use jkmp_server::codec::MessagesCodec;
use jkmp_server::handlers::handshake;
use jkmp_server::math::Vector2;
use jkmp_server::messages::{
    HandshakeRequest, HandshakeResponse, Message, OutgoingChatMessage, ServerStatusUpdate,
};
use jkmp_server::session::{Inbound, Session, SessionPhase};
use jkmp_server::state::State;
use tokio::sync::mpsc::{unbounded_channel, UnboundedReceiver};

const VALID_TICKET: &[u8] = b"ticket";
const INVALID_TICKET: &[u8] = b"gamer";
const VALID_VERSION: u32 = 2;
const INVALID_VERSION: u32 = 0;

struct TestAuthBackend;

impl AuthBackend for TestAuthBackend {
    fn check_credentials(&self) -> Result<(), AuthError> {
        Ok(())
    }

    fn verify_auth_ticket(&self, ticket: &[u8]) -> Result<u64, AuthError> {
        if ticket != VALID_TICKET {
            return Err(AuthError { message: "invalid ticket".to_string() });
        }
        Ok(1)
    }

    fn get_player_names(&self, ids: &[u64]) -> Result<HashMap<u64, String>, AuthError> {
        let mut names = HashMap::new();
        for id in ids {
            names.insert(*id, format!("Gamer ID #{}", id));
        }
        Ok(names)
    }
}

/// A server with one connection, both in memory: what the client writes is
/// read by a session, and what the session answers is read by the client.
struct Connection {
    codec: MessagesCodec,
    state: State,
    session: Session,
    to_server: BytesMut,
    to_client: BytesMut,
    mailbox: Option<UnboundedReceiver<Message>>,
}

fn connect_client(port: u16) -> Connection {
    Connection {
        codec: MessagesCodec::default(),
        state: State::new(),
        session: Session::new(PeerAddr::V4 { ip: 0x7f00_0001, port }),
        to_server: BytesMut::new(),
        to_client: BytesMut::new(),
        mailbox: None,
    }
}

impl Connection {
    fn send(&mut self, message: Message) {
        self.codec.encode(message, &mut self.to_server).unwrap();
        self.serve();
    }

    /// The server's side: reads the frames that have arrived, and writes
    /// the answers.
    fn serve(&mut self) {
        while self.session.phase != SessionPhase::Terminated {
            let inbound = match self.codec.decode(&mut self.to_server) {
                Ok(Some(message)) => Inbound::Frame(message),
                Ok(None) => return,
                Err(_) => Inbound::Invalid,
            };
            let frames = if self.session.phase == SessionPhase::Opening {
                match self.session.open(inbound) {
                    Ok(request) => {
                        let (tx, rx) = unbounded_channel::<Message>();
                        self.mailbox = Some(rx);
                        let outcome = handshake::handle_message(
                            &TestAuthBackend,
                            &request,
                            tx,
                            &self.session.address,
                            &mut self.state,
                        );
                        self.session.handshake_done(outcome)
                    }
                    Err(_) => Vec::new(),
                }
            } else {
                self.session.receive(inbound, &mut self.state).unwrap_or_default()
            };
            for frame in frames {
                self.codec.encode(frame, &mut self.to_client).unwrap();
            }
        }
        self.session.terminate(&mut self.state);
    }

    fn next(&mut self) -> Option<Result<Message, ()>> {
        match self.codec.decode(&mut self.to_client) {
            Ok(Some(message)) => Some(Ok(message)),
            Ok(None) => None,
            Err(_) => Some(Err(())),
        }
    }

    fn closed(&self) -> bool {
        self.session.phase == SessionPhase::Terminated
    }
}

fn request(ticket: &[u8], version: u32) -> Message {
    Message::HandshakeRequest(HandshakeRequest {
        auth_session_ticket: ticket.to_vec(),
        matchmaking_password: None,
        level_name: "game".to_string(),
        position: Vector2 { x: 0.0f32.to_bits(), y: 0.0f32.to_bits() },
        version,
    })
}

#[test]
fn rejects_invalid_version() {
    let mut client = connect_client(6960);
    client.send(request(VALID_TICKET, INVALID_VERSION));

    assert!(matches!(
        client.next(),
        Some(Ok(Message::HandshakeResponse(HandshakeResponse { success: false, .. })))
    ));
}

#[test]
fn rejects_invalid_ticket() {
    let mut client = connect_client(6961);
    client.send(request(INVALID_TICKET, VALID_VERSION));

    assert!(matches!(
        client.next(),
        Some(Ok(Message::HandshakeResponse(HandshakeResponse { success: false, .. })))
    ));
}

#[test]
fn accepts_valid_ticket() {
    let mut client = connect_client(6962);
    client.send(request(VALID_TICKET, VALID_VERSION));

    assert!(matches!(
        client.next(),
        Some(Ok(Message::HandshakeResponse(HandshakeResponse { success: true, .. })))
    ));
}

#[test]
fn version_mismatch_is_answered_and_the_session_ends() {
    let mut client = connect_client(7001);
    client.send(request(VALID_TICKET, INVALID_VERSION));
    assert_eq!(
        client.next(),
        Some(Ok(Message::HandshakeResponse(HandshakeResponse {
            success: false,
            error_message: Some("Your version is outdated".to_string()),
        })))
    );
    assert_eq!(client.next(), None);
    assert!(client.closed());
    assert_eq!(client.state.get_clients_iter().len(), 0);
}

#[test]
fn invalid_ticket_is_answered_without_a_reason_and_the_session_ends() {
    let mut client = connect_client(7002);
    client.send(request(INVALID_TICKET, VALID_VERSION));
    assert_eq!(
        client.next(),
        Some(Ok(Message::HandshakeResponse(HandshakeResponse {
            success: false,
            error_message: Some(
                "An unexpected error occured when handling handshake request".to_string()
            ),
        })))
    );
    assert_eq!(client.next(), None);
    assert!(client.closed());
    assert_eq!(client.state.get_clients_iter().len(), 0);
}

#[test]
fn valid_handshake_is_answered_with_three_frames() {
    let mut client = connect_client(7003);
    client.send(request(VALID_TICKET, VALID_VERSION));
    assert_eq!(
        client.next(),
        Some(Ok(Message::HandshakeResponse(HandshakeResponse {
            success: true,
            error_message: None,
        })))
    );
    match client.next() {
        Some(Ok(Message::OutgoingChatMessage(OutgoingChatMessage {
            channel: ChatChannel::Global,
            sender_id: None,
            sender_name: None,
            message,
        }))) => {
            assert!(message.starts_with("Welcome!"));
            assert_eq!(message, "Welcome! There are currently no other players online.");
        }
        other => panic!("no greeting: {:?}", other),
    }
    assert_eq!(
        client.next(),
        Some(Ok(Message::ServerStatusUpdate(ServerStatusUpdate {
            total_players: 1,
            group_players: 1,
        })))
    );
    assert_eq!(client.next(), None);
    assert!(!client.closed());
    assert_eq!(client.state.get_client(&client.session.address).unwrap().name, "Gamer ID #1");
}

#[test]
fn first_frame_must_be_a_handshake() {
    let mut client = connect_client(7004);
    client.send(Message::ServerStatusUpdate(ServerStatusUpdate {
        total_players: 0,
        group_players: 0,
    }));
    assert_eq!(client.next(), None);
    assert!(client.closed());
}

#[test]
fn second_handshake_ends_the_session_and_disconnects_the_client() {
    let mut client = connect_client(7005);
    client.send(request(VALID_TICKET, VALID_VERSION));
    assert_eq!(client.state.get_clients_iter().len(), 1);
    client.send(request(VALID_TICKET, VALID_VERSION));
    assert!(client.closed());
    assert_eq!(client.state.get_clients_iter().len(), 0);
}

#[test]
fn bytes_that_are_no_frame_end_the_session() {
    let mut client = connect_client(7006);
    client.send(request(VALID_TICKET, VALID_VERSION));
    client.to_server.extend_from_slice(&[255u8, 0, 0]);
    client.serve();
    assert!(client.closed());
    assert_eq!(client.state.get_clients_iter().len(), 0);
}
