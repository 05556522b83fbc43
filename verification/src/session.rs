//! The life of one session, from the first frame to the cleanup.
//!
//! A session waits for a handshake, shakes hands, then handles messages
//! until its connection ends or a message is refused, and at last takes its
//! client out of the shared state. What is decided along the way is decided
//! here; reading and writing the socket is left to the caller, which hands
//! in what it read and writes the frames that it gets back.

use vstd::prelude::*;

use crate::address::PeerAddr;
use crate::client::Client;
use crate::handlers::handshake::{untouched, HandshakeOutcome};
use crate::handlers::{handle_message, handled, HandlerError};
use crate::messages::{HandshakeRequest, Message, MessageView};
use crate::state::{groups_after_leave, without, State};
use crate::util::networking::views;

verus! {

/// Where a session is in its life.
#[derive(Debug, Clone, Copy, PartialEq, Eq, Structural)]
pub enum SessionPhase {
    /// Waiting for the first frame.
    Opening,
    /// The first frame was a handshake request; its outcome is awaited.
    Handshaking,
    /// The client is connected, and messages are handled.
    Steady,
    /// The session is over.
    Terminated,
}

/// What came from the socket.
pub enum Inbound {
    /// A frame, decoded.
    Frame(Message),
    /// Bytes that are no frame.
    Invalid,
    /// The end of the stream.
    Closed,
}

/// Why a session ended.
#[derive(Debug, Clone, Copy, PartialEq, Eq, Structural)]
pub enum SessionEnd {
    /// The first frame was no handshake request.
    NoHandshake,
    /// The peer sent bytes that are no frame.
    InvalidFrame,
    /// The peer closed the connection.
    Closed,
    /// A message was refused by its handler.
    Handler(HandlerError),
    /// A frame could not be written to the socket.
    WriteFailed,
}

/// One session.
pub struct Session {
    pub address: PeerAddr,
    pub phase: SessionPhase,
    /// Whether the client of the session is in the shared state.
    pub connected: bool,
}

/// What a frame answer is, with its frames as plain values.
pub open spec fn answer_view(answer: Result<Vec<Message>, SessionEnd>) -> Result<
    Seq<MessageView>,
    HandlerError,
> {
    match answer {
        Ok(frames) => Ok(views(frames@)),
        Err(SessionEnd::Handler(error)) => Err(error),
        Err(_) => Err(HandlerError::UnexpectedMessage),
    }
}

impl Session {
    /// A session that waits for its first frame.
    pub fn new(address: PeerAddr) -> (session: Self)
        ensures
            session.address == address,
            session.phase is Opening,
            !session.connected,
    {
        Session { address, phase: SessionPhase::Opening, connected: false }
    }

    /// Takes the first frame. Only a handshake request lets the session go
    /// on; anything else ends it.
    pub fn open(&mut self, inbound: Inbound) -> (request: Result<HandshakeRequest, SessionEnd>)
        requires
            old(self).phase is Opening,
        ensures
            final(self).address == old(self).address,
            final(self).connected == old(self).connected,
            match inbound {
                Inbound::Frame(Message::HandshakeRequest(r)) => {
                    &&& request == Ok::<HandshakeRequest, SessionEnd>(r)
                    &&& final(self).phase is Handshaking
                },
                Inbound::Frame(_) => {
                    &&& request == Err::<HandshakeRequest, SessionEnd>(SessionEnd::NoHandshake)
                    &&& final(self).phase is Terminated
                },
                Inbound::Invalid => {
                    &&& request == Err::<HandshakeRequest, SessionEnd>(SessionEnd::InvalidFrame)
                    &&& final(self).phase is Terminated
                },
                Inbound::Closed => {
                    &&& request == Err::<HandshakeRequest, SessionEnd>(SessionEnd::Closed)
                    &&& final(self).phase is Terminated
                },
            },
    {
        match inbound {
            Inbound::Frame(Message::HandshakeRequest(request)) => {
                self.phase = SessionPhase::Handshaking;
                Ok(request)
            },
            Inbound::Frame(_) => {
                self.phase = SessionPhase::Terminated;
                Err(SessionEnd::NoHandshake)
            },
            Inbound::Invalid => {
                self.phase = SessionPhase::Terminated;
                Err(SessionEnd::InvalidFrame)
            },
            Inbound::Closed => {
                self.phase = SessionPhase::Terminated;
                Err(SessionEnd::Closed)
            },
        }
    }

    /// Takes the outcome of the handshake, and gives the frames to write.
    /// A client that was accepted is connected from now on; one that was
    /// rejected gets its response, and the session is over.
    pub fn handshake_done(&mut self, outcome: HandshakeOutcome) -> (frames: Vec<Message>)
        requires
            old(self).phase is Handshaking,
        ensures
            final(self).address == old(self).address,
            match outcome {
                HandshakeOutcome::Accepted { steam_id, name, frames: accepted } => {
                    &&& final(self).phase is Steady
                    &&& final(self).connected
                    &&& frames == accepted
                },
                HandshakeOutcome::Rejected { response } => {
                    &&& final(self).phase is Terminated
                    &&& final(self).connected == old(self).connected
                    &&& frames@ == seq![Message::HandshakeResponse(response)]
                },
            },
    {
        match outcome {
            HandshakeOutcome::Accepted { steam_id, name, frames } => {
                self.phase = SessionPhase::Steady;
                self.connected = true;
                frames
            },
            HandshakeOutcome::Rejected { response } => {
                self.phase = SessionPhase::Terminated;
                let mut frames: Vec<Message> = Vec::new();
                frames.push(Message::HandshakeResponse(response));
                frames
            },
        }
    }

    /// Takes what came from the socket of a connected session. A frame is
    /// handled, and the frames to write are given; a frame that its handler
    /// refuses, bytes that are no frame, and the end of the stream end the
    /// session.
    pub fn receive(&mut self, inbound: Inbound, state: &mut State) -> (answer: Result<
        Vec<Message>,
        SessionEnd,
    >)
        requires
            old(self).phase is Steady,
            old(state).wf(),
        ensures
            final(self).address == old(self).address,
            final(self).connected == old(self).connected,
            final(self).phase == if answer is Ok {
                SessionPhase::Steady
            } else {
                SessionPhase::Terminated
            },
            match inbound {
                Inbound::Frame(message) => {
                    &&& handled(
                        *old(state),
                        *final(state),
                        message,
                        old(self).address,
                        answer_view(answer),
                    )
                    &&& answer matches Err(end) ==> end is Handler
                },
                Inbound::Invalid => {
                    &&& untouched(*old(state), *final(state))
                    &&& answer == Err::<Vec<Message>, SessionEnd>(SessionEnd::InvalidFrame)
                },
                Inbound::Closed => {
                    &&& untouched(*old(state), *final(state))
                    &&& answer == Err::<Vec<Message>, SessionEnd>(SessionEnd::Closed)
                },
            },
    {
        match inbound {
            Inbound::Frame(message) => match handle_message(&message, &self.address, state) {
                Ok(frames) => Ok(frames),
                Err(error) => {
                    self.phase = SessionPhase::Terminated;
                    Err(SessionEnd::Handler(error))
                },
            },
            Inbound::Invalid => {
                self.phase = SessionPhase::Terminated;
                Err(SessionEnd::InvalidFrame)
            },
            Inbound::Closed => {
                self.phase = SessionPhase::Terminated;
                Err(SessionEnd::Closed)
            },
        }
    }

    /// A frame could not be written: the session is over.
    pub fn write_failed(&mut self) -> (end: SessionEnd)
        ensures
            end == SessionEnd::WriteFailed,
            final(self).address == old(self).address,
            final(self).connected == old(self).connected,
            final(self).phase is Terminated,
    {
        self.phase = SessionPhase::Terminated;
        SessionEnd::WriteFailed
    }

    /// Cleans up after the session: a client that was connected is taken
    /// out of the shared state and returned. A session that never got past
    /// its handshake leaves the state alone.
    pub fn terminate(&mut self, state: &mut State) -> (client: Option<Client>)
        requires
            old(state).wf(),
        ensures
            final(self).address == old(self).address,
            final(self).phase is Terminated,
            !final(self).connected,
            final(state).wf(),
            if old(self).connected {
                let address = old(self).address;
                &&& final(state).directory() == old(state).directory().remove(address)
                &&& final(state).group_index() == groups_after_leave(
                    old(state).group_index(),
                    old(state).membership(),
                    address,
                )
                &&& final(state).membership() == old(state).membership().remove(address)
                &&& final(state).addresses() == without(old(state).addresses(), address)
                &&& match client {
                    Some(c) => old(state).directory().contains_key(address) && c == old(
                        state,
                    ).directory()[address],
                    None => !old(state).directory().contains_key(address),
                }
            } else {
                untouched(*old(state), *final(state)) && client is None
            },
    {
        self.phase = SessionPhase::Terminated;
        if self.connected {
            self.connected = false;
            state.remove_client(&self.address)
        } else {
            None
        }
    }
}

} // verus!
