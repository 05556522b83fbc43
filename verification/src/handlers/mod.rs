//! What the server does with each message of a session.

pub mod handshake;
pub mod incoming_chat_message;
pub mod position_update;
pub mod set_matchmaking_password;

use vstd::prelude::*;

use crate::address::PeerAddr;
use crate::handlers::handshake::untouched;
use crate::messages::{Message, MessageView};
use crate::state::State;
use crate::util::networking::views;

verus! {

/// Why a handler gave up. Each of these ends the session.
#[derive(Debug, Clone, Copy, PartialEq, Eq, Structural)]
pub enum HandlerError {
    /// The session is not in the directory.
    ClientNotFound,
    /// A chat message names a channel that clients may not write to.
    UnexpectedChannel,
    /// The message is none that a client may send at this point.
    UnexpectedMessage,
}

/// The answer of a handler with its frames as plain values.
pub open spec fn result_view(result: Result<Vec<Message>, HandlerError>) -> Result<
    Seq<MessageView>,
    HandlerError,
> {
    match result {
        Ok(frames) => Ok(views(frames@)),
        Err(error) => Err(error),
    }
}

/// What handling a message of a connected session does to the state, and
/// what it answers: what the handler of its variant says. A message of a
/// variant that has no handler changes nothing and is answered with
/// `UnexpectedMessage`; a handshake request is one of them, as a session
/// shakes hands once.
pub open spec fn handled(
    before: State,
    after: State,
    message: Message,
    source: PeerAddr,
    result: Result<Seq<MessageView>, HandlerError>,
) -> bool {
    match message {
        Message::PositionUpdate(m) => position_update::handled(before, after, m, source, result),
        Message::SetMatchmakingPassword(m) => set_matchmaking_password::handled(
            before,
            after,
            m,
            source,
            result,
        ),
        Message::IncomingChatMessage(m) => {
            &&& untouched(before, after)
            &&& match result {
                Ok(frames) => frames.len() == 0 && incoming_chat_message::handled(
                    before,
                    m,
                    source,
                    Ok(()),
                ),
                Err(error) => incoming_chat_message::handled(before, m, source, Err(error)),
            }
        },
        _ => untouched(before, after) && result == Err::<Seq<MessageView>, HandlerError>(
            HandlerError::UnexpectedMessage,
        ),
    }
}

/// Handles a message of a connected session, and gives the frames for the
/// session's own socket.
pub fn handle_message(message: &Message, source: &PeerAddr, state: &mut State) -> (result: Result<
    Vec<Message>,
    HandlerError,
>)
    requires
        old(state).wf(),
    ensures
        handled(*old(state), *final(state), *message, *source, result_view(result)),
{
    match message {
        Message::PositionUpdate(val) => position_update::handle_message(val, source, state),
        Message::SetMatchmakingPassword(val) => set_matchmaking_password::handle_message(
            val,
            source,
            state,
        ),
        Message::IncomingChatMessage(val) => {
            match incoming_chat_message::handle_message(val, source, state) {
                Ok(_) => {
                    let frames: Vec<Message> = Vec::new();
                    assert(views(frames@).len() == 0);
                    Ok(frames)
                },
                Err(error) => Err(error),
            }
        },
        _ => Err(HandlerError::UnexpectedMessage),
    }
}

} // verus!
