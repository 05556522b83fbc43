//! A client has moved.

use vstd::prelude::*;

use crate::address::PeerAddr;
use crate::client::Client;
use crate::handlers::{result_view, HandlerError};
use crate::math::Vector2;
use crate::messages::{Message, MessageView, PositionUpdate};
use crate::state::{nearby_clients, State};
use crate::util::networking::{nearby_report, send_nearby_clients, views};

verus! {

/// The client at another position.
pub open spec fn moved_to(client: Client, position: Vector2) -> Client {
    Client { tx: client.tx, steam_id: client.steam_id, name: client.name, position }
}

/// What handling a position update does to the state, and what it answers.
///
/// The index stays as it is. Where a client is connected from `source`, its
/// position is the new one, and the answer is the report of the clients of
/// its group that are near the new position; else nothing changes and the
/// answer is `ClientNotFound`.
pub open spec fn handled(
    before: State,
    after: State,
    message: PositionUpdate,
    source: PeerAddr,
    result: Result<Seq<MessageView>, HandlerError>,
) -> bool {
    &&& after.wf()
    &&& after.group_index() == before.group_index()
    &&& after.membership() == before.membership()
    &&& after.addresses() == before.addresses()
    &&& match result {
        Ok(frames) => {
            &&& before.directory().contains_key(source)
            &&& after.directory() == before.directory().insert(
                source,
                moved_to(before.directory()[source], message.position),
            )
            &&& frames == nearby_report(
                before.directory()[source].steam_id,
                nearby_clients(message.position, after.group_clients(after.membership()[source])),
            )
        },
        Err(error) => {
            &&& error == HandlerError::ClientNotFound
            &&& !before.directory().contains_key(source)
            &&& after.directory() == before.directory()
        },
    }
}

/// Records the new position of the client at `source`, and gives the frames
/// that tell it which clients of its group are near it now. The frames are
/// for the session's own socket.
pub fn handle_message(message: &PositionUpdate, source: &PeerAddr, state: &mut State) -> (result:
    Result<Vec<Message>, HandlerError>)
    requires
        old(state).wf(),
    ensures
        handled(*old(state), *final(state), *message, *source, result_view(result)),
{
    let steam_id: u64;
    match state.get_client_mut(source) {
        Some(client) => {
            client.position = message.position;
            steam_id = client.steam_id;
        },
        None => {
            return Err(HandlerError::ClientNotFound);
        },
    }
    assert(state.directory().dom().contains(*source));
    let matchmaking_options = state.get_matchmaking_options(source);
    let nearby = state.get_nearby_clients(&message.position, matchmaking_options);
    if nearby.len() > 1 {
        Ok(send_nearby_clients(&steam_id, &nearby))
    } else {
        let frames: Vec<Message> = Vec::new();
        assert(views(frames@) =~= nearby_report(
            steam_id,
            nearby_clients(
                message.position,
                state.group_clients(state.membership()[*source]),
            ),
        ));
        Ok(frames)
    }
}

} // verus!
