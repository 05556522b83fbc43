//! A client has changed its matchmaking password.

use vstd::pervasive::unreached;
use vstd::prelude::*;

use crate::address::PeerAddr;
use crate::handlers::{result_view, HandlerError};
use crate::messages::{Message, MessageView, SetMatchmakingPassword};
use crate::state::{
    groups_after_set, nearby_clients, MatchmakingOptions, MatchmakingOptionsView, State,
};
use crate::util::networking::{nearby_report, send_nearby_clients, views};

verus! {

/// The options of a client after it has set `password`: the new password on
/// the level that it is on.
pub open spec fn with_password(
    current: MatchmakingOptionsView,
    password: Option<Seq<char>>,
) -> MatchmakingOptionsView {
    MatchmakingOptionsView { password, level_name: current.level_name }
}

/// What handling a new password does to the state, and what it answers.
///
/// The directory stays as it is. Where a client is connected from
/// `source`, it is indexed under its level and the new password, and the
/// answer is the report of the clients of that group that are near it; else
/// nothing changes and the answer is `ClientNotFound`.
pub open spec fn handled(
    before: State,
    after: State,
    message: SetMatchmakingPassword,
    source: PeerAddr,
    result: Result<Seq<MessageView>, HandlerError>,
) -> bool {
    &&& after.wf()
    &&& after.directory() == before.directory()
    &&& after.addresses() == before.addresses()
    &&& match result {
        Ok(frames) => {
            let new = with_password(before.membership()[source], message.password.deep_view());
            let client = before.directory()[source];
            &&& before.directory().contains_key(source)
            &&& after.group_index() == groups_after_set(
                before.group_index(),
                before.membership(),
                source,
                Some(new),
            )
            &&& after.membership() == before.membership().insert(source, new)
            &&& frames == nearby_report(
                client.steam_id,
                nearby_clients(client.position, after.group_clients(new)),
            )
        },
        Err(error) => {
            &&& error == HandlerError::ClientNotFound
            &&& !before.directory().contains_key(source)
            &&& after.group_index() == before.group_index()
            &&& after.membership() == before.membership()
        },
    }
}

/// Moves the client at `source` to the group of its level and the new
/// password, and gives the frames that tell it which clients of that group
/// are near it. The frames are for the session's own socket.
pub fn handle_message(
    message: &SetMatchmakingPassword,
    source: &PeerAddr,
    state: &mut State,
) -> (result: Result<Vec<Message>, HandlerError>)
    requires
        old(state).wf(),
    ensures
        handled(*old(state), *final(state), *message, *source, result_view(result)),
{
    if state.get_client(source).is_none() {
        return Err(HandlerError::ClientNotFound);
    }
    assert(state.directory().dom().contains(*source));
    let level_name: String = state.get_matchmaking_options(source).level_name.clone();
    let password: Option<String> = match &message.password {
        Some(password) => Some(password.clone()),
        None => None,
    };
    let matchmaking_options = MatchmakingOptions::new(password, level_name);
    state.set_matchmaking_options(source, Some(matchmaking_options.clone()));
    assert(state.membership().dom() =~= old(state).membership().dom());
    let client = match state.get_client(source) {
        Some(client) => client,
        None => unreached(),
    };
    let nearby = state.get_nearby_clients(&client.position, &matchmaking_options);
    if nearby.len() > 1 {
        Ok(send_nearby_clients(&client.steam_id, &nearby))
    } else {
        let frames: Vec<Message> = Vec::new();
        assert(views(frames@) =~= nearby_report(
            client.steam_id,
            nearby_clients(client.position, state.group_clients(matchmaking_options@)),
        ));
        Ok(frames)
    }
}

} // verus!
