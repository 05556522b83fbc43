//! The first message of a session: the handshake.

use std::collections::HashMap;
use tokio::sync::mpsc::UnboundedSender;
use vstd::prelude::*;
use vstd::string::StringExecFns;

use crate::address::PeerAddr;
use crate::auth_backend::{AuthBackend, AuthError};
use crate::chat::ChatChannel;
use crate::client::{Client, VERSION};
use crate::messages::{
    HandshakeRequest, HandshakeResponse, HandshakeResponseView, Message, MessageView,
    OutgoingChatMessage, OutgoingChatMessageView, ServerStatusUpdate,
};
use crate::state::{groups_after_set, MatchmakingOptions, MatchmakingOptionsView, State};
use crate::util::networking::views;
use crate::util::string::{decimal, decimal_text};

verus! {

/// How a handshake ended.
pub enum HandshakeOutcome {
    /// The client is connected under this account and name. The frames
    /// are for its socket, in order.
    Accepted { steam_id: u64, name: String, frames: Vec<Message> },
    /// The client is turned away. The response is for its socket; the
    /// session ends after it.
    Rejected { response: HandshakeResponse },
}

/// The response to a client that speaks another version of the protocol.
pub open spec fn outdated_response_view() -> HandshakeResponseView {
    HandshakeResponseView {
        success: false,
        error_message: Some("Your version is outdated"@),
    }
}

/// The response to a client that could not be authenticated. It says
/// nothing of the reason.
pub open spec fn failure_response_view() -> HandshakeResponseView {
    HandshakeResponseView {
        success: false,
        error_message: Some("An unexpected error occured when handling handshake request"@),
    }
}

/// What a new client is greeted with, given how many clients were connected
/// before it, and how many of them in its group.
pub open spec fn welcome_text(total: nat, group: nat) -> Seq<char> {
    if total == 0 && group == 0 {
        "Welcome! There are currently no other players online."@
    } else if group == 0 {
        "Welcome! There are "@ + decimal_text(total)
            + " other players online, but none of them in your group."@
    } else {
        "Welcome! There are "@ + decimal_text(total) + " other players online. "@ + decimal_text(
            group,
        ) + " of them are in your group."@
    }
}

/// A count as it is written into a status update: its low 32 bits.
pub open spec fn count_u32(n: nat) -> u32 {
    (n % 0x1_0000_0000) as u32
}

/// The options that a handshake request asks for.
pub open spec fn requested_options(message: HandshakeRequest) -> MatchmakingOptionsView {
    MatchmakingOptionsView {
        password: message.matchmaking_password.deep_view(),
        level_name: message.level_name@,
    }
}

/// The frames that a client is sent once it is connected: the response, the
/// greeting, and the state of the server after the client was added.
pub open spec fn accepted_frames(before: State, after: State, source: PeerAddr, message: HandshakeRequest)
    -> Seq<MessageView> {
    seq![
        MessageView::HandshakeResponse(HandshakeResponseView { success: true, error_message: None }),
        MessageView::OutgoingChatMessage(
            OutgoingChatMessageView {
                channel: ChatChannel::Global,
                sender_id: None,
                sender_name: None,
                message: welcome_text(
                    before.directory().len(),
                    before.group_size(requested_options(message)),
                ),
            },
        ),
        MessageView::ServerStatusUpdate(
            ServerStatusUpdate {
                total_players: count_u32(after.directory().len()),
                group_players: count_u32(after.group_size(after.membership()[source])),
            },
        ),
    ]
}

/// What connecting a client does to the state, and which frames it gives.
///
/// The client is put into the directory under `source`, where it takes the
/// place of a client that was connected from there, and `source` is indexed
/// under the options that the request asks for.
pub open spec fn registered(
    before: State,
    after: State,
    message: HandshakeRequest,
    tx: UnboundedSender<Message>,
    source: PeerAddr,
    steam_id: u64,
    name: String,
    frames: Seq<MessageView>,
) -> bool {
    let client = Client { tx, steam_id, name, position: message.position };
    &&& after.wf()
    &&& after.directory() == before.directory().insert(source, client)
    &&& after.group_index() == groups_after_set(
        before.group_index(),
        before.membership(),
        source,
        Some(requested_options(message)),
    )
    &&& after.membership() == before.membership().insert(source, requested_options(message))
    &&& after.addresses() == if before.directory().contains_key(source) {
        before.addresses()
    } else {
        before.addresses().push(source)
    }
    &&& frames == accepted_frames(before, after, source, message)
}

/// Whether nothing of the state has changed.
pub open spec fn untouched(before: State, after: State) -> bool {
    &&& after.wf()
    &&& after.directory() == before.directory()
    &&& after.group_index() == before.group_index()
    &&& after.membership() == before.membership()
    &&& after.addresses() == before.addresses()
}

/// Greets a new client.
pub fn welcome_message(total: usize, group: usize) -> (text: String)
    ensures
        text@ == welcome_text(total as nat, group as nat),
{
    if total == 0 && group == 0 {
        String::from_str("Welcome! There are currently no other players online.")
    } else if group == 0 {
        let mut text: String = String::from_str("Welcome! There are ");
        text.append(decimal(total as u64).as_str());
        text.append(" other players online, but none of them in your group.");
        text
    } else {
        let mut text: String = String::from_str("Welcome! There are ");
        text.append(decimal(total as u64).as_str());
        text.append(" other players online. ");
        text.append(decimal(group as u64).as_str());
        text.append(" of them are in your group.");
        text
    }
}

/// A count as it is written into a status update.
fn status_count(n: usize) -> (count: u32)
    ensures
        count == count_u32(n as nat),
{
    ((n as u64) % 0x1_0000_0000) as u32
}

/// The response that turns a client away for its version, where its
/// version is not the server's.
pub fn check_version(message: &HandshakeRequest) -> (rejection: Option<HandshakeResponse>)
    ensures
        rejection is None <==> message.version == VERSION,
        rejection matches Some(response) ==> response@ == outdated_response_view(),
{
    if message.version != VERSION {
        Some(
            HandshakeResponse {
                success: false,
                error_message: Some(String::from_str("Your version is outdated")),
            },
        )
    } else {
        None
    }
}

/// The response that turns a client away because it could not be
/// authenticated.
pub fn failure_response() -> (response: HandshakeResponse)
    ensures
        response@ == failure_response_view(),
{
    HandshakeResponse {
        success: false,
        error_message: Some(
            String::from_str("An unexpected error occured when handling handshake request"),
        ),
    }
}

/// Takes what the identity provider said of a ticket.
///
/// A ticket that was issued to an account lets the handshake go on: the
/// answer is the list of accounts to ask the names of, which holds that
/// account alone. A ticket that the provider refused, or could not check,
/// ends the handshake: the answer is the response that turns the client
/// away without a reason.
pub fn ticket_checked(ticket: Result<u64, AuthError>) -> (checked: Result<
    Vec<u64>,
    HandshakeResponse,
>)
    ensures
        match ticket {
            Ok(steam_id) => checked matches Ok(ids) && ids@ == seq![steam_id],
            Err(_) => checked matches Err(response) && response@ == failure_response_view(),
        },
{
    match ticket {
        Ok(steam_id) => {
            let mut ids: Vec<u64> = Vec::new();
            ids.push(steam_id);
            assert(ids@ =~= seq![steam_id]);
            Ok(ids)
        },
        Err(_) => Err(failure_response()),
    }
}

/// The name of an account among the names that the identity provider gave.
pub fn player_name(names: &HashMap<u64, String>, steam_id: u64) -> (name: Option<String>)
    ensures
        match name {
            Some(n) => names@.contains_key(steam_id) && n == names@[steam_id],
            None => !names@.contains_key(steam_id),
        },
{
    broadcast use vstd::std_specs::hash::group_hash_axioms;

    match names.get(&steam_id) {
        Some(name) => Some(name.clone()),
        None => None,
    }
}

/// Connects an authenticated client, and gives the frames for its socket:
/// the response, the greeting (which counts the clients that were there
/// before it), and the state of the server with it.
pub fn register(
    message: &HandshakeRequest,
    tx: UnboundedSender<Message>,
    source: &PeerAddr,
    state: &mut State,
    steam_id: u64,
    name: String,
) -> (frames: Vec<Message>)
    requires
        old(state).wf(),
    ensures
        registered(*old(state), *final(state), *message, tx, *source, steam_id, name, views(frames@)),
{
    let client = Client::new(tx, steam_id, name, message.position);
    let password: Option<String> = match &message.matchmaking_password {
        Some(password) => Some(password.clone()),
        None => None,
    };
    let matchmaking_options = MatchmakingOptions::new(password, message.level_name.clone());
    let clients_total: usize = state.get_clients_iter().len();
    let clients_in_group: usize = state.group_len(&matchmaking_options);
    let welcome: String = welcome_message(clients_total, clients_in_group);
    state.add_client(source, client, matchmaking_options);
    assert(state.membership().dom().contains(*source));
    let total_players: u32 = status_count(state.get_clients_iter().len());
    let group_players: u32 = status_count(state.group_len(state.get_matchmaking_options(source)));
    let mut frames: Vec<Message> = Vec::new();
    frames.push(
        Message::HandshakeResponse(HandshakeResponse { success: true, error_message: None }),
    );
    frames.push(
        Message::OutgoingChatMessage(
            OutgoingChatMessage {
                channel: ChatChannel::Global,
                sender_id: None,
                sender_name: None,
                message: welcome,
            },
        ),
    );
    frames.push(Message::ServerStatusUpdate(ServerStatusUpdate { total_players, group_players }));
    assert(views(frames@) =~= accepted_frames(*old(state), *state, *source, *message));
    frames
}

/// Ends the handshake of a client whose ticket was issued to `steam_id`,
/// given what the identity provider said of its name.
///
/// Where the provider gave a name for the account, the client is connected
/// under that name. Where it gave none, or failed, the client is turned
/// away without a reason, and the state is left alone.
pub fn conclude(
    message: &HandshakeRequest,
    tx: UnboundedSender<Message>,
    source: &PeerAddr,
    state: &mut State,
    steam_id: u64,
    names: Result<HashMap<u64, String>, AuthError>,
) -> (outcome: HandshakeOutcome)
    requires
        old(state).wf(),
    ensures
        match names {
            Ok(known) if known@.contains_key(steam_id) => {
                &&& outcome matches HandshakeOutcome::Accepted { steam_id: account, name, frames }
                &&& account == steam_id
                &&& name == known@[steam_id]
                &&& registered(
                    *old(state),
                    *final(state),
                    *message,
                    tx,
                    *source,
                    steam_id,
                    name,
                    views(frames@),
                )
            },
            _ => {
                &&& outcome matches HandshakeOutcome::Rejected { response }
                &&& response@ == failure_response_view()
                &&& untouched(*old(state), *final(state))
            },
        },
{
    let names: HashMap<u64, String> = match names {
        Ok(names) => names,
        Err(_) => {
            return HandshakeOutcome::Rejected { response: failure_response() };
        },
    };
    let name: String = match player_name(&names, steam_id) {
        Some(name) => name,
        None => {
            return HandshakeOutcome::Rejected { response: failure_response() };
        },
    };
    let frames = register(message, tx, source, state, steam_id, name.clone());
    HandshakeOutcome::Accepted { steam_id, name, frames }
}

/// Runs the handshake of a session against an identity provider.
///
/// A client of another version is turned away unasked. Else the provider
/// is asked for the account of the ticket and then for its name; where it
/// gives both, the client is connected, and else it is turned away without
/// a reason. The state changes only where the client is connected.
pub fn handle_message<AB: AuthBackend>(
    backend: &AB,
    message: &HandshakeRequest,
    tx: UnboundedSender<Message>,
    source: &PeerAddr,
    state: &mut State,
) -> (outcome: HandshakeOutcome)
    requires
        old(state).wf(),
    ensures
        message.version != VERSION ==> outcome is Rejected,
        match outcome {
            HandshakeOutcome::Rejected { response } => {
                &&& untouched(*old(state), *final(state))
                &&& response@ == if message.version != VERSION {
                    outdated_response_view()
                } else {
                    failure_response_view()
                }
            },
            HandshakeOutcome::Accepted { steam_id, name, frames } => {
                &&& message.version == VERSION
                &&& registered(
                    *old(state),
                    *final(state),
                    *message,
                    tx,
                    *source,
                    steam_id,
                    name,
                    views(frames@),
                )
            },
        },
{
    if let Some(response) = check_version(message) {
        return HandshakeOutcome::Rejected { response };
    }
    let ticket = backend.verify_auth_ticket(message.auth_session_ticket.as_slice());
    let ids: Vec<u64> = match ticket_checked(ticket) {
        Ok(ids) => ids,
        Err(response) => {
            return HandshakeOutcome::Rejected { response };
        },
    };
    let names = backend.get_player_names(ids.as_slice());
    conclude(message, tx, source, state, ids[0], names)
}

} // verus!
