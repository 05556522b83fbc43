//! A client has written to a chat channel.

use vstd::prelude::*;

use crate::address::PeerAddr;
use crate::chat::ChatChannel;
use crate::client::Client;
use crate::handlers::HandlerError;
use crate::messages::{
    IncomingChatMessage, Message, OutgoingChatMessage, OutgoingChatMessageView,
};
use crate::state::{dereferenced, State};
use crate::util::string::{trim, trimmed, truncate, truncated};

verus! {

/// The most characters of a chat message that are passed on.
pub const MAX_CHAT_CHARS: usize = 100;

/// What is passed on of a chat message: the text without the whitespace
/// around it, cut to `MAX_CHAT_CHARS` characters.
pub open spec fn chat_body(text: Seq<char>) -> Seq<char> {
    truncated(trimmed(text), MAX_CHAT_CHARS as nat)
}

/// A chat message on its way: what is sent, and to whom.
pub struct Delivery<'a> {
    pub message: OutgoingChatMessage,
    pub recipients: Vec<&'a Client>,
}

/// What is sent for `text` on `channel` by `sender`.
pub open spec fn outgoing(channel: ChatChannel, sender: Client, text: Seq<char>)
    -> OutgoingChatMessageView {
    OutgoingChatMessageView {
        channel,
        sender_id: Some(sender.steam_id),
        sender_name: Some(sender.name@),
        message: chat_body(text),
    }
}

/// Who receives a message of the client at `source` on `channel`: on
/// `Global` every connected client, on `Group` the members of the sender's
/// group. The sender is among them either way.
pub open spec fn recipients(state: State, source: PeerAddr, channel: ChatChannel) -> Seq<Client> {
    if channel is Global {
        state.all_clients()
    } else {
        state.group_clients(state.membership()[source])
    }
}

/// Decides what a chat message leads to, and sends nothing.
///
/// A message that is empty once trimmed is dropped (`Ok(None)`), whoever
/// sent it and on whatever channel. Else the sender must be connected, and
/// the channel must be `Global` or `Group`.
pub fn plan_delivery<'a>(
    message: &IncomingChatMessage,
    source: &PeerAddr,
    state: &'a State,
) -> (result: Result<Option<Delivery<'a>>, HandlerError>)
    requires
        state.wf(),
    ensures
        match result {
            Ok(None) => chat_body(message.message@).len() == 0,
            Ok(Some(delivery)) => {
                &&& chat_body(message.message@).len() > 0
                &&& state.directory().contains_key(*source)
                &&& !(message.channel is Local)
                &&& delivery.message@ == outgoing(
                    message.channel,
                    state.directory()[*source],
                    message.message@,
                )
                &&& dereferenced(delivery.recipients@) == recipients(
                    *state,
                    *source,
                    message.channel,
                )
            },
            Err(error) => {
                &&& chat_body(message.message@).len() > 0
                &&& if state.directory().contains_key(*source) {
                    error == HandlerError::UnexpectedChannel && message.channel is Local
                } else {
                    error == HandlerError::ClientNotFound
                }
            },
        },
{
    let trimmed_message: &str = truncate(trim(message.message.as_str()), MAX_CHAT_CHARS);
    if trimmed_message.is_empty() {
        return Ok(None);
    }
    let client: &Client = match state.get_client(source) {
        Some(client) => client,
        None => {
            return Err(HandlerError::ClientNotFound);
        },
    };
    let mut target_clients: Vec<&Client> = Vec::new();
    match message.channel {
        ChatChannel::Global => {
            let all = state.get_clients_iter();
            let mut i: usize = 0;
            while i < all.len()
                invariant
                    i <= all@.len(),
                    all@.len() == state.addresses().len(),
                    forall|j: int|
                        0 <= j < all@.len() ==> *(#[trigger] all@[j]).1
                            == state.directory()[state.addresses()[j]],
                    target_clients@.len() == i,
                    forall|j: int|
                        0 <= j < i ==> *(#[trigger] target_clients@[j]) == state.all_clients()[j],
                decreases all@.len() - i,
            {
                target_clients.push(all[i].1);
                i = i + 1;
            }
            assert(dereferenced(target_clients@) =~= state.all_clients());
        },
        ChatChannel::Group => {
            assert(state.directory().dom().contains(*source));
            target_clients = state.get_clients_in_group(state.get_matchmaking_options(source));
        },
        _ => {
            return Err(HandlerError::UnexpectedChannel);
        },
    }
    let outgoing_chat_message = OutgoingChatMessage {
        channel: message.channel,
        message: trimmed_message.to_owned(),
        sender_id: Some(client.steam_id),
        sender_name: Some(client.name.clone()),
    };
    Ok(Some(Delivery { message: outgoing_chat_message, recipients: target_clients }))
}

/// Whether a chat message is handled without error: it is when it is
/// dropped as empty, or when its sender is connected and its channel is
/// one that clients may write to. Else the error says which of the two
/// failed, the sender first.
pub open spec fn handled(
    state: State,
    message: IncomingChatMessage,
    source: PeerAddr,
    result: Result<(), HandlerError>,
) -> bool {
    match result {
        Ok(_) => chat_body(message.message@).len() == 0 || (state.directory().contains_key(source)
            && !(message.channel is Local)),
        Err(error) => {
            &&& chat_body(message.message@).len() > 0
            &&& if state.directory().contains_key(source) {
                error == HandlerError::UnexpectedChannel && message.channel is Local
            } else {
                error == HandlerError::ClientNotFound
            }
        },
    }
}

/// Passes a chat message on to the mailboxes of those who receive it.
///
/// A mailbox that no longer takes messages is passed over in silence: its
/// session is on its way out.
pub fn handle_message(message: &IncomingChatMessage, source: &PeerAddr, state: &State) -> (result:
    Result<(), HandlerError>)
    requires
        state.wf(),
    ensures
        handled(*state, *message, *source, result),
{
    match plan_delivery(message, source, state) {
        Ok(Some(delivery)) => {
            let mut i: usize = 0;
            while i < delivery.recipients.len()
                invariant
                    i <= delivery.recipients@.len(),
                decreases delivery.recipients@.len() - i,
            {
                // A failed send is ignored.
                let _ = delivery.recipients[i].send(
                    Message::OutgoingChatMessage(delivery.message.clone()),
                );
                i = i + 1;
            }
            Ok(())
        },
        Ok(None) => Ok(()),
        Err(error) => Err(error),
    }
}

} // verus!
