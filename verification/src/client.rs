//! A connected client.

use tokio::sync::mpsc::error::SendError;
use tokio::sync::mpsc::UnboundedSender;
use vstd::prelude::*;
use vstd::string::StringExecFns;

use crate::mailbox::enqueue;
use crate::math::Vector2;
use crate::messages::Message;
use crate::util::string::{decimal, decimal_text};

verus! {

/// The protocol version that a client must speak.
pub const VERSION: u32 = 2;

/// One connected, authenticated player.
pub struct Client {
    pub tx: UnboundedSender<Message>,
    pub steam_id: u64,
    pub name: String,
    pub position: Vector2,
}

impl Client {
    /// A client with the mailbox `tx`.
    pub fn new(tx: UnboundedSender<Message>, steam_id: u64, name: String, position: Vector2) -> (client:
        Self)
        ensures
            client.steam_id == steam_id,
            client.name == name,
            client.position == position,
            client.tx == tx,
    {
        Self { tx, steam_id, name, position }
    }

    /// The client in words, for the log: its name and its account.
    pub fn description(&self) -> (text: String)
        ensures
            text@ == "("@ + self.name@ + ", "@ + decimal_text(self.steam_id as nat) + ")"@,
    {
        let mut text: String = String::from_str("(");
        text.append(self.name.as_str());
        text.append(", ");
        text.append(decimal(self.steam_id).as_str());
        text.append(")");
        text
    }

    /// Enqueues `message` on the client's mailbox. It fails when the session
    /// that owns the mailbox is gone; the message comes back in the error.
    pub fn send(&self, message: Message) -> (result: Result<(), SendError<Message>>) {
        enqueue(&self.tx, message)
    }
}

} // verus!
