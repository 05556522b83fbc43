//! Where the server listens, and what it tells everyone once a minute.

use vstd::prelude::*;
use vstd::string::StringExecFns;

use crate::client::Client;
use crate::handlers::handshake::count_u32;
use crate::messages::{Message, ServerStatusUpdate};
use crate::state::State;
use crate::util::string::{decimal, decimal_text};

verus! {

/// The port that the server listens on unless it is told another.
pub const DEFAULT_PORT: u16 = 16069;

/// Where the server listens.
pub struct Listener {
    pub host: String,
    pub port: u16,
}

impl Default for Listener {
    fn default() -> (listener: Self)
        ensures
            listener.host@ == "0.0.0.0"@,
            listener.port == DEFAULT_PORT,
    {
        Self { host: String::from_str("0.0.0.0"), port: DEFAULT_PORT }
    }
}

impl Listener {
    /// The same listener on another host.
    pub fn host(self, host: String) -> (listener: Self)
        ensures
            listener.host == host,
            listener.port == self.port,
    {
        let mut listener = self;
        listener.host = host;
        listener
    }

    /// The same listener on another port.
    pub fn port(self, port: u16) -> (listener: Self)
        ensures
            listener.host == self.host,
            listener.port == port,
    {
        let mut listener = self;
        listener.port = port;
        listener
    }

    /// The address to bind: host, a colon, and the port in decimal.
    pub fn bind_address(&self) -> (address: String)
        ensures
            address@ == self.host@ + ":"@ + decimal_text(self.port as nat),
    {
        let mut address: String = self.host.clone();
        address.append(":");
        address.append(decimal(self.port as u64).as_str());
        address
    }
}

/// The status update for the client at place `i` of the walk of the
/// directory: how many clients are connected, and how many are in its group.
pub open spec fn status_update_for(state: State, i: int) -> ServerStatusUpdate {
    ServerStatusUpdate {
        total_players: count_u32(state.directory().len()),
        group_players: count_u32(state.group_size(state.membership()[state.addresses()[i]])),
    }
}

/// The status update of every connected client, in the order of the walk
/// of the directory.
pub fn status_updates(state: &State) -> (updates: Vec<(&Client, ServerStatusUpdate)>)
    requires
        state.wf(),
    ensures
        updates@.len() == state.addresses().len(),
        forall|i: int|
            0 <= i < updates@.len() ==> {
                &&& *(#[trigger] updates@[i]).0 == state.all_clients()[i]
                &&& updates@[i].1 == status_update_for(*state, i)
            },
{
    let clients = state.get_clients_iter();
    let total: usize = clients.len();
    let total_players: u32 = ((total as u64) % 0x1_0000_0000) as u32;
    let mut updates: Vec<(&Client, ServerStatusUpdate)> = Vec::new();
    let mut i: usize = 0;
    while i < clients.len()
        invariant
            state.wf(),
            i <= clients@.len(),
            clients@.len() == state.addresses().len(),
            total_players == count_u32(state.directory().len()),
            forall|j: int|
                0 <= j < clients@.len() ==> {
                    &&& *(#[trigger] clients@[j]).0 == state.addresses()[j]
                    &&& state.directory().contains_key(state.addresses()[j])
                    &&& *clients@[j].1 == state.directory()[state.addresses()[j]]
                },
            updates@.len() == i,
            forall|j: int|
                0 <= j < i ==> {
                    &&& *(#[trigger] updates@[j]).0 == state.all_clients()[j]
                    &&& updates@[j].1 == status_update_for(*state, j)
                },
        decreases clients@.len() - i,
    {
        let address = clients[i].0;
        assert(state.directory().dom().contains(*address));
        let group: usize = state.group_len(state.get_matchmaking_options(address));
        let group_players: u32 = ((group as u64) % 0x1_0000_0000) as u32;
        updates.push((clients[i].1, ServerStatusUpdate { total_players, group_players }));
        i = i + 1;
    }
    updates
}

/// Enqueues a status update on the mailbox of every connected client, and
/// says how many mailboxes took it. A mailbox that no longer takes messages
/// is passed over in silence.
pub fn broadcast_server_update(state: &State) -> (enqueued: usize)
    requires
        state.wf(),
    ensures
        enqueued <= state.directory().len(),
{
    let updates = status_updates(state);
    proof {
        state.lemma_addresses();
    }
    let mut enqueued: usize = 0;
    let mut i: usize = 0;
    while i < updates.len()
        invariant
            i <= updates@.len(),
            enqueued <= i,
        decreases updates@.len() - i,
    {
        // A failed send is ignored.
        if updates[i].0.send(Message::ServerStatusUpdate(updates[i].1)).is_ok() {
            enqueued = enqueued + 1;
        }
        i = i + 1;
    }
    enqueued
}

} // verus!
