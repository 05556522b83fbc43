//! Session and state core of a matchmaking server: the wire codec, the shared
//! index of connected clients and their groups, and the message handlers.

pub mod address;
pub mod assoc;
pub mod auth_backend;
pub mod buffer;
pub mod chat;
pub mod client;
pub mod codec;
pub mod encoding;
pub mod handlers;
pub mod listener;
pub mod mailbox;
pub mod math;
pub mod messages;
pub mod payload;
pub mod session;
pub mod state;
pub mod steam;
pub mod util;
pub mod wire;
