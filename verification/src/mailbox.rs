//! The outbound mailbox of a session.
//!
//! A mailbox is the sending half of an unbounded `tokio` channel; the session
//! that owns the receiving half writes what arrives to its socket. Verus does
//! not look inside either type.

use tokio::sync::mpsc::error::SendError;
use tokio::sync::mpsc::UnboundedSender;
use vstd::prelude::*;

use crate::messages::Message;

verus! {

/// `tokio::sync::mpsc::UnboundedSender`, as a type whose inside is not
/// looked at.
#[verifier::external_type_specification]
#[verifier::external_body]
#[verifier::reject_recursive_types(T)]
pub struct ExUnboundedSender<T>(UnboundedSender<T>);

/// `tokio::sync::mpsc::error::SendError`, as a type whose inside is not
/// looked at.
#[verifier::external_type_specification]
#[verifier::external_body]
#[verifier::reject_recursive_types(T)]
pub struct ExSendError<T>(SendError<T>);

/// `UnboundedSender::send`: enqueues `message` without waiting. Whether it
/// succeeds depends on whether the receiving half is still open, which no
/// contract can say, so nothing is promised of the result.
#[verifier::external_body]
pub(crate) fn enqueue(tx: &UnboundedSender<Message>, message: Message) -> (result: Result<
    (),
    SendError<Message>,
>) {
    tx.send(message)
}

} // verus!
