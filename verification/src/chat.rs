//! Chat channels.

use vstd::prelude::*;

verus! {

/// Where a chat message is addressed. Clients may write to `Global` and to
/// `Group` only.
#[derive(Debug, Clone, Copy, PartialEq, Eq, Structural)]
pub enum ChatChannel {
    Global,
    Group,
    Local,
}

} // verus!
