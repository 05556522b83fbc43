//! The identity provider, as the server sees it.

use std::collections::HashMap;
use vstd::prelude::*;

verus! {

/// What an identity provider says went wrong. It is written to the log and
/// never shown to a client.
#[derive(Debug, Clone, PartialEq, Eq)]
pub struct AuthError {
    pub message: String,
}

/// An identity provider.
///
/// Nothing is promised of what an implementation answers: the server is
/// prepared for every answer.
pub trait AuthBackend {
    /// Whether the provider can be used at all. Asked once, before the
    /// server listens.
    fn check_credentials(&self) -> Result<(), AuthError>;

    /// The account that a session ticket was issued to.
    fn verify_auth_ticket(&self, ticket: &[u8]) -> Result<u64, AuthError>;

    /// The display names of accounts. An account without a name is left
    /// out of the map.
    fn get_player_names(&self, ids: &[u64]) -> Result<HashMap<u64, String>, AuthError>;
}

} // verus!
