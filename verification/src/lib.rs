//! Multi-user SSH session broker core: scrollback log, broadcast hub,
//! record store, and session lifecycle, with verified contracts.

pub mod api;
pub mod bridge;
pub mod cli;
pub mod crypto;
pub mod hub;
pub mod manager;
pub mod models;
pub mod scrollback;

use vstd::prelude::*;

verus! {

/// Error taxonomy shared across the broker core.
///
/// `Database` covers store failures, `Auth` covers identity and ownership
/// failures, `Ssh` covers transport failures reported by the SSH layer,
/// `Session` covers lifecycle violations, `Config` and `Io` cover bootstrap
/// failures at the edges.
#[derive(Debug, Clone)]
pub enum HiveError {
    Database(String),
    Auth(String),
    Ssh(String),
    Session(String),
    Config(String),
    Io(String),
}

impl HiveError {
    /// True for ownership or identity failures.
    pub fn is_auth(&self) -> (r: bool)
        ensures
            r == self is Auth,
    {
        match self {
            HiveError::Auth(_) => true,
            _ => false,
        }
    }
}

} // verus!
