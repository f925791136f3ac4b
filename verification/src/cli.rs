//! Operator command line: the commands the server binary accepts.
//!
//! Parsing and I/O live in the binary; the library holds the plain shapes
//! the commands decode into.

use vstd::prelude::*;

verus! {

/// Top-level invocation: an optional subcommand and the global flags.
#[derive(Debug)]
pub struct Cli {
    pub command: Option<Commands>,
    /// Database URL; also read from the environment by the binary.
    pub database_url: Option<String>,
    /// RPC listen address.
    pub listen: String,
}

/// Operator subcommands. Without one, the server serves.
#[derive(Debug)]
pub enum Commands {
    /// User management.
    User { action: UserCommands },
    /// API key management.
    Key { action: KeyCommands },
    /// Run migrations.
    Migrate,
    /// Start the server.
    Serve,
}

/// User management actions.
#[derive(Debug)]
pub enum UserCommands {
    /// Create a new user.
    Create { username: String },
    /// List all users.
    List,
}

/// API key management actions.
#[derive(Debug)]
pub enum KeyCommands {
    /// Create a new API key for a user.
    Create { user: String, name: String },
    /// List API keys for a user.
    List { user: String },
    /// Revoke an API key.
    Revoke { key: String },
}

} // verus!
