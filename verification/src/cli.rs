//! The command surface of the client, as plain data. The binary derives its
//! argument parser from a mirror of these types and converts into them.
use vstd::prelude::*;

use crate::registry::ServerCommand;
use crate::session::ConnectArgs;

verus! {

/// One parsed invocation of the client.
pub struct Cli {
    pub command: Command,
}

/// The top-level subcommands.
pub enum Command {
    /// Connect to a known server.
    Connect(ConnectArgs),
    /// Manage known servers.
    Server { command: ServerCommand },
}

} // verus!
