//! Command-line interface: the commands and their options.

use vstd::prelude::*;

verus! {

/// ptu - A cross-platform network port management tool.
#[derive(Debug)]
pub struct Cli {
    /// Output in JSON format
    pub json: bool,
    /// Subcommand to execute (list or get)
    pub command: Commands,
}

/// Available subcommands for ptu.
#[derive(Debug)]
pub enum Commands {
    /// List network sockets with various filters
    List(ListOptions),
    /// Get detailed information about a specific port or process
    Get(GetCommands),
}

/// Options for the list command.
#[derive(Debug, Clone)]
pub struct ListOptions {
    /// Show only TCP sockets
    pub tcp: bool,
    /// Show only UDP sockets
    pub udp: bool,
    /// Show only listening sockets
    pub listen: bool,
    /// Filter by process ID
    pub pid: Option<u32>,
    /// Filter by port number
    pub port: Option<u16>,
    /// Show IPv4 sockets
    pub ipv4: bool,
    /// Show IPv6 sockets
    pub ipv6: bool,
}

/// Get command subcommands.
#[derive(Debug)]
pub enum GetCommands {
    /// Get information about a specific port
    Port {
        /// Port number to query
        port: u16,
        /// Show process details including command line (the report gives
        /// each owner's PID, name and command line whether or not this is set)
        verbose: bool,
    },
    /// Get information about a specific process
    Pid {
        /// Process ID to query
        pid: u32,
    },
}

} // verus!
