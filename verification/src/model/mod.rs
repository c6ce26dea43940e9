//! Data structures and output formatting.

pub mod output;
pub mod types;

pub use output::{format_process_table, format_sockets_table};
pub use types::{ProcessInfo, Protocol, SocketAddress, SocketFilter, SocketInfo, SocketState};
