//! ptu - the logic of a cross-platform network port management tool.
//!
//! The library turns what the system shows (the `/proc` tables on Linux,
//! the output of `lsof` and `ps` on macOS) into sockets and processes,
//! filters them, and renders the reports of the `list` and `get` commands.

pub mod cli;
pub mod commands;
pub mod laws;
pub mod model;
pub mod number;
pub mod platform;
pub mod text;

pub use crate::model::{
    format_process_table, format_sockets_table, ProcessInfo, Protocol, SocketAddress,
    SocketFilter, SocketInfo, SocketState,
};
