//! Platform-specific socket and process discovery.
//!
//! What the system shows (the contents of `/proc` on Linux, the output of
//! `lsof` and `ps` on macOS) is read by the caller into a snapshot; the
//! functions here turn a snapshot into sockets and processes.

pub mod common;
pub mod linux;
pub mod macos;

pub use common::PlatformError;

use crate::model::types::{ProcessInfo, SocketFilter, FilterView, SocketInfo, SocketView, ProcessView};
use common::{process_result, sockets_result, ErrorView};
use linux::{linux_process, linux_sockets, LinuxSnapshot};
use macos::{mac_process, mac_sockets, MacSnapshot};
use vstd::prelude::*;

verus! {

/// What the system showed, on the platform it runs.
pub enum SystemSnapshot {
    /// Linux: the contents of `/proc`.
    Linux(LinuxSnapshot),
    /// macOS: the output of `lsof` and `ps`.
    MacOs(MacSnapshot),
}

/// The outcome of listing sockets on the snapshot's platform.
pub open spec fn platform_sockets(snap: SystemSnapshot, f: FilterView) -> Result<Seq<SocketView>, ErrorView> {
    match snap {
        SystemSnapshot::Linux(s) => linux_sockets(s, f),
        SystemSnapshot::MacOs(s) => mac_sockets(s, f),
    }
}

/// The outcome of asking about a process on the snapshot's platform.
pub open spec fn platform_process(pid: u32, snap: SystemSnapshot) -> Result<ProcessView, ErrorView> {
    match snap {
        SystemSnapshot::Linux(s) => linux_process(pid, s),
        SystemSnapshot::MacOs(s) => mac_process(pid, s),
    }
}

/// Gets the sockets that the filter admits, for the current platform.
pub fn get_sockets(filter: &SocketFilter, snap: &SystemSnapshot) -> (r: Result<Vec<SocketInfo>, PlatformError>)
    ensures
        sockets_result(r) == platform_sockets(*snap, filter@),
{
    match snap {
        SystemSnapshot::Linux(s) => linux::get_sockets(filter, s),
        SystemSnapshot::MacOs(s) => macos::get_sockets(filter, s),
    }
}

/// Gets process information by PID, for the current platform.
pub fn get_process_info(pid: u32, snap: &SystemSnapshot) -> (r: Result<ProcessInfo, PlatformError>)
    ensures
        process_result(r) == platform_process(pid, *snap),
{
    match snap {
        SystemSnapshot::Linux(s) => linux::get_process_info(pid, s),
        SystemSnapshot::MacOs(s) => macos::get_process_info(pid, s),
    }
}

} // verus!
