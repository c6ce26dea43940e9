//! What both platforms share: errors, snapshots and the protocol selection.

use crate::model::types::{
    is_tcp_family, is_udp_family, socket_views, ProcessInfo, ProcessView, Protocol, SocketFilter, FilterView,
    SocketInfo, SocketView,
};
use vstd::prelude::*;

verus! {

/// Why sockets or process information could not be obtained.
#[derive(Debug)]
pub enum PlatformError {
    /// `/proc/net` does not exist.
    ProcNetUnavailable,
    /// `/proc/<pid>` does not exist.
    ProcessNotFound(u32),
    /// `/proc/<pid>/comm` could not be read.
    CommUnreadable(u32),
    /// `lsof` could not be executed.
    LsofNotRunnable,
    /// `lsof` exited with a failure; its standard error.
    LsofFailed(String),
}

/// The model of a [`PlatformError`].
pub enum ErrorView {
    ProcNetUnavailable,
    ProcessNotFound(u32),
    CommUnreadable(u32),
    LsofNotRunnable,
    LsofFailed(Seq<char>),
}

impl View for PlatformError {
    type V = ErrorView;

    open spec fn view(&self) -> ErrorView {
        match self {
            PlatformError::ProcNetUnavailable => ErrorView::ProcNetUnavailable,
            PlatformError::ProcessNotFound(p) => ErrorView::ProcessNotFound(*p),
            PlatformError::CommUnreadable(p) => ErrorView::CommUnreadable(*p),
            PlatformError::LsofNotRunnable => ErrorView::LsofNotRunnable,
            PlatformError::LsofFailed(s) => ErrorView::LsofFailed(s@),
        }
    }
}

/// The view of a listing outcome.
pub open spec fn sockets_result(r: Result<Vec<SocketInfo>, PlatformError>) -> Result<Seq<SocketView>, ErrorView> {
    match r {
        Ok(v) => Ok(socket_views(v@)),
        Err(e) => Err(e@),
    }
}

/// The view of a process outcome.
pub open spec fn process_result(r: Result<ProcessInfo, PlatformError>) -> Result<ProcessView, ErrorView> {
    match r {
        Ok(p) => Ok(p@),
        Err(e) => Err(e@),
    }
}

/// The view of an optional socket.
pub open spec fn opt_socket(s: Option<SocketInfo>) -> Option<SocketView> {
    match s {
        Some(x) => Some(x@),
        None => None,
    }
}

/// The filter that keeps the sockets of process `pid`.
pub open spec fn pid_filter(pid: u32) -> FilterView {
    FilterView { protocols: None, listen_only: false, pid: Some(pid), port: None }
}

/// Makes the filter that keeps the sockets of process `pid`.
pub fn make_pid_filter(pid: u32) -> (f: SocketFilter)
    ensures
        f@ == pid_filter(pid),
{
    SocketFilter { protocols: None, listen_only: false, pid: Some(pid), port: None }
}

pub proof fn lemma_socket_views_push(s: Seq<SocketInfo>, x: SocketInfo)
    ensures
        socket_views(s.push(x)) == socket_views(s).push(x@),
{
    assert(socket_views(s.push(x)) =~= socket_views(s).push(x@));
}

/// The views of sockets appended to sockets.
pub proof fn lemma_socket_views_add(a: Seq<SocketInfo>, b: Seq<SocketInfo>)
    ensures
        socket_views(a + b) == socket_views(a) + socket_views(b),
{
    assert(socket_views(a + b) =~= socket_views(a) + socket_views(b));
}

/// The filter admits some TCP protocol (or names no protocols at all).
pub open spec fn wants_tcp(protocols: Option<Seq<Protocol>>) -> bool {
    match protocols {
        None => true,
        Some(v) => names_tcp(v),
    }
}

/// Some protocol of `v` is a TCP protocol.
pub open spec fn names_tcp(v: Seq<Protocol>) -> bool {
    exists|i: int| 0 <= i < v.len() && is_tcp_family(#[trigger] v[i])
}

/// The filter admits some UDP protocol (or names no protocols at all).
pub open spec fn wants_udp(protocols: Option<Seq<Protocol>>) -> bool {
    match protocols {
        None => true,
        Some(v) => names_udp(v),
    }
}

/// Some protocol of `v` is a UDP protocol.
pub open spec fn names_udp(v: Seq<Protocol>) -> bool {
    exists|i: int| 0 <= i < v.len() && is_udp_family(#[trigger] v[i])
}

/// Whether TCP sockets are to be gathered for this filter.
pub fn filter_wants_tcp(filter: &SocketFilter) -> (b: bool)
    ensures
        b == wants_tcp(filter@.protocols),
{
    match &filter.protocols {
        None => true,
        Some(v) => {
            let mut i: usize = 0;
            while i < v.len()
                invariant
                    filter.protocols matches Some(w) && w@ == v@,
                    i <= v@.len(),
                    forall|j: int| 0 <= j < i ==> !is_tcp_family(#[trigger] v@[j]),
                decreases v@.len() - i,
            {
                if v[i].is_tcp() {
                    assert(is_tcp_family(v@[i as int]));
                    return true;
                }
                i = i + 1;
            }
            false
        },
    }
}

/// Whether UDP sockets are to be gathered for this filter.
pub fn filter_wants_udp(filter: &SocketFilter) -> (b: bool)
    ensures
        b == wants_udp(filter@.protocols),
{
    match &filter.protocols {
        None => true,
        Some(v) => {
            let mut i: usize = 0;
            while i < v.len()
                invariant
                    filter.protocols matches Some(w) && w@ == v@,
                    i <= v@.len(),
                    forall|j: int| 0 <= j < i ==> !is_udp_family(#[trigger] v@[j]),
                decreases v@.len() - i,
            {
                if v[i].is_udp() {
                    assert(is_udp_family(v@[i as int]));
                    return true;
                }
                i = i + 1;
            }
            false
        },
    }
}

} // verus!
