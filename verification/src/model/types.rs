//! Core data structures and their mathematical models.

use crate::number::{decimal, push_decimal};
use crate::text::push_str;
use vstd::prelude::*;

verus! {

broadcast use vstd::string::group_string_axioms;

/// Socket protocol type.
#[derive(Debug, Clone, Copy, PartialEq, Eq, Structural)]
pub enum Protocol {
    /// Transmission Control Protocol over IPv4
    Tcp,
    /// Transmission Control Protocol over IPv6
    Tcp6,
    /// User Datagram Protocol over IPv4
    Udp,
    /// User Datagram Protocol over IPv6
    Udp6,
}

/// The text that names a protocol in tables and reports.
pub open spec fn protocol_text(p: Protocol) -> Seq<char> {
    match p {
        Protocol::Tcp => "TCP"@,
        Protocol::Tcp6 => "TCP6"@,
        Protocol::Udp => "UDP"@,
        Protocol::Udp6 => "UDP6"@,
    }
}

/// TCP over IPv4 or IPv6.
pub open spec fn is_tcp_family(p: Protocol) -> bool {
    p == Protocol::Tcp || p == Protocol::Tcp6
}

/// UDP over IPv4 or IPv6.
pub open spec fn is_udp_family(p: Protocol) -> bool {
    p == Protocol::Udp || p == Protocol::Udp6
}

impl Protocol {
    /// The display text: `TCP`, `TCP6`, `UDP` or `UDP6`.
    pub fn to_string(&self) -> (s: String)
        ensures
            s@ == protocol_text(*self),
    {
        match self {
            Protocol::Tcp => "TCP".to_string(),
            Protocol::Tcp6 => "TCP6".to_string(),
            Protocol::Udp => "UDP".to_string(),
            Protocol::Udp6 => "UDP6".to_string(),
        }
    }

    /// Whether this is TCP (over IPv4 or IPv6).
    pub fn is_tcp(&self) -> (b: bool)
        ensures
            b == is_tcp_family(*self),
    {
        match self {
            Protocol::Tcp | Protocol::Tcp6 => true,
            _ => false,
        }
    }

    /// Whether this is UDP (over IPv4 or IPv6).
    pub fn is_udp(&self) -> (b: bool)
        ensures
            b == is_udp_family(*self),
    {
        match self {
            Protocol::Udp | Protocol::Udp6 => true,
            _ => false,
        }
    }

    /// Whether two protocols are the same.
    pub fn same_as(&self, other: &Protocol) -> (b: bool)
        ensures
            b == (*self == *other),
    {
        match (self, other) {
            (Protocol::Tcp, Protocol::Tcp) => true,
            (Protocol::Tcp6, Protocol::Tcp6) => true,
            (Protocol::Udp, Protocol::Udp) => true,
            (Protocol::Udp6, Protocol::Udp6) => true,
            _ => false,
        }
    }
}

/// Socket connection state.
///
/// Represents the state of a TCP socket connection according to the TCP state machine.
/// UDP sockets are always in the `Unknown` state as they are connectionless.
#[derive(Debug, Clone, Copy, PartialEq, Eq, Structural)]
pub enum SocketState {
    /// Connection is established and data can be transferred
    Established,
    /// SYN sent, waiting for ACK
    SynSent,
    /// SYN received, waiting for ACK
    SynRecv,
    /// Connection is closing, waiting for remote FIN ACK
    FinWait1,
    /// Connection is closing, waiting for remote FIN
    FinWait2,
    /// Connection is closed, waiting for 2MSL timeout
    TimeWait,
    /// Connection is closed
    Close,
    /// Remote side has closed, waiting for application to close
    CloseWait,
    /// Waiting for last ACK
    LastAck,
    /// Socket is listening for incoming connections
    Listen,
    /// Both sides have closed simultaneously
    Closing,
    /// Unknown state (used for UDP or other protocols)
    Unknown,
}

/// The text that names a socket state in tables and reports.
pub open spec fn state_text(s: SocketState) -> Seq<char> {
    match s {
        SocketState::Established => "ESTABLISHED"@,
        SocketState::SynSent => "SYN_SENT"@,
        SocketState::SynRecv => "SYN_RECV"@,
        SocketState::FinWait1 => "FIN_WAIT1"@,
        SocketState::FinWait2 => "FIN_WAIT2"@,
        SocketState::TimeWait => "TIME_WAIT"@,
        SocketState::Close => "CLOSE"@,
        SocketState::CloseWait => "CLOSE_WAIT"@,
        SocketState::LastAck => "LAST_ACK"@,
        SocketState::Listen => "LISTEN"@,
        SocketState::Closing => "CLOSING"@,
        SocketState::Unknown => "UNKNOWN"@,
    }
}

impl SocketState {
    /// The display text, such as `LISTEN` or `SYN_SENT`.
    pub fn to_string(&self) -> (s: String)
        ensures
            s@ == state_text(*self),
    {
        match self {
            SocketState::Established => "ESTABLISHED".to_string(),
            SocketState::SynSent => "SYN_SENT".to_string(),
            SocketState::SynRecv => "SYN_RECV".to_string(),
            SocketState::FinWait1 => "FIN_WAIT1".to_string(),
            SocketState::FinWait2 => "FIN_WAIT2".to_string(),
            SocketState::TimeWait => "TIME_WAIT".to_string(),
            SocketState::Close => "CLOSE".to_string(),
            SocketState::CloseWait => "CLOSE_WAIT".to_string(),
            SocketState::LastAck => "LAST_ACK".to_string(),
            SocketState::Listen => "LISTEN".to_string(),
            SocketState::Closing => "CLOSING".to_string(),
            SocketState::Unknown => "UNKNOWN".to_string(),
        }
    }

    /// Whether this is the `Listen` state.
    pub fn is_listen(&self) -> (b: bool)
        ensures
            b == (*self == SocketState::Listen),
    {
        match self {
            SocketState::Listen => true,
            _ => false,
        }
    }
}

/// Network address (IP and port).
///
/// The IP address can be IPv4, IPv6, or a wildcard (0.0.0.0).
#[derive(Debug, Clone, PartialEq, Eq)]
pub struct SocketAddress {
    /// IP address (IPv4, IPv6, or wildcard like 0.0.0.0)
    pub ip: String,
    /// Port number
    pub port: u16,
}

/// The model of a [`SocketAddress`].
pub struct AddressView {
    pub ip: Seq<char>,
    pub port: u16,
}

impl View for SocketAddress {
    type V = AddressView;

    open spec fn view(&self) -> AddressView {
        AddressView { ip: self.ip@, port: self.port }
    }
}

/// `ip:port`, the text of an address in tables and reports.
pub open spec fn address_text(a: AddressView) -> Seq<char> {
    a.ip + ":"@ + decimal(a.port as nat)
}

impl SocketAddress {
    /// The display text `ip:port`.
    pub fn to_string(&self) -> (s: String)
        ensures
            s@ == address_text(self@),
    {
        let mut s = String::new();
        push_str(&mut s, self.ip.as_str());
        push_str(&mut s, ":");
        push_decimal(&mut s, self.port as u64);
        assert(Seq::<char>::empty() + self.ip@ + ":"@ + decimal(self.port as nat) =~= address_text(
            self@,
        ));
        s
    }
}

/// Information about a network socket.
#[derive(Debug, Clone)]
pub struct SocketInfo {
    /// Protocol type (TCP/UDP over IPv4/IPv6)
    pub protocol: Protocol,
    /// Local address (IP and port)
    pub local_address: SocketAddress,
    /// Remote address (IP and port), None for listening sockets
    pub remote_address: Option<SocketAddress>,
    /// Socket state (e.g., LISTEN, ESTABLISHED)
    pub state: SocketState,
    /// Process ID that owns this socket, if available
    pub pid: Option<u32>,
    /// Process name, if available
    pub process_name: Option<String>,
    /// Full command line of the process, if available
    pub command_line: Option<String>,
}

/// The view of an optional address.
pub open spec fn opt_address(a: Option<SocketAddress>) -> Option<AddressView> {
    match a {
        Some(x) => Some(x@),
        None => None,
    }
}

/// The view of an optional text.
pub open spec fn opt_text(t: Option<String>) -> Option<Seq<char>> {
    match t {
        Some(x) => Some(x@),
        None => None,
    }
}

/// The model of a [`SocketInfo`].
pub struct SocketView {
    pub protocol: Protocol,
    pub local: AddressView,
    pub remote: Option<AddressView>,
    pub state: SocketState,
    pub pid: Option<u32>,
    pub process_name: Option<Seq<char>>,
    pub command_line: Option<Seq<char>>,
}

impl View for SocketInfo {
    type V = SocketView;

    open spec fn view(&self) -> SocketView {
        SocketView {
            protocol: self.protocol,
            local: self.local_address@,
            remote: opt_address(self.remote_address),
            state: self.state,
            pid: self.pid,
            process_name: opt_text(self.process_name),
            command_line: opt_text(self.command_line),
        }
    }
}

/// The views of a sequence of sockets.
pub open spec fn socket_views(s: Seq<SocketInfo>) -> Seq<SocketView> {
    s.map_values(|x: SocketInfo| x@)
}

/// Information about a process and its open sockets.
#[derive(Debug, Clone)]
pub struct ProcessInfo {
    /// Process ID
    pub pid: u32,
    /// Process name
    pub name: String,
    /// Full command line used to start the process, if available
    pub command_line: Option<String>,
    /// All network sockets opened by this process
    pub sockets: Vec<SocketInfo>,
}

/// The model of a [`ProcessInfo`].
pub struct ProcessView {
    pub pid: u32,
    pub name: Seq<char>,
    pub command_line: Option<Seq<char>>,
    pub sockets: Seq<SocketView>,
}

impl View for ProcessInfo {
    type V = ProcessView;

    open spec fn view(&self) -> ProcessView {
        ProcessView {
            pid: self.pid,
            name: self.name@,
            command_line: opt_text(self.command_line),
            sockets: socket_views(self.sockets@),
        }
    }
}

/// Filter options for listing sockets.
///
/// All fields are optional; sockets must match all specified filters.
#[derive(Debug, Clone)]
pub struct SocketFilter {
    /// Protocols to include (None means all protocols)
    pub protocols: Option<Vec<Protocol>>,
    /// Only show sockets in LISTEN state
    pub listen_only: bool,
    /// Filter by process ID (None means all processes)
    pub pid: Option<u32>,
    /// Filter by port number (None means all ports)
    pub port: Option<u16>,
}

/// The model of a [`SocketFilter`].
pub struct FilterView {
    pub protocols: Option<Seq<Protocol>>,
    pub listen_only: bool,
    pub pid: Option<u32>,
    pub port: Option<u16>,
}

impl View for SocketFilter {
    type V = FilterView;

    open spec fn view(&self) -> FilterView {
        FilterView {
            protocols: match self.protocols {
                Some(v) => Some(v@),
                None => None,
            },
            listen_only: self.listen_only,
            pid: self.pid,
            port: self.port,
        }
    }
}

impl Default for SocketFilter {
    /// The filter that lets every socket through.
    fn default() -> (f: SocketFilter)
        ensures
            f.protocols is None,
            !f.listen_only,
            f.pid is None,
            f.port is None,
    {
        SocketFilter { protocols: None, listen_only: false, pid: None, port: None }
    }
}

/// The socket passes the listen, PID and port parts of a filter.
pub open spec fn passes_filter(f: FilterView, s: SocketView) -> bool {
    &&& f.listen_only ==> s.state == SocketState::Listen
    &&& f.pid matches Some(p) ==> s.pid == Some(p)
    &&& f.port matches Some(p) ==> (s.local.port == p || (s.remote matches Some(r) && r.port
        == p))
}

/// The sockets of `s` that pass the filter, in their order.
pub open spec fn filter_sockets(f: FilterView, s: Seq<SocketView>) -> Seq<SocketView>
    decreases s.len(),
{
    if s.len() == 0 {
        seq![]
    } else {
        let init = filter_sockets(f, s.drop_last());
        if passes_filter(f, s.last()) {
            init.push(s.last())
        } else {
            init
        }
    }
}

/// Whether the socket passes the listen, PID and port parts of the filter.
pub fn socket_passes(f: &SocketFilter, s: &SocketInfo) -> (b: bool)
    ensures
        b == passes_filter(f@, s@),
{
    if f.listen_only && !s.state.is_listen() {
        return false;
    }
    if let Some(p) = f.pid {
        match s.pid {
            Some(q) => {
                if q != p {
                    return false;
                }
            },
            None => {
                return false;
            },
        }
    }
    if let Some(p) = f.port {
        if s.local_address.port != p {
            match &s.remote_address {
                Some(r) => {
                    if r.port != p {
                        return false;
                    }
                },
                None => {
                    return false;
                },
            }
        }
    }
    true
}


/// The filter's protocols, if it names any, include `p`.
pub open spec fn protocol_admitted(f: FilterView, p: Protocol) -> bool {
    match f.protocols {
        Some(ps) => ps.contains(p),
        None => true,
    }
}

/// The sockets of `s` whose protocol the filter admits, in their order.
pub open spec fn admit_protocols(f: FilterView, s: Seq<SocketView>) -> Seq<SocketView>
    decreases s.len(),
{
    if s.len() == 0 {
        seq![]
    } else {
        let init = admit_protocols(f, s.drop_last());
        if protocol_admitted(f, s.last().protocol) {
            init.push(s.last())
        } else {
            init
        }
    }
}

/// Whether the filter admits protocol `p`: it names no protocols, or names `p`.
pub fn filter_admits(f: &SocketFilter, p: Protocol) -> (b: bool)
    ensures
        b == protocol_admitted(f@, p),
{
    match &f.protocols {
        None => true,
        Some(v) => {
            let mut i: usize = 0;
            while i < v.len()
                invariant
                    f.protocols matches Some(w) && w@ == v@,
                    i <= v@.len(),
                    forall|j: int| 0 <= j < i ==> v@[j] != p,
                decreases v@.len() - i,
            {
                if v[i].same_as(&p) {
                    assert(v@[i as int] == p);
                    return true;
                }
                i = i + 1;
            }
            false
        },
    }
}

} // verus!
