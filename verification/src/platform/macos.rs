//! macOS: sockets and processes from the output of `lsof` and `ps`.

use crate::model::types::{
    filter_admits, is_tcp_family, opt_text, protocol_admitted, opt_address, passes_filter, socket_passes, socket_views, AddressView,
    FilterView, ProcessInfo, ProcessView, Protocol, SocketAddress, SocketFilter, SocketInfo,
    SocketState, SocketView,
};
use crate::number::{decimal, parse_bounded, parse_u16_chars, parse_u32_chars};
use crate::platform::common::{
    filter_wants_tcp, filter_wants_udp, lemma_socket_views_add, lemma_socket_views_push,
    make_pid_filter, opt_socket, pid_filter, process_result, sockets_result, wants_tcp, wants_udp,
    ErrorView, PlatformError,
};
use crate::text::{
    chars_eq, chars_of, contains, contains_chars, find_char, find_chars, is_first, is_last, lines,
    lines_chars, occurs_at, rfind_char, slice_chars, split_ws, split_ws_chars, starts_with,
    starts_with_chars, string_of, trim, trim_chars, views,
};
use vstd::prelude::*;

verus! {

broadcast use vstd::string::group_string_axioms;

// ---------------------------------------------------------------------------
// Addresses as lsof writes them
// ---------------------------------------------------------------------------

/// The port text `s` read as a decimal port, 0 where it is not one.
pub open spec fn port_or_zero(s: Seq<char>) -> u16 {
    match parse_bounded(s, 10, 0xffff) {
        Some(p) => p as u16,
        None => 0,
    }
}

/// An address as lsof writes it: `*`, `[IPv6]:port` or `ip:port`
/// (`*` standing for all interfaces, written `0.0.0.0`).
pub open spec fn lsof_address(text: Seq<char>) -> Option<AddressView> {
    let a = trim(text);
    if a == "*"@ {
        Some(AddressView { ip: "0.0.0.0"@, port: 0 })
    } else if a.len() > 0 && a[0] == '[' && exists|k: int| is_first(a, ']', k) {
        let k = choose|k: int| is_first(a, ']', k);
        let port = if k + 1 < a.len() && (a[k + 1] as u32) < 0x80 {
            port_or_zero(a.skip(k + 2))
        } else {
            0
        };
        Some(AddressView { ip: a.subrange(1, k), port })
    } else if exists|c: int| is_last(a, ':', c) {
        let c = choose|c: int| is_last(a, ':', c);
        let ip = a.take(c);
        Some(
            AddressView {
                ip: if ip == "*"@ {
                    "0.0.0.0"@
                } else {
                    ip
                },
                port: port_or_zero(a.skip(c + 1)),
            },
        )
    } else {
        None
    }
}

fn port_or_zero_exec(v: &[char]) -> (p: u16)
    ensures
        p == port_or_zero(v@),
{
    match parse_u16_chars(v, 10) {
        Some(p) => p,
        None => 0,
    }
}

/// Parses a single lsof address: `*:8080`, `192.168.1.1:22` or `[::]:8080`.
pub fn parse_lsof_address_chars(text: &[char]) -> (r: Option<SocketAddress>)
    ensures
        opt_address(r) == lsof_address(text@),
{
    let a = trim_chars(text);
    let n = a.len();
    let star = chars_of("*");
    if chars_eq(a.as_slice(), star.as_slice()) {
        return Some(SocketAddress { ip: "0.0.0.0".to_string(), port: 0 });
    }
    if n > 0 && a[0] == '[' {
        match find_char(a.as_slice(), ']') {
            Some(k) => {
                let ghost chosen = choose|j: int| is_first(a@, ']', j);
                assert(chosen == k as int);
                let ip = slice_chars(a.as_slice(), 1, k);
                let port = if k + 1 < n && (a[k + 1] as u32) < 0x80 {
                    let rest = slice_chars(a.as_slice(), k + 2, n);
                    assert(rest@ =~= a@.skip(k + 2));
                    port_or_zero_exec(rest.as_slice())
                } else {
                    0
                };
                return Some(SocketAddress { ip: string_of(ip.as_slice()), port });
            },
            None => {
                assert forall|j: int| !is_first(a@, ']', j) by {
                    if is_first(a@, ']', j) {
                        assert(a@[j] == ']');
                    }
                }
            },
        }
    }
    match rfind_char(a.as_slice(), ':') {
        Some(c) => {
            let ghost chosen = choose|j: int| is_last(a@, ':', j);
            assert(chosen == c as int);
            let ip = slice_chars(a.as_slice(), 0, c);
            assert(ip@ =~= a@.take(c as int));
            let rest = slice_chars(a.as_slice(), c + 1, n);
            assert(rest@ =~= a@.skip(c + 1));
            let port = port_or_zero_exec(rest.as_slice());
            let ip_text = if chars_eq(ip.as_slice(), star.as_slice()) {
                "0.0.0.0".to_string()
            } else {
                string_of(ip.as_slice())
            };
            Some(SocketAddress { ip: ip_text, port })
        },
        None => {
            assert forall|j: int| !is_last(a@, ':', j) by {
                if is_last(a@, ':', j) {
                    assert(a@[j] == ':');
                }
            }
            None
        },
    }
}

/// Parses a single lsof address: `*:8080`, `192.168.1.1:22` or `[::]:8080`.
pub fn parse_lsof_address(addr: &str) -> (r: Option<SocketAddress>)
    ensures
        opt_address(r) == lsof_address(addr@),
{
    let v = chars_of(addr);
    parse_lsof_address_chars(v.as_slice())
}


/// `s` without the protocol prefix `TCP` or `UDP`, if it has one.
pub open spec fn strip_protocol(s: Seq<char>) -> Seq<char> {
    if starts_with(s, "TCP"@) || starts_with(s, "UDP"@) {
        s.skip(3)
    } else {
        s
    }
}

/// The state that lsof's parenthesised suffix names (TCP only).
pub open spec fn lsof_state(info: Seq<char>, is_tcp: bool) -> SocketState {
    if !is_tcp {
        SocketState::Unknown
    } else if contains(info, "(LISTEN)"@) {
        SocketState::Listen
    } else if contains(info, "(ESTABLISHED)"@) {
        SocketState::Established
    } else if contains(info, "(TIME_WAIT)"@) {
        SocketState::TimeWait
    } else if contains(info, "(CLOSE_WAIT)"@) {
        SocketState::CloseWait
    } else {
        SocketState::Established
    }
}

/// `s` up to its first `'('` (all of it if it has none).
pub open spec fn before_paren(s: Seq<char>) -> Seq<char> {
    if exists|p: int| is_first(s, '(', p) {
        s.take(choose|p: int| is_first(s, '(', p))
    } else {
        s
    }
}

/// `p` is the first position of `pat` in `s`.
pub open spec fn is_first_occurrence(s: Seq<char>, pat: Seq<char>, p: int) -> bool {
    occurs_at(s, pat, p) && forall|j: int| 0 <= j < p ==> !occurs_at(s, pat, j)
}

/// The parts of lsof's NAME column: local address, remote address and state.
pub struct LsofNameView {
    pub local: AddressView,
    pub remote: Option<AddressView>,
    pub state: SocketState,
}

/// The NAME column of lsof: `*:8080 (LISTEN)`, `192.168.1.1:22`, or
/// `192.168.1.1:22->10.0.0.1:54321 (ESTABLISHED)`, maybe after `TCP` or `UDP`.
pub open spec fn lsof_addresses(text: Seq<char>, is_tcp: bool) -> Option<LsofNameView> {
    let info = trim(strip_protocol(text));
    let state = lsof_state(info, is_tcp);
    let addrs = trim(before_paren(info));
    let arrow = "->"@;
    let single = match lsof_address(addrs) {
        Some(l) => Some(LsofNameView { local: l, remote: None, state }),
        None => None,
    };
    if contains(addrs, arrow) {
        let p = choose|p: int| is_first_occurrence(addrs, arrow, p);
        let rest = addrs.skip(p + 2);
        if !contains(rest, arrow) {
            match (lsof_address(addrs.take(p)), lsof_address(rest)) {
                (Some(l), Some(r)) => Some(LsofNameView { local: l, remote: Some(r), state }),
                _ => None,
            }
        } else {
            single
        }
    } else {
        single
    }
}

/// The view of parsed lsof NAME parts.
pub open spec fn opt_name_view(r: Option<(SocketAddress, Option<SocketAddress>, SocketState)>) -> Option<LsofNameView> {
    match r {
        Some((l, rm, st)) => Some(
            LsofNameView { local: l@, remote: opt_address(rm), state: st },
        ),
        None => None,
    }
}

fn lsof_state_exec(info: &[char], is_tcp: bool) -> (s: SocketState)
    ensures
        s == lsof_state(info@, is_tcp),
{
    if !is_tcp {
        SocketState::Unknown
    } else if contains_chars(info, chars_of("(LISTEN)").as_slice()) {
        SocketState::Listen
    } else if contains_chars(info, chars_of("(ESTABLISHED)").as_slice()) {
        SocketState::Established
    } else if contains_chars(info, chars_of("(TIME_WAIT)").as_slice()) {
        SocketState::TimeWait
    } else if contains_chars(info, chars_of("(CLOSE_WAIT)").as_slice()) {
        SocketState::CloseWait
    } else {
        SocketState::Established
    }
}

/// Parses lsof's NAME column into local address, remote address and state.
pub fn parse_lsof_addresses_chars(text: &[char], is_tcp: bool) -> (r: Option<(SocketAddress, Option<SocketAddress>, SocketState)>)
    ensures
        opt_name_view(r) == lsof_addresses(text@, is_tcp),
{
    let n = text.len();
    let stripped = if starts_with_chars(text, chars_of("TCP").as_slice()) || starts_with_chars(
        text,
        chars_of("UDP").as_slice(),
    ) {
        proof {
            reveal_strlit("TCP");
            reveal_strlit("UDP");
        }
        slice_chars(text, 3, n)
    } else {
        slice_chars(text, 0, n)
    };
    assert(stripped@ =~= strip_protocol(text@));
    let info = trim_chars(stripped.as_slice());
    let state = lsof_state_exec(info.as_slice(), is_tcp);
    let m = info.len();
    let head = match find_char(info.as_slice(), '(') {
        Some(p) => {
            let ghost chosen = choose|j: int| is_first(info@, '(', j);
            assert(chosen == p as int);
            slice_chars(info.as_slice(), 0, p)
        },
        None => {
            assert forall|j: int| !is_first(info@, '(', j) by {
                if is_first(info@, '(', j) {
                    assert(info@[j] == '(');
                }
            }
            slice_chars(info.as_slice(), 0, m)
        },
    };
    assert(head@ =~= before_paren(info@));
    let addrs = trim_chars(head.as_slice());
    let k = addrs.len();
    let arrow = chars_of("->");
    proof {
        reveal_strlit("->");
    }
    match find_chars(addrs.as_slice(), arrow.as_slice()) {
        Some(p) => {
            let ghost chosen = choose|j: int| is_first_occurrence(addrs@, arrow@, j);
            assert(is_first_occurrence(addrs@, arrow@, p as int));
            assert(chosen == p as int) by {
                if chosen < p as int {
                } else if chosen > p as int {
                }
            }
            let rest = slice_chars(addrs.as_slice(), p + 2, k);
            assert(rest@ =~= addrs@.skip(p + 2));
            if !contains_chars(rest.as_slice(), arrow.as_slice()) {
                let before = slice_chars(addrs.as_slice(), 0, p);
                assert(before@ =~= addrs@.take(p as int));
                let local = match parse_lsof_address_chars(before.as_slice()) {
                    Some(l) => l,
                    None => {
                        return None;
                    },
                };
                let remote = match parse_lsof_address_chars(rest.as_slice()) {
                    Some(r) => r,
                    None => {
                        return None;
                    },
                };
                return Some((local, Some(remote), state));
            }
        },
        None => {},
    }
    match parse_lsof_address_chars(addrs.as_slice()) {
        Some(l) => Some((l, None, state)),
        None => None,
    }
}

/// Parses lsof's NAME column into local address, remote address and state.
pub fn parse_lsof_addresses(info: &str, is_tcp: bool) -> (r: Option<(SocketAddress, Option<SocketAddress>, SocketState)>)
    ensures
        opt_name_view(r) == lsof_addresses(info@, is_tcp),
{
    let v = chars_of(info);
    parse_lsof_addresses_chars(v.as_slice(), is_tcp)
}


// ---------------------------------------------------------------------------
// Lines of lsof output
// ---------------------------------------------------------------------------

/// The words joined by `sep`.
pub open spec fn join(words: Seq<Seq<char>>, sep: Seq<char>) -> Seq<char>
    decreases words.len(),
{
    if words.len() == 0 {
        seq![]
    } else if words.len() == 1 {
        words[0]
    } else {
        join(words.drop_last(), sep) + sep + words.last()
    }
}

/// The protocol of a line: the base protocol in the family that the TYPE column names.
pub open spec fn lsof_protocol(ipv6: bool, base: Protocol) -> Protocol {
    if ipv6 {
        match base {
            Protocol::Tcp => Protocol::Tcp6,
            Protocol::Udp => Protocol::Udp6,
            _ => base,
        }
    } else {
        match base {
            Protocol::Tcp6 => Protocol::Tcp,
            Protocol::Udp6 => Protocol::Udp,
            _ => base,
        }
    }
}

/// The socket that a line of lsof output describes, before the filter is applied.
/// Columns: COMMAND PID USER FD TYPE DEVICE SIZE/OFF NODE NAME; NAME is the
/// rest of the line from the ninth column on.
pub open spec fn lsof_line_socket(line: Seq<char>, base: Protocol) -> Option<SocketView> {
    let parts = split_ws(line);
    if parts.len() < 9 {
        None
    } else {
        match parse_bounded(parts[1], 10, 0xffff_ffff) {
            None => None,
            Some(pid) => {
                let name = if parts.len() > 9 {
                    join(parts.skip(8), " "@)
                } else {
                    parts[parts.len() - 1]
                };
                let protocol = lsof_protocol(contains(parts[4], "IPv6"@), base);
                match lsof_addresses(name, is_tcp_family(protocol)) {
                    None => None,
                    Some(n) => Some(
                        SocketView {
                            protocol,
                            local: n.local,
                            remote: n.remote,
                            state: n.state,
                            pid: Some(pid as u32),
                            process_name: Some(parts[0]),
                            command_line: None,
                        },
                    ),
                }
            },
        }
    }
}

/// A line of lsof output, kept when it describes a socket that the filter admits.
pub open spec fn lsof_line(line: Seq<char>, f: FilterView, base: Protocol) -> Option<SocketView> {
    match lsof_line_socket(line, base) {
        Some(s) => if protocol_admitted(f, s.protocol) && passes_filter(f, s) {
            Some(s)
        } else {
            None
        },
        None => None,
    }
}

fn join_words(words: &Vec<Vec<char>>, from: usize, sep: &[char]) -> (r: Vec<char>)
    requires
        from <= words@.len(),
    ensures
        r@ == join(views(words@).skip(from as int), sep@),
{
    let ghost ws = views(words@).skip(from as int);
    let mut out: Vec<char> = Vec::new();
    let mut i = from;
    assert(ws.take(0) =~= Seq::<Seq<char>>::empty());
    while i < words.len()
        invariant
            from <= i <= words@.len(),
            ws == views(words@).skip(from as int),
            out@ == join(ws.take(i - from), sep@),
        decreases words@.len() - i,
    {
        let ghost pre = ws.take(i + 1 - from);
        assert(pre.drop_last() =~= ws.take(i - from));
        assert(pre.last() == words@[i as int]@);
        if i > from {
            let mut sp = slice_chars(sep, 0, sep.len());
            assert(sp@ =~= sep@);
            out.append(&mut sp);
        }
        let mut w = slice_chars(words[i].as_slice(), 0, words[i].len());
        assert(w@ =~= words@[i as int]@);
        out.append(&mut w);
        proof {
            if i == from {
                assert(pre.len() == 1);
                assert(out@ =~= pre[0]);
            }
        }
        i = i + 1;
    }
    assert(ws.take(words@.len() - from) =~= ws);
    out
}

fn lsof_protocol_exec(ipv6: bool, base: Protocol) -> (p: Protocol)
    ensures
        p == lsof_protocol(ipv6, base),
{
    if ipv6 {
        match base {
            Protocol::Tcp => Protocol::Tcp6,
            Protocol::Udp => Protocol::Udp6,
            _ => base,
        }
    } else {
        match base {
            Protocol::Tcp6 => Protocol::Tcp,
            Protocol::Udp6 => Protocol::Udp,
            _ => base,
        }
    }
}

fn parse_lsof_line_chars(line: &[char], filter: &SocketFilter, base: Protocol) -> (r: Option<SocketInfo>)
    ensures
        opt_socket(r) == lsof_line(line@, filter@, base),
{
    let parts = split_ws_chars(line);
    let n = parts.len();
    if n < 9 {
        return None;
    }
    assert(views(parts@)[0] == parts@[0]@);
    assert(views(parts@)[1] == parts@[1]@);
    assert(views(parts@)[4] == parts@[4]@);
    assert(views(parts@)[n - 1] == parts@[n - 1]@);
    let command = string_of(parts[0].as_slice());
    let pid = match parse_u32_chars(parts[1].as_slice(), 10) {
        Some(p) => p,
        None => {
            return None;
        },
    };
    let name = if n > 9 {
        join_words(&parts, 8, chars_of(" ").as_slice())
    } else {
        slice_chars(parts[n - 1].as_slice(), 0, parts[n - 1].len())
    };
    assert(name@ =~= (if n > 9 {
        join(views(parts@).skip(8), " "@)
    } else {
        views(parts@)[n - 1]
    }));
    let ipv6 = contains_chars(parts[4].as_slice(), chars_of("IPv6").as_slice());
    let protocol = lsof_protocol_exec(ipv6, base);
    if !filter_admits(filter, protocol) {
        return None;
    }
    let (local, remote, state) = match parse_lsof_addresses_chars(name.as_slice(), protocol.is_tcp()) {
        Some(t) => t,
        None => {
            return None;
        },
    };
    let socket = SocketInfo {
        protocol,
        local_address: local,
        remote_address: remote,
        state,
        pid: Some(pid),
        process_name: Some(command),
        command_line: None,
    };
    if !socket_passes(filter, &socket) {
        return None;
    }
    Some(socket)
}

/// Parses a single line of lsof output, keeping it only if the filter admits it.
pub fn parse_lsof_line(line: &str, filter: &SocketFilter, base_protocol: Protocol) -> (r: Option<SocketInfo>)
    ensures
        opt_socket(r) == lsof_line(line@, filter@, base_protocol),
{
    let v = chars_of(line);
    parse_lsof_line_chars(v.as_slice(), filter, base_protocol)
}


/// The lines of lsof output that describe sockets: not empty and not the header.
pub open spec fn is_data_line(line: Seq<char>) -> bool {
    line.len() > 0 && !starts_with(line, "COMMAND"@)
}

/// The admitted sockets of the lines, in order.
pub open spec fn lsof_lines(ls: Seq<Seq<char>>, f: FilterView, base: Protocol) -> Seq<SocketView>
    decreases ls.len(),
{
    if ls.len() == 0 {
        seq![]
    } else {
        let init = lsof_lines(ls.drop_last(), f, base);
        let l = ls.last();
        if is_data_line(l) {
            match lsof_line(l, f, base) {
                Some(s) => init.push(s),
                None => init,
            }
        } else {
            init
        }
    }
}

/// The admitted sockets of lsof's output.
pub open spec fn lsof_output(output: Seq<char>, f: FilterView, base: Protocol) -> Seq<SocketView> {
    lsof_lines(lines(output), f, base)
}

/// Parses lsof output into the sockets that the filter admits.
pub fn parse_lsof_output(output: &str, filter: &SocketFilter, base_protocol: Protocol) -> (r: Vec<SocketInfo>)
    ensures
        socket_views(r@) == lsof_output(output@, filter@, base_protocol),
{
    let chars = chars_of(output);
    let ls = lines_chars(chars.as_slice());
    let ghost lv = views(ls@);
    let header = chars_of("COMMAND");
    let mut out: Vec<SocketInfo> = Vec::new();
    let n = ls.len();
    let mut j: usize = 0;
    assert(lv.take(0) =~= Seq::<Seq<char>>::empty());
    while j < n
        invariant
            n == ls@.len(),
            lv == views(ls@),
            header@ == "COMMAND"@,
            j <= n,
            socket_views(out@) == lsof_lines(lv.take(j as int), filter@, base_protocol),
        decreases n - j,
    {
        let ghost pre = lv.take(j + 1);
        assert(pre.drop_last() =~= lv.take(j as int));
        assert(pre.last() == ls@[j as int]@);
        let line = &ls[j];
        if line.len() > 0 && !starts_with_chars(line.as_slice(), header.as_slice()) {
            match parse_lsof_line_chars(line.as_slice(), filter, base_protocol) {
                Some(s) => {
                    proof {
                        lemma_socket_views_push(out@, s);
                    }
                    out.push(s);
                },
                None => {},
            }
        }
        j = j + 1;
    }
    assert(lv.take(n as int) =~= lv);
    out
}

// ---------------------------------------------------------------------------
// Running lsof and ps
// ---------------------------------------------------------------------------

/// The outcome of a command that was started.
pub struct CommandOutput {
    /// The command exited successfully.
    pub success: bool,
    /// Its standard output, as text.
    pub stdout: String,
    /// Its standard error, as text.
    pub stderr: String,
}

/// What `lsof` and `ps` showed.
pub struct MacSnapshot {
    /// The run of `lsof -i -P -n -w -a -iTCP`; `None` if it could not be started.
    /// Consulted only when TCP sockets are wanted.
    pub tcp: Option<CommandOutput>,
    /// The run of `lsof -i -P -n -w -a -iUDP`; `None` if it could not be started.
    /// Consulted only when UDP sockets are wanted.
    pub udp: Option<CommandOutput>,
    /// The name of the process asked about; `None` if the system gives no
    /// name for that PID, as for a PID that no process has.
    pub process_name: Option<String>,
    /// What `ps -p <pid> -o command=` printed, if it ran, succeeded and printed text.
    pub process_command: Option<String>,
    /// The command lines of the processes that own sockets.
    pub owner_commands: Vec<OwnerCommand>,
}

/// What `ps -p <pid> -o command=` showed for a process that owns a socket.
pub struct OwnerCommand {
    /// The process's PID.
    pub pid: u32,
    /// What ps printed, if it ran, succeeded and printed text.
    pub command: Option<String>,
}

/// A command line from what ps printed: the text trimmed; none if that is
/// empty or ps printed nothing.
pub open spec fn ps_command_text(c: Option<String>) -> Option<Seq<char>> {
    match c {
        Some(t) => if trim(t@).len() == 0 {
            None
        } else {
            Some(trim(t@))
        },
        None => None,
    }
}

/// The command line of process `pid`, from the first entry for it.
pub open spec fn command_of(cmds: Seq<OwnerCommand>, pid: u32) -> Option<Seq<char>>
    decreases cmds.len(),
{
    if cmds.len() == 0 {
        None
    } else if cmds[0].pid == pid {
        ps_command_text(cmds[0].command)
    } else {
        command_of(cmds.drop_first(), pid)
    }
}

/// The socket with the command line of the process that owns it.
pub open spec fn with_command(cmds: Seq<OwnerCommand>, s: SocketView) -> SocketView {
    SocketView {
        protocol: s.protocol,
        local: s.local,
        remote: s.remote,
        state: s.state,
        pid: s.pid,
        process_name: s.process_name,
        command_line: match s.pid {
            Some(p) => command_of(cmds, p),
            None => None,
        },
    }
}

/// Each socket with the command line of the process that owns it.
pub open spec fn with_commands(cmds: Seq<OwnerCommand>, s: Seq<SocketView>) -> Seq<SocketView> {
    s.map_values(|x: SocketView| with_command(cmds, x))
}

/// The PIDs that own the sockets, each once, in the order they first appear.
pub fn owner_pids(sockets: &[SocketInfo]) -> (r: Vec<u32>)
    ensures
        forall|i: int, j: int| 0 <= i < j < r@.len() ==> r@[i] != r@[j],
        forall|p: u32| r@.contains(p) <==> exists|k: int| 0 <= k < sockets@.len() && (#[trigger] sockets@[k]).pid == Some(p),
{
    let mut r: Vec<u32> = Vec::new();
    let mut k: usize = 0;
    while k < sockets.len()
        invariant
            k <= sockets@.len(),
            forall|i: int, j: int| 0 <= i < j < r@.len() ==> r@[i] != r@[j],
            forall|p: u32| r@.contains(p) <==> exists|m: int| 0 <= m < k && (#[trigger] sockets@[m]).pid == Some(p),
        decreases sockets@.len() - k,
    {
        match sockets[k].pid {
            Some(p) => {
                let ghost prev = r@;
                let mut seen = false;
                let mut i: usize = 0;
                while i < r.len()
                    invariant
                        r@ == prev,
                        i <= r@.len(),
                        seen <==> exists|j: int| 0 <= j < i && r@[j] == p,
                    decreases r@.len() - i,
                {
                    if r[i] == p {
                        seen = true;
                    }
                    i = i + 1;
                }
                if !seen {
                    r.push(p);
                }
                proof {
                    if !seen {
                        assert(r@ == prev.push(p));
                        assert forall|i: int, j: int| 0 <= i < j < r@.len() implies r@[i] != r@[j] by {
                            if j == r@.len() - 1 {
                                assert(r@[i] == prev[i]);
                            } else {
                                assert(r@[i] == prev[i] && r@[j] == prev[j]);
                            }
                        }
                    }
                    assert forall|q: u32| r@.contains(q) <==> exists|m: int| 0 <= m < k + 1 && (#[trigger] sockets@[m]).pid == Some(q) by {
                        if r@.contains(q) {
                            let j = choose|j: int| 0 <= j < r@.len() && r@[j] == q;
                            if j < prev.len() {
                                assert(prev[j] == q);
                                assert(prev.contains(q));
                                let m = choose|m: int| 0 <= m < k && (#[trigger] sockets@[m]).pid == Some(q);
                                assert(0 <= m < k + 1 && sockets@[m].pid == Some(q));
                            } else {
                                assert(q == p);
                                assert(sockets@[k as int].pid == Some(q));
                            }
                        }
                        if exists|m: int| 0 <= m < k + 1 && (#[trigger] sockets@[m]).pid == Some(q) {
                            let m = choose|m: int| 0 <= m < k + 1 && (#[trigger] sockets@[m]).pid == Some(q);
                            if m == k {
                                assert(q == p);
                                if seen {
                                    let j = choose|j: int| 0 <= j < prev.len() && prev[j] == p;
                                    assert(r@[j] == q);
                                } else {
                                    assert(r@[r@.len() - 1] == q);
                                }
                            } else {
                                assert(prev.contains(q));
                                let j = choose|j: int| 0 <= j < prev.len() && prev[j] == q;
                                assert(r@[j] == q);
                            }
                        }
                    }
                }
            },
            None => {
                proof {
                    assert forall|q: u32| r@.contains(q) <==> exists|m: int| 0 <= m < k + 1 && (#[trigger] sockets@[m]).pid == Some(q) by {
                        if exists|m: int| 0 <= m < k + 1 && (#[trigger] sockets@[m]).pid == Some(q) {
                            let m = choose|m: int| 0 <= m < k + 1 && (#[trigger] sockets@[m]).pid == Some(q);
                            assert(m < k);
                        }
                    }
                }
            },
        }
        k = k + 1;
    }
    r
}

fn ps_command_string(c: &Option<String>) -> (r: Option<String>)
    ensures
        opt_text(r) == ps_command_text(*c),
{
    match c {
        Some(c) => {
            let t = trim_chars(chars_of(c.as_str()).as_slice());
            if t.len() == 0 {
                None
            } else {
                Some(string_of(t.as_slice()))
            }
        },
        None => None,
    }
}

fn find_command(cmds: &[OwnerCommand], pid: u32) -> (r: Option<String>)
    ensures
        opt_text(r) == command_of(cmds@, pid),
{
    let n = cmds.len();
    let mut i: usize = 0;
    assert(cmds@.subrange(0, n as int) =~= cmds@);
    while i < n
        invariant
            n == cmds@.len(),
            i <= n,
            command_of(cmds@, pid) == command_of(cmds@.subrange(i as int, n as int), pid),
        decreases n - i,
    {
        let ghost rest = cmds@.subrange(i as int, n as int);
        assert(rest[0] == cmds@[i as int]);
        assert(rest.drop_first() =~= cmds@.subrange(i + 1, n as int));
        if cmds[i].pid == pid {
            return ps_command_string(&cmds[i].command);
        }
        i = i + 1;
    }
    None
}

fn add_commands(sockets: Vec<SocketInfo>, cmds: &[OwnerCommand]) -> (r: Vec<SocketInfo>)
    ensures
        socket_views(r@) == with_commands(cmds@, socket_views(sockets@)),
{
    let ghost all = sockets@;
    let mut out: Vec<SocketInfo> = Vec::new();
    for s in it: sockets.into_iter()
        invariant
            it.seq() == all,
            socket_views(out@) == with_commands(cmds@, socket_views(all.take(it.index()))),
    {
        let ghost k = it.index();
        let mut s = s;
        let command_line = match s.pid {
            Some(p) => find_command(cmds, p),
            None => None,
        };
        let ghost before = s@;
        s.command_line = command_line;
        proof {
            assert(all.take(k + 1) =~= all.take(k).push(all[k]));
            lemma_socket_views_push(all.take(k), all[k]);
            lemma_socket_views_push(out@, s);
            assert(s@ == with_command(cmds@, before));
            assert(with_commands(cmds@, socket_views(all.take(k + 1))) =~= with_commands(
                cmds@,
                socket_views(all.take(k)),
            ).push(s@));
        }
        out.push(s);
    }
    assert(all.take(all.len() as int) =~= all);
    out
}

/// The sockets of one lsof run, or why there are none.
pub open spec fn lsof_run(run: Option<CommandOutput>, f: FilterView, base: Protocol) -> Result<Seq<SocketView>, ErrorView> {
    match run {
        None => Err(ErrorView::LsofNotRunnable),
        Some(o) => if !o.success {
            Err(ErrorView::LsofFailed(o.stderr@))
        } else {
            Ok(lsof_output(o.stdout@, f, base))
        },
    }
}

fn lsof_run_exec(run: &Option<CommandOutput>, filter: &SocketFilter, base: Protocol) -> (r: Result<Vec<SocketInfo>, PlatformError>)
    ensures
        sockets_result(r) == lsof_run(*run, filter@, base),
{
    match run {
        None => Err(PlatformError::LsofNotRunnable),
        Some(o) => {
            if !o.success {
                Err(PlatformError::LsofFailed(o.stderr.clone()))
            } else {
                Ok(parse_lsof_output(o.stdout.as_str(), filter, base))
            }
        },
    }
}

/// The TCP sockets that the filter admits, from a run of lsof.
pub fn get_tcp_sockets(filter: &SocketFilter, run: &Option<CommandOutput>) -> (r: Result<Vec<SocketInfo>, PlatformError>)
    ensures
        sockets_result(r) == lsof_run(*run, filter@, Protocol::Tcp),
{
    lsof_run_exec(run, filter, Protocol::Tcp)
}

/// The UDP sockets that the filter admits, from a run of lsof.
pub fn get_udp_sockets(filter: &SocketFilter, run: &Option<CommandOutput>) -> (r: Result<Vec<SocketInfo>, PlatformError>)
    ensures
        sockets_result(r) == lsof_run(*run, filter@, Protocol::Udp),
{
    lsof_run_exec(run, filter, Protocol::Udp)
}

/// The outcome of listing sockets on macOS: TCP sockets, then UDP sockets,
/// each kind only if the filter's protocols call for it, each socket with its
/// owner's command line.
pub open spec fn mac_sockets(snap: MacSnapshot, f: FilterView) -> Result<Seq<SocketView>, ErrorView> {
    let tcp = if wants_tcp(f.protocols) {
        lsof_run(snap.tcp, f, Protocol::Tcp)
    } else {
        Ok(seq![])
    };
    match tcp {
        Err(e) => Err(e),
        Ok(t) => {
            let udp = if wants_udp(f.protocols) {
                lsof_run(snap.udp, f, Protocol::Udp)
            } else {
                Ok(seq![])
            };
            match udp {
                Err(e) => Err(e),
                Ok(u) => Ok(with_commands(snap.owner_commands@, t + u)),
            }
        },
    }
}

/// Lists the sockets on macOS that the filter admits.
pub fn get_sockets(filter: &SocketFilter, snap: &MacSnapshot) -> (r: Result<Vec<SocketInfo>, PlatformError>)
    ensures
        sockets_result(r) == mac_sockets(*snap, filter@),
{
    let mut sockets: Vec<SocketInfo> = Vec::new();
    assert(socket_views(sockets@) =~= Seq::<SocketView>::empty());
    if filter_wants_tcp(filter) {
        match get_tcp_sockets(filter, &snap.tcp) {
            Ok(mut v) => {
                proof {
                    lemma_socket_views_add(sockets@, v@);
                }
                sockets.append(&mut v);
            },
            Err(e) => {
                return Err(e);
            },
        }
    }
    let ghost t = socket_views(sockets@);
    if filter_wants_udp(filter) {
        match get_udp_sockets(filter, &snap.udp) {
            Ok(mut v) => {
                proof {
                    lemma_socket_views_add(sockets@, v@);
                }
                sockets.append(&mut v);
            },
            Err(e) => {
                return Err(e);
            },
        }
    } else {
        assert(t + seq![] =~= t);
    }
    Ok(add_commands(sockets, snap.owner_commands.as_slice()))
}

/// The outcome of asking about process `pid` on macOS: an error when the
/// system knows no process of that PID (it gives no name for it).
pub open spec fn mac_process(pid: u32, snap: MacSnapshot) -> Result<ProcessView, ErrorView> {
    match snap.process_name {
        None => Err(ErrorView::ProcessNotFound(pid)),
        Some(n) => match mac_sockets(snap, pid_filter(pid)) {
            Err(e) => Err(e),
            Ok(sockets) => Ok(
                ProcessView {
                    pid,
                    name: n@,
                    command_line: ps_command_text(snap.process_command),
                    sockets,
                },
            ),
        },
    }
}

/// Gets the name, command line and sockets of process `pid` on macOS.
pub fn get_process_info(pid: u32, snap: &MacSnapshot) -> (r: Result<ProcessInfo, PlatformError>)
    ensures
        process_result(r) == mac_process(pid, *snap),
{
    let name = match &snap.process_name {
        Some(n) => n.clone(),
        None => {
            return Err(PlatformError::ProcessNotFound(pid));
        },
    };
    let command_line = ps_command_string(&snap.process_command);
    let filter = make_pid_filter(pid);
    let sockets = match get_sockets(&filter, snap) {
        Ok(s) => s,
        Err(e) => {
            return Err(e);
        },
    };
    Ok(ProcessInfo { pid, name, command_line, sockets })
}

} // verus!
