//! Linux: sockets and processes from the `/proc` filesystem.

use crate::model::types::{
    admit_protocols, filter_admits, filter_sockets, opt_address, opt_text, socket_passes, socket_views, AddressView, FilterView,
    ProcessInfo, ProcessView, Protocol, SocketAddress, SocketFilter, SocketInfo, SocketState,
    SocketView,
};
use crate::number::{
    decimal, decimal_string, hex_lower, parse_bounded, parse_u16_chars, parse_u32_chars,
    parse_u64_chars, parse_u8_chars, push_decimal, push_hex_lower,
};
use crate::platform::common::{
    filter_wants_tcp, filter_wants_udp, lemma_socket_views_add, lemma_socket_views_push,
    make_pid_filter, opt_socket, pid_filter, process_result, sockets_result, wants_tcp, wants_udp,
    ErrorView, PlatformError,
};
use crate::text::{
    chars_eq, chars_of, find_char, lines, lines_chars, push_str, rfind_char, slice_chars,
    split_ws, split_ws_chars, string_of, trim, trim_chars, views,
};
use vstd::prelude::*;

verus! {

broadcast use vstd::string::group_string_axioms;

// ---------------------------------------------------------------------------
// Addresses in the kernel's hexadecimal notation
// ---------------------------------------------------------------------------

/// `i` is the only position of `':'` in `a`.
pub open spec fn sole_colon(a: Seq<char>, i: int) -> bool {
    &&& 0 <= i < a.len()
    &&& a[i] == ':'
    &&& forall|j: int| 0 <= j < a.len() && j != i ==> a[j] != ':'
}

/// The dotted IPv4 text of the eight hex digits `ip`, the bytes read in reverse order.
pub open spec fn ipv4_text(ip: Seq<char>) -> Option<Seq<char>> {
    match (
        parse_bounded(ip.subrange(6, 8), 16, 0xff),
        parse_bounded(ip.subrange(4, 6), 16, 0xff),
        parse_bounded(ip.subrange(2, 4), 16, 0xff),
        parse_bounded(ip.subrange(0, 2), 16, 0xff),
    ) {
        (Some(a), Some(b), Some(c), Some(d)) => Some(
            decimal(a as nat) + "."@ + decimal(b as nat) + "."@ + decimal(c as nat) + "."@
                + decimal(d as nat),
        ),
        _ => None,
    }
}

/// Group `k` (of four hex digits) of an IPv6 address in hex.
pub open spec fn ipv6_group(ip: Seq<char>, k: int) -> Option<int> {
    parse_bounded(ip.subrange(4 * k, 4 * k + 4), 16, 0xffff)
}

/// The eight groups of the 32 hex digits `ip`, if each is a hex number.
pub open spec fn ipv6_groups(ip: Seq<char>) -> Option<Seq<u16>> {
    if forall|k: int| 0 <= k < 8 ==> #[trigger] ipv6_group(ip, k) is Some {
        Some(Seq::new(8, |k: int| ipv6_group(ip, k)->Some_0 as u16))
    } else {
        None
    }
}

/// The number of zero groups from position `i` on, up to the first non-zero one.
pub open spec fn zero_run(g: Seq<u16>, i: int) -> nat
    decreases g.len() - i,
{
    if 0 <= i < g.len() && g[i] == 0 {
        1 + zero_run(g, i + 1)
    } else {
        0
    }
}

/// The length of the longest run of zero groups among the first `n` positions' runs.
pub open spec fn longest_zero_run(g: Seq<u16>, n: int) -> nat
    decreases n,
{
    if n <= 0 {
        0
    } else if zero_run(g, n - 1) > longest_zero_run(g, n - 1) {
        zero_run(g, n - 1)
    } else {
        longest_zero_run(g, n - 1)
    }
}

/// Where the first of the longest runs of zero groups (among the first `n`
/// positions' runs) starts.
pub open spec fn longest_zero_start(g: Seq<u16>, n: int) -> int
    decreases n,
{
    if n <= 0 {
        0
    } else if zero_run(g, n - 1) > longest_zero_run(g, n - 1) {
        n - 1
    } else {
        longest_zero_start(g, n - 1)
    }
}

/// The groups, each in lower-case hex, joined by `':'`.
pub open spec fn hex_groups(g: Seq<u16>) -> Seq<char>
    decreases g.len(),
{
    if g.len() == 0 {
        seq![]
    } else if g.len() == 1 {
        hex_lower(g[0] as nat)
    } else {
        hex_groups(g.drop_last()) + ":"@ + hex_lower(g.last() as nat)
    }
}

/// The groups are those of an IPv4-mapped address, `::ffff:a.b.c.d`.
pub open spec fn ipv4_mapped(g: Seq<u16>) -> bool {
    &&& g.len() == 8
    &&& forall|k: int| 0 <= k < 5 ==> g[k] == 0
    &&& g[5] == 0xffff
}

/// The text of an IPv6 address in the canonical form of RFC 5952, as
/// `std::net::Ipv6Addr` displays it: an IPv4-mapped address as
/// `::ffff:a.b.c.d`; otherwise the groups in lower-case hex, the first of
/// the longest runs of two or more zero groups written as `::`.
pub open spec fn ipv6_display(g: Seq<u16>) -> Seq<char> {
    if ipv4_mapped(g) {
        "::ffff:"@ + decimal((g[6] as int / 256) as nat) + "."@ + decimal((g[6] as int % 256) as nat)
            + "."@ + decimal((g[7] as int / 256) as nat) + "."@ + decimal(
            (g[7] as int % 256) as nat,
        )
    } else {
        let len = longest_zero_run(g, 8);
        let start = longest_zero_start(g, 8);
        if len > 1 {
            hex_groups(g.subrange(0, start)) + "::"@ + hex_groups(g.subrange(start + len, 8))
        } else {
            hex_groups(g)
        }
    }
}

/// The text of the IPv6 address written as the 32 hex digits `ip`.
pub open spec fn ipv6_text(ip: Seq<char>) -> Option<Seq<char>> {
    match ipv6_groups(ip) {
        Some(g) => Some(ipv6_display(g)),
        None => None,
    }
}

/// An address `IP:PORT` as `/proc/net/{tcp,udp}[6]` writes it, both parts in hex.
///
/// The model reads characters; the kernel writes ASCII, and an address
/// with other characters is rejected.
pub open spec fn kernel_address(a: Seq<char>) -> Option<AddressView> {
    if exists|i: int| sole_colon(a, i) {
        let i = choose|i: int| sole_colon(a, i);
        let ip = a.take(i);
        match parse_bounded(a.skip(i + 1), 16, 0xffff) {
            None => None,
            Some(port) => {
                let text = if ip.len() == 8 {
                    ipv4_text(ip)
                } else if ip.len() == 32 {
                    ipv6_text(ip)
                } else {
                    None
                };
                match text {
                    Some(t) => Some(AddressView { ip: t, port: port as u16 }),
                    None => None,
                }
            },
        }
    } else {
        None
    }
}

fn ipv4_from_hex(ip: &[char]) -> (r: Option<String>)
    requires
        ip@.len() == 8,
    ensures
        r matches Some(s) ==> ipv4_text(ip@) == Some(s@),
        r is None ==> ipv4_text(ip@) is None,
{
    let a = parse_u8_chars(slice_chars(ip, 6, 8).as_slice(), 16);
    let b = parse_u8_chars(slice_chars(ip, 4, 6).as_slice(), 16);
    let c = parse_u8_chars(slice_chars(ip, 2, 4).as_slice(), 16);
    let d = parse_u8_chars(slice_chars(ip, 0, 2).as_slice(), 16);
    match (a, b, c, d) {
        (Some(a), Some(b), Some(c), Some(d)) => {
            let mut s = String::new();
            push_decimal(&mut s, a as u64);
            push_str(&mut s, ".");
            push_decimal(&mut s, b as u64);
            push_str(&mut s, ".");
            push_decimal(&mut s, c as u64);
            push_str(&mut s, ".");
            push_decimal(&mut s, d as u64);
            assert(s@ =~= decimal(a as nat) + "."@ + decimal(b as nat) + "."@ + decimal(c as nat)
                + "."@ + decimal(d as nat));
            Some(s)
        },
        _ => None,
    }
}

fn ipv6_groups_exec(ip: &[char]) -> (r: Option<Vec<u16>>)
    requires
        ip@.len() == 32,
    ensures
        match r {
            Some(g) => ipv6_groups(ip@) == Some(g@),
            None => ipv6_groups(ip@) is None,
        },
{
    let mut g: Vec<u16> = Vec::new();
    let mut k: usize = 0;
    while k < 8
        invariant
            ip@.len() == 32,
            k <= 8,
            g@.len() == k,
            forall|j: int| 0 <= j < k ==> ipv6_group(ip@, j) == Some(#[trigger] g@[j] as int),
        decreases 8 - k,
    {
        match parse_u16_chars(slice_chars(ip, 4 * k, 4 * k + 4).as_slice(), 16) {
            None => {
                assert(ipv6_group(ip@, k as int) is None);
                return None;
            },
            Some(x) => {
                g.push(x);
            },
        }
        k = k + 1;
    }
    assert forall|j: int| 0 <= j < 8 implies #[trigger] ipv6_group(ip@, j) is Some by {
        assert(ipv6_group(ip@, j) == Some(g@[j] as int));
    }
    assert(g@ =~= Seq::new(8, |j: int| ipv6_group(ip@, j)->Some_0 as u16));
    Some(g)
}

fn zero_run_exec(g: &[u16], i: usize) -> (r: usize)
    requires
        i <= g@.len(),
    ensures
        r == zero_run(g@, i as int),
        i + r <= g@.len(),
{
    let mut j = i;
    while j < g.len() && g[j] == 0
        invariant
            i <= j <= g@.len(),
            zero_run(g@, i as int) == (j - i) + zero_run(g@, j as int),
        decreases g@.len() - j,
    {
        j = j + 1;
    }
    j - i
}

proof fn lemma_longest_zero_fits(g: Seq<u16>, n: int)
    requires
        0 <= n <= g.len(),
    ensures
        0 <= longest_zero_start(g, n),
        longest_zero_start(g, n) + longest_zero_run(g, n) <= g.len(),
    decreases n,
{
    if n > 0 {
        lemma_longest_zero_fits(g, n - 1);
        lemma_zero_run_fits(g, n - 1);
    }
}

proof fn lemma_zero_run_fits(g: Seq<u16>, i: int)
    requires
        0 <= i <= g.len(),
    ensures
        i + zero_run(g, i) <= g.len(),
    decreases g.len() - i,
{
    if i < g.len() {
        lemma_zero_run_fits(g, i + 1);
    }
}

/// Appends the groups `g[from..to]` in hex, joined by `':'`.
fn push_hex_groups(s: &mut String, g: &[u16], from: usize, to: usize)
    requires
        from <= to <= g@.len(),
    ensures
        final(s)@ == old(s)@ + hex_groups(g@.subrange(from as int, to as int)),
{
    let ghost head = s@;
    let mut k = from;
    assert(g@.subrange(from as int, from as int) =~= Seq::<u16>::empty());
    assert(head + seq![] =~= head);
    while k < to
        invariant
            from <= k <= to <= g@.len(),
            s@ == head + hex_groups(g@.subrange(from as int, k as int)),
        decreases to - k,
    {
        let ghost pre = g@.subrange(from as int, k + 1);
        assert(pre.drop_last() =~= g@.subrange(from as int, k as int));
        assert(pre.last() == g@[k as int]);
        if k > from {
            push_str(s, ":");
        }
        push_hex_lower(s, g[k] as u64);
        proof {
            if k == from {
                assert(pre.len() == 1);
                assert(pre[0] == g@[k as int]);
                assert(s@ =~= head + hex_groups(pre));
            } else {
                assert(s@ =~= head + hex_groups(pre));
            }
        }
        k = k + 1;
    }
}

fn ipv6_from_hex(ip: &[char]) -> (r: Option<String>)
    requires
        ip@.len() == 32,
    ensures
        r matches Some(s) ==> ipv6_text(ip@) == Some(s@),
        r is None ==> ipv6_text(ip@) is None,
{
    let g = match ipv6_groups_exec(ip) {
        Some(g) => g,
        None => {
            return None;
        },
    };
    let mut s = String::new();
    if g[0] == 0 && g[1] == 0 && g[2] == 0 && g[3] == 0 && g[4] == 0 && g[5] == 0xffff {
        assert(ipv4_mapped(g@));
        push_str(&mut s, "::ffff:");
        push_decimal(&mut s, (g[6] / 256) as u64);
        push_str(&mut s, ".");
        push_decimal(&mut s, (g[6] % 256) as u64);
        push_str(&mut s, ".");
        push_decimal(&mut s, (g[7] / 256) as u64);
        push_str(&mut s, ".");
        push_decimal(&mut s, (g[7] % 256) as u64);
        assert(s@ =~= ipv6_display(g@));
        return Some(s);
    }
    assert(!ipv4_mapped(g@));
    let mut best_len: usize = 0;
    let mut best_start: usize = 0;
    let mut i: usize = 0;
    while i < 8
        invariant
            g@.len() == 8,
            i <= 8,
            best_len == longest_zero_run(g@, i as int),
            best_start == longest_zero_start(g@, i as int),
        decreases 8 - i,
    {
        let r = zero_run_exec(g.as_slice(), i);
        if r > best_len {
            best_len = r;
            best_start = i;
        }
        i = i + 1;
    }
    proof {
        lemma_longest_zero_fits(g@, 8);
    }
    if best_len > 1 {
        push_hex_groups(&mut s, g.as_slice(), 0, best_start);
        push_str(&mut s, "::");
        push_hex_groups(&mut s, g.as_slice(), best_start + best_len, 8);
        assert(s@ =~= ipv6_display(g@));
    } else {
        push_hex_groups(&mut s, g.as_slice(), 0, 8);
        assert(g@.subrange(0, 8) =~= g@);
        assert(s@ =~= ipv6_display(g@));
    }
    Some(s)
}

/// Reads an address `IP:PORT` written by the kernel in hex (IPv4 or IPv6).
pub fn parse_socket_address_chars(addr: &[char]) -> (r: Option<SocketAddress>)
    ensures
        opt_address(r) == kernel_address(addr@),
{
    let n = addr.len();
    let first = find_char(addr, ':');
    let last = rfind_char(addr, ':');
    let i = match (first, last) {
        (Some(i), Some(j)) => {
            if i != j {
                proof {
                    assert forall|k: int| !sole_colon(addr@, k) by {
                        if sole_colon(addr@, k) {
                            assert(k == i as int);
                            assert(k == j as int);
                        }
                    }
                }
                return None;
            }
            i
        },
        _ => {
            proof {
                assert forall|k: int| !sole_colon(addr@, k) by {
                    if sole_colon(addr@, k) {
                        assert(addr@[k] == ':');
                    }
                }
            }
            return None;
        },
    };
    assert(sole_colon(addr@, i as int));
    let ghost chosen = choose|k: int| sole_colon(addr@, k);
    assert(chosen == i as int);
    let port_text = slice_chars(addr, i + 1, n);
    assert(port_text@ =~= addr@.skip(i + 1));
    let port = match parse_u16_chars(port_text.as_slice(), 16) {
        Some(p) => p,
        None => {
            return None;
        },
    };
    let ip = slice_chars(addr, 0, i);
    assert(ip@ =~= addr@.take(i as int));
    let text = if ip.len() == 8 {
        ipv4_from_hex(ip.as_slice())
    } else if ip.len() == 32 {
        ipv6_from_hex(ip.as_slice())
    } else {
        None
    };
    match text {
        Some(t) => Some(SocketAddress { ip: t, port }),
        None => None,
    }
}

/// Reads an address `IP:PORT` as `/proc/net/{tcp,udp}[6]` writes it.
pub fn parse_socket_address(addr: &str) -> (r: Option<SocketAddress>)
    ensures
        opt_address(r) == kernel_address(addr@),
{
    let v = chars_of(addr);
    parse_socket_address_chars(v.as_slice())
}

/// The state that the kernel's TCP state number stands for.
pub open spec fn tcp_state(n: int) -> SocketState {
    if n == 1 {
        SocketState::Established
    } else if n == 2 {
        SocketState::SynSent
    } else if n == 3 {
        SocketState::SynRecv
    } else if n == 4 {
        SocketState::FinWait1
    } else if n == 5 {
        SocketState::FinWait2
    } else if n == 6 {
        SocketState::TimeWait
    } else if n == 7 {
        SocketState::Close
    } else if n == 8 {
        SocketState::CloseWait
    } else if n == 9 {
        SocketState::LastAck
    } else if n == 10 {
        SocketState::Listen
    } else if n == 11 {
        SocketState::Closing
    } else {
        SocketState::Unknown
    }
}

/// Parses a TCP state from its numeric value.
pub fn parse_tcp_state(state: u8) -> (s: SocketState)
    ensures
        s == tcp_state(state as int),
{
    match state {
        1 => SocketState::Established,
        2 => SocketState::SynSent,
        3 => SocketState::SynRecv,
        4 => SocketState::FinWait1,
        5 => SocketState::FinWait2,
        6 => SocketState::TimeWait,
        7 => SocketState::Close,
        8 => SocketState::CloseWait,
        9 => SocketState::LastAck,
        10 => SocketState::Listen,
        11 => SocketState::Closing,
        _ => SocketState::Unknown,
    }
}


// ---------------------------------------------------------------------------
// Which process owns a socket
// ---------------------------------------------------------------------------

/// A directory of `/proc`, its `comm` file and the targets of the links in its `fd` directory.
pub struct ProcessFds {
    /// The directory's name (a PID for process directories).
    pub name: String,
    /// The contents of its `comm` file, if it could be read as text.
    pub comm: Option<String>,
    /// The contents of its `cmdline` file, if it could be read as text.
    pub cmdline: Option<String>,
    /// The targets of the links under `fd`, such as `socket:[12345]`.
    pub links: Vec<String>,
}

/// The target of a file descriptor's link to socket `inode`: `socket:[<inode>]`.
pub open spec fn socket_link(inode: int) -> Seq<char> {
    "socket:["@ + decimal(inode as nat) + "]"@
}

/// Some link of the directory is a link to socket `inode`.
pub open spec fn owns_inode(e: ProcessFds, inode: int) -> bool {
    exists|k: int| 0 <= k < e.links@.len() && #[trigger] e.links@[k]@ == socket_link(inode)
}

/// The PID that the directory's name spells, if it spells one.
pub open spec fn entry_pid(e: ProcessFds) -> Option<int> {
    parse_bounded(e.name@, 10, 0xffff_ffff)
}

/// The first process directory, in the order given, with a link to socket `inode`.
pub open spec fn owner_for_inode(owners: Seq<ProcessFds>, inode: int) -> Option<ProcessFds>
    decreases owners.len(),
{
    if owners.len() == 0 {
        None
    } else if entry_pid(owners[0]) is Some && owns_inode(owners[0], inode) {
        Some(owners[0])
    } else {
        owner_for_inode(owners.drop_first(), inode)
    }
}

/// The PID of the process that owns socket `inode`.
pub open spec fn pid_for_inode(owners: Seq<ProcessFds>, inode: int) -> Option<u32> {
    match owner_for_inode(owners, inode) {
        Some(e) => match entry_pid(e) {
            Some(p) => Some(p as u32),
            None => None,
        },
        None => None,
    }
}

/// The name (its `comm`, trimmed) of the process that owns socket `inode`.
pub open spec fn name_for_inode(owners: Seq<ProcessFds>, inode: int) -> Option<Seq<char>> {
    match owner_for_inode(owners, inode) {
        Some(e) => match e.comm {
            Some(c) => Some(trim(c@)),
            None => None,
        },
        None => None,
    }
}

/// A process's command line from its `cmdline` file: the arguments
/// separated by spaces in place of NULs; none if the file is empty or unread.
pub open spec fn cmdline_text(c: Option<String>) -> Option<Seq<char>> {
    match c {
        Some(t) => if t@.len() == 0 {
            None
        } else {
            Some(nul_to_space(t@))
        },
        None => None,
    }
}

/// The command line of the process that owns socket `inode`.
pub open spec fn command_for_inode(owners: Seq<ProcessFds>, inode: int) -> Option<Seq<char>> {
    match owner_for_inode(owners, inode) {
        Some(e) => cmdline_text(e.cmdline),
        None => None,
    }
}

fn owns_inode_exec(e: &ProcessFds, target: &[char], Ghost(inode): Ghost<int>) -> (b: bool)
    requires
        target@ == socket_link(inode),
    ensures
        b == owns_inode(*e, inode),
{
    let mut k: usize = 0;
    while k < e.links.len()
        invariant
            target@ == socket_link(inode),
            k <= e.links@.len(),
            forall|j: int| 0 <= j < k ==> #[trigger] e.links@[j]@ != socket_link(inode),
        decreases e.links@.len() - k,
    {
        let link = chars_of(e.links[k].as_str());
        if chars_eq(link.as_slice(), target) {
            assert(e.links@[k as int]@ == socket_link(inode));
            return true;
        }
        k = k + 1;
    }
    false
}

/// Finds the directory of the process with a link to socket `inode`:
/// its position among `owners` and its PID.
fn find_owner(owners: &[ProcessFds], inode: u64) -> (r: Option<(usize, u32)>)
    ensures
        match r {
            Some((i, p)) => i < owners@.len() && owner_for_inode(owners@, inode as int) == Some(
                owners@[i as int],
            ) && entry_pid(owners@[i as int]) == Some(p as int),
            None => owner_for_inode(owners@, inode as int) is None,
        },
{
    let mut target = chars_of("socket:[");
    let number = decimal_string(inode);
    let digits = chars_of(number.as_str());
    let close = chars_of("]");
    let ghost t0 = target@;
    let mut extra = digits;
    target.append(&mut extra);
    let mut extra = close;
    target.append(&mut extra);
    assert(target@ =~= socket_link(inode as int));
    let n = owners.len();
    let mut i: usize = 0;
    assert(owners@.subrange(0, n as int) =~= owners@);
    while i < n
        invariant
            n == owners@.len(),
            i <= n,
            target@ == socket_link(inode as int),
            owner_for_inode(owners@, inode as int) == owner_for_inode(
                owners@.subrange(i as int, n as int),
                inode as int,
            ),
        decreases n - i,
    {
        let ghost rest = owners@.subrange(i as int, n as int);
        assert(rest[0] == owners@[i as int]);
        assert(rest.drop_first() =~= owners@.subrange(i + 1, n as int));
        let e = &owners[i];
        let name = chars_of(e.name.as_str());
        match parse_u32_chars(name.as_slice(), 10) {
            Some(p) => {
                if owns_inode_exec(e, target.as_slice(), Ghost(inode as int)) {
                    return Some((i, p));
                }
            },
            None => {},
        }
        i = i + 1;
    }
    None
}

/// Finds the PID of the process with a link to socket `inode`.
pub fn find_pid_by_inode(owners: &[ProcessFds], inode: u64) -> (r: Option<u32>)
    ensures
        r == pid_for_inode(owners@, inode as int),
{
    match find_owner(owners, inode) {
        Some((_, p)) => Some(p),
        None => None,
    }
}

/// The trimmed `comm` of the directory at position `i`.
fn owner_name(owners: &[ProcessFds], i: usize) -> (r: Option<String>)
    requires
        i < owners@.len(),
    ensures
        opt_text(r) == match owners@[i as int].comm {
            Some(c) => Some(trim(c@)),
            None => None,
        },
{
    match &owners[i].comm {
        Some(c) => Some(string_of(trim_chars(chars_of(c.as_str()).as_slice()).as_slice())),
        None => None,
    }
}

// ---------------------------------------------------------------------------
// Lines of /proc/net/{tcp,udp}[6]
// ---------------------------------------------------------------------------


/// A line of `/proc/net/tcp[6]`: fields 1 and 2 are the local and remote
/// addresses, field 3 the state (in hex), field 9 the inode. The owner of
/// the socket gives its PID and name.
pub open spec fn tcp_line(line: Seq<char>, protocol: Protocol, owners: Seq<ProcessFds>) -> Option<SocketView> {
    let parts = split_ws(line);
    if parts.len() < 10 {
        None
    } else {
        match kernel_address(parts[1]) {
            None => None,
            Some(local) => match parse_bounded(parts[3], 16, 0xff) {
                None => None,
                Some(st) => match parse_bounded(parts[9], 10, 0xffff_ffff_ffff_ffff) {
                    None => None,
                    Some(inode) => Some(
                        SocketView {
                            protocol,
                            local,
                            remote: kernel_address(parts[2]),
                            state: tcp_state(st),
                            pid: pid_for_inode(owners, inode),
                            process_name: name_for_inode(owners, inode),
                            command_line: command_for_inode(owners, inode),
                        },
                    ),
                },
            },
        }
    }
}

/// A line of `/proc/net/udp[6]`: as for TCP, but UDP has no connection state.
pub open spec fn udp_line(line: Seq<char>, protocol: Protocol, owners: Seq<ProcessFds>) -> Option<SocketView> {
    let parts = split_ws(line);
    if parts.len() < 10 {
        None
    } else {
        match kernel_address(parts[1]) {
            None => None,
            Some(local) => match parse_bounded(parts[9], 10, 0xffff_ffff_ffff_ffff) {
                None => None,
                Some(inode) => Some(
                    SocketView {
                        protocol,
                        local,
                        remote: kernel_address(parts[2]),
                        state: SocketState::Unknown,
                        pid: pid_for_inode(owners, inode),
                        process_name: name_for_inode(owners, inode),
                        command_line: command_for_inode(owners, inode),
                    },
                ),
            },
        }
    }
}

/// A line of a TCP (`tcp` true) or UDP table.
pub open spec fn proc_line(line: Seq<char>, protocol: Protocol, owners: Seq<ProcessFds>, tcp: bool) -> Option<SocketView> {
    if tcp {
        tcp_line(line, protocol, owners)
    } else {
        udp_line(line, protocol, owners)
    }
}

fn parse_proc_line_chars(line: &[char], protocol: Protocol, owners: &[ProcessFds], tcp: bool) -> (r: Option<SocketInfo>)
    ensures
        opt_socket(r) == proc_line(line@, protocol, owners@, tcp),
{
    let parts = split_ws_chars(line);
    if parts.len() < 10 {
        return None;
    }
    assert(views(parts@)[1] == parts@[1]@);
    assert(views(parts@)[2] == parts@[2]@);
    assert(views(parts@)[3] == parts@[3]@);
    assert(views(parts@)[9] == parts@[9]@);
    let local = match parse_socket_address_chars(parts[1].as_slice()) {
        Some(a) => a,
        None => {
            return None;
        },
    };
    let remote = parse_socket_address_chars(parts[2].as_slice());
    let state = if tcp {
        match parse_u8_chars(parts[3].as_slice(), 16) {
            Some(n) => parse_tcp_state(n),
            None => {
                return None;
            },
        }
    } else {
        SocketState::Unknown
    };
    let inode = match parse_u64_chars(parts[9].as_slice(), 10) {
        Some(x) => x,
        None => {
            return None;
        },
    };
    let (pid, process_name, command_line) = match find_owner(owners, inode) {
        Some((i, p)) => (Some(p), owner_name(owners, i), cmdline_string(&owners[i].cmdline)),
        None => (None, None, None),
    };
    Some(
        SocketInfo {
            protocol,
            local_address: local,
            remote_address: remote,
            state,
            pid,
            process_name,
            command_line,
        },
    )
}

/// Parses a single line of `/proc/net/tcp[6]`.
pub fn parse_tcp_line(line: &str, protocol: Protocol, owners: &[ProcessFds]) -> (r: Option<SocketInfo>)
    ensures
        opt_socket(r) == tcp_line(line@, protocol, owners@),
{
    let v = chars_of(line);
    parse_proc_line_chars(v.as_slice(), protocol, owners, true)
}

/// Parses a single line of `/proc/net/udp[6]`.
pub fn parse_udp_line(line: &str, protocol: Protocol, owners: &[ProcessFds]) -> (r: Option<SocketInfo>)
    ensures
        opt_socket(r) == udp_line(line@, protocol, owners@),
{
    let v = chars_of(line);
    parse_proc_line_chars(v.as_slice(), protocol, owners, false)
}

/// The sockets of the lines that parse, in order.
pub open spec fn parse_proc_lines(ls: Seq<Seq<char>>, protocol: Protocol, owners: Seq<ProcessFds>, tcp: bool) -> Seq<SocketView>
    decreases ls.len(),
{
    if ls.len() == 0 {
        seq![]
    } else {
        let init = parse_proc_lines(ls.drop_last(), protocol, owners, tcp);
        match proc_line(ls.last(), protocol, owners, tcp) {
            Some(s) => init.push(s),
            None => init,
        }
    }
}

/// The lines after the header line.
pub open spec fn data_lines(ls: Seq<Seq<char>>) -> Seq<Seq<char>> {
    if ls.len() == 0 {
        ls
    } else {
        ls.drop_first()
    }
}

/// The sockets of a `/proc/net` table: every line after the header that parses.
#[verifier::opaque]
pub open spec fn proc_net_sockets(content: Seq<char>, protocol: Protocol, owners: Seq<ProcessFds>, tcp: bool) -> Seq<SocketView> {
    parse_proc_lines(data_lines(lines(content)), protocol, owners, tcp)
}



fn parse_proc_net(content: &str, protocol: Protocol, owners: &[ProcessFds], tcp: bool) -> (r: Vec<SocketInfo>)
    ensures
        socket_views(r@) == proc_net_sockets(content@, protocol, owners@, tcp),
{
    let chars = chars_of(content);
    let ls = lines_chars(chars.as_slice());
    let ghost lv = views(ls@);
    let mut out: Vec<SocketInfo> = Vec::new();
    let n = ls.len();
    if n == 0 {
        proof {
            reveal(proc_net_sockets);
        }
        return out;
    }
    let mut j: usize = 1;
    assert(lv.subrange(1, 1) =~= Seq::<Seq<char>>::empty());
    while j < n
        invariant
            n == ls@.len(),
            lv == views(ls@),
            1 <= j <= n,
            socket_views(out@) == parse_proc_lines(lv.subrange(1, j as int), protocol, owners@, tcp),
        decreases n - j,
    {
        let ghost pre = lv.subrange(1, j + 1);
        assert(pre.drop_last() =~= lv.subrange(1, j as int));
        assert(pre.last() == ls@[j as int]@);
        match parse_proc_line_chars(ls[j].as_slice(), protocol, owners, tcp) {
            Some(s) => {
                proof {
                    lemma_socket_views_push(out@, s);
                }
                out.push(s);
            },
            None => {},
        }
        j = j + 1;
    }
    assert(lv.subrange(1, n as int) =~= data_lines(lv));
    proof {
        reveal(proc_net_sockets);
    }
    out
}

/// Parses the contents of `/proc/net/tcp` or `/proc/net/tcp6`.
pub fn parse_proc_net_tcp(content: &str, protocol: Protocol, owners: &[ProcessFds]) -> (r: Vec<SocketInfo>)
    ensures
        socket_views(r@) == proc_net_sockets(content@, protocol, owners@, true),
{
    parse_proc_net(content, protocol, owners, true)
}

/// Parses the contents of `/proc/net/udp` or `/proc/net/udp6`.
pub fn parse_proc_net_udp(content: &str, protocol: Protocol, owners: &[ProcessFds]) -> (r: Vec<SocketInfo>)
    ensures
        socket_views(r@) == proc_net_sockets(content@, protocol, owners@, false),
{
    parse_proc_net(content, protocol, owners, false)
}

// ---------------------------------------------------------------------------
// Filtering
// ---------------------------------------------------------------------------

/// Keeps the sockets that pass the listen, PID and port parts of the filter, in order.
pub fn apply_filters(sockets: Vec<SocketInfo>, filter: &SocketFilter) -> (r: Vec<SocketInfo>)
    ensures
        socket_views(r@) == filter_sockets(filter@, socket_views(sockets@)),
{
    let ghost all = sockets@;
    let mut out: Vec<SocketInfo> = Vec::new();
    for s in it: sockets.into_iter()
        invariant
            it.seq() == all,
            socket_views(out@) == filter_sockets(filter@, socket_views(all.take(it.index()))),
    {
        let ghost k = it.index();
        proof {
            assert(all.take(k + 1) =~= all.take(k).push(s));
            lemma_socket_views_push(all.take(k), s);
            let vv = socket_views(all.take(k + 1));
            assert(vv.drop_last() =~= socket_views(all.take(k)));
            assert(vv.last() == s@);
        }
        if socket_passes(filter, &s) {
            proof {
                lemma_socket_views_push(out@, s);
            }
            out.push(s);
        }
    }
    assert(all.take(all.len() as int) =~= all);
    out
}


// ---------------------------------------------------------------------------
// Sockets and processes
// ---------------------------------------------------------------------------

/// What `/proc/<pid>` showed for the process that is asked about.
pub struct ProcessFiles {
    /// `/proc/<pid>` exists.
    pub exists: bool,
    /// The contents of `/proc/<pid>/comm`, if it could be read as text.
    pub comm: Option<String>,
    /// The contents of `/proc/<pid>/cmdline`, if it could be read as text.
    pub cmdline: Option<String>,
}

/// What `/proc` showed.
pub struct LinuxSnapshot {
    /// `/proc/net` exists.
    pub proc_net_exists: bool,
    /// The contents of `/proc/net/tcp`, if it could be read as text.
    pub tcp: Option<String>,
    /// The contents of `/proc/net/tcp6`, if it could be read as text.
    pub tcp6: Option<String>,
    /// The contents of `/proc/net/udp`, if it could be read as text.
    pub udp: Option<String>,
    /// The contents of `/proc/net/udp6`, if it could be read as text.
    pub udp6: Option<String>,
    /// The directories of `/proc`, in the order they were listed, with their `fd` links.
    pub fd_owners: Vec<ProcessFds>,
    /// The directory of the process asked about, if any.
    pub process: ProcessFiles,
}

/// The sockets of one table, none if it could not be read.
pub open spec fn table_sockets(content: Option<String>, protocol: Protocol, owners: Seq<ProcessFds>, tcp: bool) -> Seq<SocketView> {
    match content {
        Some(c) => proc_net_sockets(c@, protocol, owners, tcp),
        None => seq![],
    }
}

/// The sockets read from the tables that the filter's protocols call for:
/// TCP, TCP6, UDP, UDP6, in that order.
pub open spec fn linux_collected(snap: LinuxSnapshot, f: FilterView) -> Seq<SocketView> {
    let owners = snap.fd_owners@;
    let tcp = if wants_tcp(f.protocols) {
        table_sockets(snap.tcp, Protocol::Tcp, owners, true) + table_sockets(
            snap.tcp6,
            Protocol::Tcp6,
            owners,
            true,
        )
    } else {
        seq![]
    };
    let udp = if wants_udp(f.protocols) {
        table_sockets(snap.udp, Protocol::Udp, owners, false) + table_sockets(
            snap.udp6,
            Protocol::Udp6,
            owners,
            false,
        )
    } else {
        seq![]
    };
    tcp + udp
}

/// The outcome of listing sockets on Linux: the sockets read that pass the
/// filter and whose protocol it admits.
pub open spec fn linux_sockets(snap: LinuxSnapshot, f: FilterView) -> Result<Seq<SocketView>, ErrorView> {
    if !snap.proc_net_exists {
        Err(ErrorView::ProcNetUnavailable)
    } else {
        Ok(admit_protocols(f, filter_sockets(f, linux_collected(snap, f))))
    }
}


fn append_table(all: &mut Vec<SocketInfo>, content: &Option<String>, protocol: Protocol, owners: &[ProcessFds], tcp: bool)
    ensures
        socket_views(final(all)@) == socket_views(old(all)@) + table_sockets(*content, protocol, owners@, tcp),
{
    match content {
        Some(c) => {
            let mut v = parse_proc_net(c.as_str(), protocol, owners, tcp);
            proof {
                lemma_socket_views_add(all@, v@);
            }
            all.append(&mut v);
        },
        None => {
            assert(socket_views(all@) + seq![] =~= socket_views(all@));
        },
    }
}

/// Keeps the sockets whose protocol the filter admits, in order.
fn keep_admitted(sockets: Vec<SocketInfo>, filter: &SocketFilter) -> (r: Vec<SocketInfo>)
    ensures
        socket_views(r@) == admit_protocols(filter@, socket_views(sockets@)),
{
    let ghost all = sockets@;
    let mut out: Vec<SocketInfo> = Vec::new();
    for s in it: sockets.into_iter()
        invariant
            it.seq() == all,
            socket_views(out@) == admit_protocols(filter@, socket_views(all.take(it.index()))),
    {
        let ghost k = it.index();
        proof {
            assert(all.take(k + 1) =~= all.take(k).push(s));
            lemma_socket_views_push(all.take(k), s);
            let vv = socket_views(all.take(k + 1));
            assert(vv.drop_last() =~= socket_views(all.take(k)));
            assert(vv.last() == s@);
        }
        if filter_admits(filter, s.protocol) {
            proof {
                lemma_socket_views_push(out@, s);
            }
            out.push(s);
        }
    }
    assert(all.take(all.len() as int) =~= all);
    out
}

/// Lists the sockets on Linux that pass the filter and whose protocol it admits.
#[verifier::spinoff_prover]
pub fn get_sockets(filter: &SocketFilter, snap: &LinuxSnapshot) -> (r: Result<Vec<SocketInfo>, PlatformError>)
    ensures
        sockets_result(r) == linux_sockets(*snap, filter@),
{
    if !snap.proc_net_exists {
        return Err(PlatformError::ProcNetUnavailable);
    }
    let owners = snap.fd_owners.as_slice();
    let ghost o = snap.fd_owners@;
    let ghost t4 = table_sockets(snap.tcp, Protocol::Tcp, o, true);
    let ghost t6 = table_sockets(snap.tcp6, Protocol::Tcp6, o, true);
    let ghost u4 = table_sockets(snap.udp, Protocol::Udp, o, false);
    let ghost u6 = table_sockets(snap.udp6, Protocol::Udp6, o, false);
    let mut all: Vec<SocketInfo> = Vec::new();
    assert(socket_views(all@) =~= Seq::<SocketView>::empty());
    let want_tcp = filter_wants_tcp(filter);
    if want_tcp {
        append_table(&mut all, &snap.tcp, Protocol::Tcp, owners, true);
        append_table(&mut all, &snap.tcp6, Protocol::Tcp6, owners, true);
    }
    let ghost tcp_part = socket_views(all@);
    assert(tcp_part =~= if want_tcp { t4 + t6 } else { seq![] });
    let want_udp = filter_wants_udp(filter);
    if want_udp {
        append_table(&mut all, &snap.udp, Protocol::Udp, owners, false);
        append_table(&mut all, &snap.udp6, Protocol::Udp6, owners, false);
    }
    assert(socket_views(all@) =~= tcp_part + if want_udp { u4 + u6 } else { seq![] });
    assert(socket_views(all@) == linux_collected(*snap, filter@));
    let kept = apply_filters(all, filter);
    Ok(keep_admitted(kept, filter))
}

/// `s` with every NUL replaced by a space.
pub open spec fn nul_to_space(s: Seq<char>) -> Seq<char> {
    s.map_values(|c: char| if c == '\0' { ' ' } else { c })
}

/// The outcome of asking about process `pid` on Linux.
pub open spec fn linux_process(pid: u32, snap: LinuxSnapshot) -> Result<ProcessView, ErrorView> {
    if !snap.process.exists {
        Err(ErrorView::ProcessNotFound(pid))
    } else {
        match snap.process.comm {
            None => Err(ErrorView::CommUnreadable(pid)),
            Some(comm) => match linux_sockets(snap, pid_filter(pid)) {
                Err(e) => Err(e),
                Ok(sockets) => Ok(
                    ProcessView {
                        pid,
                        name: trim(comm@),
                        command_line: cmdline_text(snap.process.cmdline),
                        sockets,
                    },
                ),
            },
        }
    }
}


fn nul_to_space_string(s: &str) -> (r: String)
    ensures
        r@ == nul_to_space(s@),
{
    let v = chars_of(s);
    let mut out = String::new();
    let mut i: usize = 0;
    while i < v.len()
        invariant
            i <= v@.len(),
            v@ == s@,
            out@ == nul_to_space(v@.take(i as int)),
        decreases v@.len() - i,
    {
        let c = v[i];
        out.push(if c == '\0' { ' ' } else { c });
        assert(nul_to_space(v@.take(i + 1)) =~= nul_to_space(v@.take(i as int)).push(
            if c == '\0' { ' ' } else { c },
        ));
        i = i + 1;
    }
    assert(v@.take(v@.len() as int) =~= v@);
    out
}

/// A command line from the contents of a `cmdline` file.
fn cmdline_string(c: &Option<String>) -> (r: Option<String>)
    ensures
        opt_text(r) == cmdline_text(*c),
{
    match c {
        Some(c) => {
            if c.as_str().is_empty() {
                None
            } else {
                Some(nul_to_space_string(c.as_str()))
            }
        },
        None => None,
    }
}

/// Gets the name, command line and sockets of process `pid` on Linux.
pub fn get_process_info(pid: u32, snap: &LinuxSnapshot) -> (r: Result<ProcessInfo, PlatformError>)
    ensures
        process_result(r) == linux_process(pid, *snap),
{
    if !snap.process.exists {
        return Err(PlatformError::ProcessNotFound(pid));
    }
    let comm = match &snap.process.comm {
        Some(c) => c,
        None => {
            return Err(PlatformError::CommUnreadable(pid));
        },
    };
    let name = string_of(trim_chars(chars_of(comm.as_str()).as_slice()).as_slice());
    let command_line = cmdline_string(&snap.process.cmdline);
    let filter = make_pid_filter(pid);
    let sockets = match get_sockets(&filter, snap) {
        Ok(s) => s,
        Err(e) => {
            return Err(e);
        },
    };
    Ok(ProcessInfo { pid, name, command_line, sockets })
}

} // verus!
