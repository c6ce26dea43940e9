//! Properties of the library as a whole, stated over its models and proved.

use crate::cli::ListOptions;
use crate::commands::get::{port_filter, port_report, port_socket_text, port_sockets_text};
use crate::commands::list::{list_filter, list_protocols, list_report};
use crate::commands::report::ReportView;
use crate::model::output::{process_table_text, sockets_table_text, table_records};
use crate::model::types::{
    protocol_text, state_text, ProcessView,
    address_text, admit_protocols, filter_sockets, protocol_admitted, is_tcp_family, is_udp_family, passes_filter, AddressView,
    FilterView, Protocol, SocketState, SocketView,
};
use crate::number::{
    decimal, fits_hex, hex_upper_width, lemma_decimal_digits, lemma_decimal_parses_back,
    lemma_hex_upper_width, parse_bounded,
};
use crate::platform::common::{names_tcp, names_udp, pid_filter, wants_tcp, wants_udp, ErrorView};
use crate::platform::linux::{
    proc_line, tcp_state, nul_to_space, data_lines, ipv4_text, ipv6_display, ipv6_group, ipv6_groups, kernel_address, sole_colon, linux_collected, linux_sockets, parse_proc_lines, proc_net_sockets,
    table_sockets, LinuxSnapshot, ProcessFds,
};
use crate::platform::macos::{
    lsof_state, lsof_protocol, is_data_line, with_command, with_commands, OwnerCommand, lsof_address, lsof_line_socket, lsof_lines, lsof_run, mac_sockets, MacSnapshot,
};
use crate::platform::{platform_process, platform_sockets, SystemSnapshot};
use crate::text::{contains, occurs_at, split_ws, is_last, is_ws, lines, trim, trim_end, trim_start};
use vstd::prelude::*;

verus! {

/// The protocol's family is one that the filter's protocols ask for.
pub open spec fn family_wanted(f: FilterView, p: Protocol) -> bool {
    &&& is_tcp_family(p) ==> wants_tcp(f.protocols)
    &&& is_udp_family(p) ==> wants_udp(f.protocols)
}

/// Every socket of `v` passes the filter and is of a wanted family.
pub open spec fn all_passing_wanted(f: FilterView, v: Seq<SocketView>) -> bool {
    forall|i: int| 0 <= i < v.len() ==> passes_filter(f, #[trigger] v[i]) && family_wanted(
        f,
        v[i].protocol,
    )
}

/// Every socket of `v` passes the filter, is of a wanted family, and has a
/// protocol that the filter admits.
pub open spec fn all_admitted(f: FilterView, v: Seq<SocketView>) -> bool {
    &&& all_passing_wanted(f, v)
    &&& forall|i: int| 0 <= i < v.len() ==> protocol_admitted(f, (#[trigger] v[i]).protocol)
}

/// Filtering keeps exactly the sockets that pass the filter: each socket it
/// returns passes and was given, and each given socket that passes is returned.
pub proof fn law_filter_keeps_exactly_the_passing(f: FilterView, s: Seq<SocketView>)
    ensures
        forall|i: int| 0 <= i < filter_sockets(f, s).len() ==> passes_filter(f, #[trigger] filter_sockets(f, s)[i]) && s.contains(filter_sockets(f, s)[i]),
        forall|j: int| 0 <= j < s.len() && passes_filter(f, #[trigger] s[j]) ==> filter_sockets(f, s).contains(s[j]),
    decreases s.len(),
{
    if s.len() > 0 {
        let init = s.drop_last();
        law_filter_keeps_exactly_the_passing(f, init);
        let r = filter_sockets(f, s);
        let ri = filter_sockets(f, init);
        assert forall|i: int| 0 <= i < r.len() implies passes_filter(f, #[trigger] r[i]) && s.contains(r[i]) by {
            if i < ri.len() {
                assert(r[i] == ri[i]);
                assert(ri.contains(ri[i]));
                let k = choose|k: int| 0 <= k < init.len() && init[k] == ri[i];
                assert(s[k] == init[k]);
            } else {
                assert(r[i] == s.last());
                assert(s[s.len() - 1] == s.last());
            }
        }
        assert forall|j: int| 0 <= j < s.len() && passes_filter(f, #[trigger] s[j]) implies r.contains(s[j]) by {
            if j < s.len() - 1 {
                assert(init[j] == s[j]);
                assert(ri.contains(s[j]));
                let k = choose|k: int| 0 <= k < ri.len() && ri[k] == s[j];
                assert(r[k] == ri[k]);
            } else {
                assert(r[r.len() - 1] == s[j]);
            }
        }
    }
}

proof fn lemma_filtered_admitted(f: FilterView, s: Seq<SocketView>)
    requires
        forall|i: int| 0 <= i < s.len() ==> family_wanted(f, #[trigger] s[i].protocol),
    ensures
        all_passing_wanted(f, filter_sockets(f, s)),
{
    law_filter_keeps_exactly_the_passing(f, s);
    let r = filter_sockets(f, s);
    assert forall|i: int| 0 <= i < r.len() implies passes_filter(f, #[trigger] r[i]) && family_wanted(f, r[i].protocol) by {
        assert(s.contains(r[i]));
        let k = choose|k: int| 0 <= k < s.len() && s[k] == r[i];
        assert(family_wanted(f, s[k].protocol));
    }
}

proof fn lemma_proc_lines_protocol(ls: Seq<Seq<char>>, p: Protocol, o: Seq<ProcessFds>, tcp: bool)
    ensures
        forall|i: int| 0 <= i < parse_proc_lines(ls, p, o, tcp).len() ==> (#[trigger] parse_proc_lines(ls, p, o, tcp)[i]).protocol == p,
    decreases ls.len(),
{
    if ls.len() > 0 {
        lemma_proc_lines_protocol(ls.drop_last(), p, o, tcp);
    }
}

proof fn lemma_table_protocol(content: Option<String>, p: Protocol, o: Seq<ProcessFds>, tcp: bool)
    ensures
        forall|i: int| 0 <= i < table_sockets(content, p, o, tcp).len() ==> (#[trigger] table_sockets(content, p, o, tcp)[i]).protocol == p,
{
    reveal(proc_net_sockets);
    match content {
        Some(c) => {
            lemma_proc_lines_protocol(
                data_lines(lines(c@)),
                p,
                o,
                tcp,
            );
        },
        None => {},
    }
}

/// On Linux, every socket listed passes the filter and its protocol is one
/// of the filter's protocols when the filter names any.
pub proof fn law_linux_sockets_admitted(snap: LinuxSnapshot, f: FilterView)
    ensures
        linux_sockets(snap, f) matches Ok(v) ==> all_admitted(f, v),
{
    let o = snap.fd_owners@;
    lemma_table_protocol(snap.tcp, Protocol::Tcp, o, true);
    lemma_table_protocol(snap.tcp6, Protocol::Tcp6, o, true);
    lemma_table_protocol(snap.udp, Protocol::Udp, o, false);
    lemma_table_protocol(snap.udp6, Protocol::Udp6, o, false);
    let c = linux_collected(snap, f);
    let t4 = table_sockets(snap.tcp, Protocol::Tcp, o, true);
    let t6 = table_sockets(snap.tcp6, Protocol::Tcp6, o, true);
    let u4 = table_sockets(snap.udp, Protocol::Udp, o, false);
    let u6 = table_sockets(snap.udp6, Protocol::Udp6, o, false);
    let tcp: Seq<SocketView> = if wants_tcp(f.protocols) { t4 + t6 } else { seq![] };
    let udp: Seq<SocketView> = if wants_udp(f.protocols) { u4 + u6 } else { seq![] };
    assert(c == tcp + udp);
    assert forall|i: int| 0 <= i < c.len() implies family_wanted(f, #[trigger] c[i].protocol) by {
        if i < tcp.len() {
            assert(c[i] == tcp[i]);
            if i < t4.len() {
                assert(tcp[i] == t4[i]);
            } else {
                assert(tcp[i] == t6[i - t4.len()]);
            }
        } else {
            assert(c[i] == udp[i - tcp.len()]);
            let k = i - tcp.len();
            if k < u4.len() {
                assert(udp[k] == u4[k]);
            } else {
                assert(udp[k] == u6[k - u4.len()]);
            }
        }
    }
    if snap.proc_net_exists {
        lemma_filtered_admitted(f, c);
        let fc = filter_sockets(f, c);
        lemma_admit_keeps(f, fc);
        let r = admit_protocols(f, fc);
        assert forall|i: int| 0 <= i < r.len() implies passes_filter(f, #[trigger] r[i]) && family_wanted(f, r[i].protocol) by {
            let k = choose|k: int| 0 <= k < fc.len() && fc[k] == r[i];
            assert(passes_filter(f, fc[k]) && family_wanted(f, fc[k].protocol));
        }
    }
}

/// Keeping the sockets whose protocol the filter admits keeps only such
/// sockets, each of them one of those given.
proof fn lemma_admit_keeps(f: FilterView, s: Seq<SocketView>)
    ensures
        forall|i: int| 0 <= i < admit_protocols(f, s).len() ==> protocol_admitted(f, (#[trigger] admit_protocols(f, s)[i]).protocol) && s.contains(admit_protocols(f, s)[i]),
    decreases s.len(),
{
    if s.len() > 0 {
        let init = s.drop_last();
        lemma_admit_keeps(f, init);
        let r = admit_protocols(f, s);
        let ri = admit_protocols(f, init);
        assert forall|i: int| 0 <= i < r.len() implies protocol_admitted(f, (#[trigger] r[i]).protocol) && s.contains(r[i]) by {
            if i < ri.len() {
                assert(r[i] == ri[i]);
                let k = choose|k: int| 0 <= k < init.len() && init[k] == ri[i];
                assert(s[k] == init[k]);
            } else {
                assert(r[i] == s.last());
                assert(s[s.len() - 1] == s.last());
            }
        }
    }
}

/// The sockets kept for their protocol have every property that all given sockets have.
proof fn lemma_admit_subset(f: FilterView, s: Seq<SocketView>, prop: spec_fn(SocketView) -> bool)
    requires
        forall|i: int| 0 <= i < s.len() ==> prop(#[trigger] s[i]),
    ensures
        forall|i: int| 0 <= i < admit_protocols(f, s).len() ==> prop(#[trigger] admit_protocols(f, s)[i]),
{
    lemma_admit_keeps(f, s);
    let r = admit_protocols(f, s);
    assert forall|i: int| 0 <= i < r.len() implies prop(#[trigger] r[i]) by {
        let k = choose|k: int| 0 <= k < s.len() && s[k] == r[i];
        assert(prop(s[k]));
    }
}

/// Keeping sockets by protocol gives the same for two filters that admit the same protocols.
proof fn lemma_admit_same(fa: FilterView, fb: FilterView, s: Seq<SocketView>)
    requires
        forall|p: Protocol| protocol_admitted(fa, p) == protocol_admitted(fb, p),
    ensures
        admit_protocols(fa, s) == admit_protocols(fb, s),
    decreases s.len(),
{
    if s.len() > 0 {
        lemma_admit_same(fa, fb, s.drop_last());
    }
}

proof fn lemma_lsof_lines_admitted(ls: Seq<Seq<char>>, f: FilterView, base: Protocol)
    ensures
        forall|i: int| 0 <= i < lsof_lines(ls, f, base).len() ==> {
            let s = #[trigger] lsof_lines(ls, f, base)[i];
            &&& passes_filter(f, s)
            &&& protocol_admitted(f, s.protocol)
            &&& (is_tcp_family(s.protocol) <==> is_tcp_family(base))
            &&& (is_udp_family(s.protocol) <==> is_udp_family(base))
            &&& (is_udp_family(s.protocol) ==> s.state == SocketState::Unknown)
        },
    decreases ls.len(),
{
    if ls.len() > 0 {
        lemma_lsof_lines_admitted(ls.drop_last(), f, base);
    }
}

/// A protocol that the filter admits is of a family that it asks for.
proof fn lemma_admitted_wanted(f: FilterView, p: Protocol)
    requires
        protocol_admitted(f, p),
    ensures
        family_wanted(f, p),
{
    match f.protocols {
        Some(ps) => {
            let k = choose|k: int| 0 <= k < ps.len() && ps[k] == p;
            if is_tcp_family(p) {
                assert(is_tcp_family(ps[k]));
                assert(names_tcp(ps));
            }
            if is_udp_family(p) {
                assert(is_udp_family(ps[k]));
                assert(names_udp(ps));
            }
        },
        None => {},
    }
}

/// On macOS, every socket listed passes the filter, and its protocol is
/// one of the filter's protocols when the filter names any.
pub proof fn law_mac_sockets_admitted(snap: MacSnapshot, f: FilterView)
    ensures
        mac_sockets(snap, f) matches Ok(v) ==> all_admitted(f, v),
{
    match mac_sockets(snap, f) {
        Ok(v) => {
            let t: Seq<SocketView> = if wants_tcp(f.protocols) {
                lsof_run(snap.tcp, f, Protocol::Tcp)->Ok_0
            } else {
                seq![]
            };
            let u: Seq<SocketView> = if wants_udp(f.protocols) {
                lsof_run(snap.udp, f, Protocol::Udp)->Ok_0
            } else {
                seq![]
            };
            let w = t + u;
            assert(v == with_commands(snap.owner_commands@, w));
            match snap.tcp {
                Some(o) => lemma_lsof_lines_admitted(lines(o.stdout@), f, Protocol::Tcp),
                None => {},
            }
            match snap.udp {
                Some(o) => lemma_lsof_lines_admitted(lines(o.stdout@), f, Protocol::Udp),
                None => {},
            }
            assert forall|i: int| 0 <= i < v.len() implies passes_filter(f, #[trigger] v[i]) && family_wanted(f, v[i].protocol) && protocol_admitted(f, v[i].protocol) by {
                assert(v[i] == with_command(snap.owner_commands@, w[i]));
                if i < t.len() {
                    assert(w[i] == t[i]);
                } else {
                    assert(w[i] == u[i - t.len()]);
                }
                lemma_admitted_wanted(f, v[i].protocol);
            }
        },
        Err(_) => {},
    }
}

/// On either platform, every socket listed passes the filter and its
/// protocol is one of the filter's protocols when the filter names any.
pub proof fn law_sockets_admitted(snap: SystemSnapshot, f: FilterView)
    ensures
        platform_sockets(snap, f) matches Ok(v) ==> all_admitted(f, v),
{
    match snap {
        SystemSnapshot::Linux(s) => law_linux_sockets_admitted(s, f),
        SystemSnapshot::MacOs(s) => law_mac_sockets_admitted(s, f),
    }
}


/// Every protocol is a TCP or a UDP protocol.
proof fn lemma_protocol_families(p: Protocol)
    ensures
        is_tcp_family(p) || is_udp_family(p),
        !(is_tcp_family(p) && is_udp_family(p)),
{
}

/// The sockets that `ptu list` shows match its options: only listening
/// sockets with `--listen`, only the given process with `--pid`, only the
/// given port (local or remote) with `--port`, only TCP with `--tcp` alone,
/// only UDP with `--udp` alone; only IPv4 with `--ipv4` alone and only IPv6
/// with `--ipv6` alone, unless both `--tcp` and `--udp` are given.
pub proof fn law_list_shows_what_the_options_ask(o: ListOptions, snap: SystemSnapshot)
    ensures
        platform_sockets(snap, list_filter(o)) matches Ok(v) ==> forall|i: int| 0 <= i < v.len() ==> {
            let s = #[trigger] v[i];
            &&& o.listen ==> s.state == SocketState::Listen
            &&& o.pid matches Some(p) ==> s.pid == Some(p)
            &&& o.port matches Some(p) ==> (s.local.port == p || (s.remote matches Some(r) && r.port == p))
            &&& o.tcp && !o.udp ==> is_tcp_family(s.protocol)
            &&& o.udp && !o.tcp ==> is_udp_family(s.protocol)
            &&& (o.ipv4 && !o.ipv6 && !(o.tcp && o.udp)) ==> (s.protocol == Protocol::Tcp || s.protocol == Protocol::Udp)
            &&& (o.ipv6 && !o.ipv4 && !(o.tcp && o.udp)) ==> (s.protocol == Protocol::Tcp6 || s.protocol == Protocol::Udp6)
        },
{
    let f = list_filter(o);
    let ps = list_protocols(o);
    law_sockets_admitted(snap, f);
    match platform_sockets(snap, f) {
        Ok(v) => {
            assert forall|i: int| 0 <= i < v.len() implies {
                let s = #[trigger] v[i];
                &&& o.listen ==> s.state == SocketState::Listen
                &&& o.pid matches Some(p) ==> s.pid == Some(p)
                &&& o.port matches Some(p) ==> (s.local.port == p || (s.remote matches Some(r) && r.port == p))
                &&& o.tcp && !o.udp ==> is_tcp_family(s.protocol)
                &&& o.udp && !o.tcp ==> is_udp_family(s.protocol)
                &&& (o.ipv4 && !o.ipv6 && !(o.tcp && o.udp)) ==> (s.protocol == Protocol::Tcp || s.protocol == Protocol::Udp)
                &&& (o.ipv6 && !o.ipv4 && !(o.tcp && o.udp)) ==> (s.protocol == Protocol::Tcp6 || s.protocol == Protocol::Udp6)
            } by {
                let s = v[i];
                assert(passes_filter(f, s) && family_wanted(f, s.protocol));
                lemma_protocol_families(s.protocol);
                if o.tcp && !o.udp {
                    assert(ps.len() > 0);
                    if names_udp(ps) {
                        let k = choose|k: int| 0 <= k < ps.len() && is_udp_family(#[trigger] ps[k]);
                    }
                }
                if o.udp && !o.tcp {
                    assert(ps.len() > 0);
                    if names_tcp(ps) {
                        let k = choose|k: int| 0 <= k < ps.len() && is_tcp_family(#[trigger] ps[k]);
                    }
                }
                if !(o.tcp && o.udp) && (o.ipv4 != o.ipv6) {
                    assert(ps.len() > 0);
                    assert(protocol_admitted(f, s.protocol));
                    let k = choose|k: int| 0 <= k < ps.len() && ps[k] == s.protocol;
                }
            }
        },
        Err(_) => {},
    }
}

proof fn lemma_filter_ignores_protocols(fa: FilterView, fb: FilterView, s: Seq<SocketView>)
    requires
        fa.listen_only == fb.listen_only,
        fa.pid == fb.pid,
        fa.port == fb.port,
    ensures
        filter_sockets(fa, s) == filter_sockets(fb, s),
    decreases s.len(),
{
    if s.len() > 0 {
        lemma_filter_ignores_protocols(fa, fb, s.drop_last());
    }
}

proof fn lemma_lsof_lines_same(fa: FilterView, fb: FilterView, ls: Seq<Seq<char>>, base: Protocol)
    requires
        fa.listen_only == fb.listen_only,
        fa.pid == fb.pid,
        fa.port == fb.port,
        forall|p: Protocol| protocol_admitted(fa, p) == protocol_admitted(fb, p),
    ensures
        lsof_lines(ls, fa, base) == lsof_lines(ls, fb, base),
    decreases ls.len(),
{
    if ls.len() > 0 {
        lemma_lsof_lines_same(fa, fb, ls.drop_last(), base);
    }
}

/// Naming all four protocols admits what naming none admits.
proof fn lemma_all_protocols_as_none(fa: FilterView, fb: FilterView, snap: SystemSnapshot)
    requires
        fa.protocols is None,
        fb.protocols == Some(seq![Protocol::Tcp, Protocol::Tcp6, Protocol::Udp, Protocol::Udp6]),
        fa.listen_only == fb.listen_only,
        fa.pid == fb.pid,
        fa.port == fb.port,
    ensures
        platform_sockets(snap, fa) == platform_sockets(snap, fb),
{
    let all = seq![Protocol::Tcp, Protocol::Tcp6, Protocol::Udp, Protocol::Udp6];
    assert forall|p: Protocol| protocol_admitted(fa, p) == protocol_admitted(fb, p) by {
        match p {
            Protocol::Tcp => assert(all[0] == p),
            Protocol::Tcp6 => assert(all[1] == p),
            Protocol::Udp => assert(all[2] == p),
            Protocol::Udp6 => assert(all[3] == p),
        }
    }
    assert(is_tcp_family(all[0]) && is_udp_family(all[2]));
    assert(wants_tcp(fb.protocols) && wants_udp(fb.protocols));
    match snap {
        SystemSnapshot::Linux(l) => {
            assert(linux_collected(l, fa) == linux_collected(l, fb));
            lemma_filter_ignores_protocols(fa, fb, linux_collected(l, fa));
            lemma_admit_same(fa, fb, filter_sockets(fa, linux_collected(l, fa)));
        },
        SystemSnapshot::MacOs(m) => {
            match m.tcp {
                Some(out) => lemma_lsof_lines_same(fa, fb, lines(out.stdout@), Protocol::Tcp),
                None => {},
            }
            match m.udp {
                Some(out) => lemma_lsof_lines_same(fa, fb, lines(out.stdout@), Protocol::Udp),
                None => {},
            }
            assert(lsof_run(m.tcp, fa, Protocol::Tcp) == lsof_run(m.tcp, fb, Protocol::Tcp));
            assert(lsof_run(m.udp, fa, Protocol::Udp) == lsof_run(m.udp, fb, Protocol::Udp));
        },
    }
}

/// The list options with neither `--tcp` nor `--udp`.
pub open spec fn without_protocol_flags(o: ListOptions) -> ListOptions {
    ListOptions {
        tcp: false,
        udp: false,
        listen: o.listen,
        pid: o.pid,
        port: o.port,
        ipv4: o.ipv4,
        ipv6: o.ipv6,
    }
}

/// `ptu list --tcp --udp` lists what `ptu list` lists, as the README says,
/// when neither or both of `--ipv4` and `--ipv6` are given as well.
pub proof fn law_tcp_and_udp_flags_list_what_neither_lists(o: ListOptions, json: bool, snap: SystemSnapshot)
    requires
        o.tcp,
        o.udp,
        o.ipv4 == o.ipv6,
    ensures
        list_report(o, json, snap) == list_report(without_protocol_flags(o), json, snap),
{
    let n = without_protocol_flags(o);
    let all = seq![Protocol::Tcp, Protocol::Tcp6, Protocol::Udp, Protocol::Udp6];
    assert(list_protocols(n) =~= all);
    lemma_all_protocols_as_none(list_filter(o), list_filter(n), snap);
}

/// `ptu list --port P` (with no other option) finds the sockets that
/// `ptu get port P` finds, IPv6 ones included.
pub proof fn law_list_port_finds_what_get_port_finds(port: u16, snap: SystemSnapshot)
    ensures
        platform_sockets(
            snap,
            list_filter(
                ListOptions {
                    tcp: false,
                    udp: false,
                    listen: false,
                    pid: None,
                    port: Some(port),
                    ipv4: false,
                    ipv6: false,
                },
            ),
        ) == platform_sockets(snap, port_filter(port)),
{
    let o = ListOptions {
        tcp: false,
        udp: false,
        listen: false,
        pid: None,
        port: Some(port),
        ipv4: false,
        ipv6: false,
    };
    let all = seq![Protocol::Tcp, Protocol::Tcp6, Protocol::Udp, Protocol::Udp6];
    assert(list_protocols(o) =~= all);
    lemma_all_protocols_as_none(port_filter(port), list_filter(o), snap);
}

/// The sockets reported for a process are that process's sockets.
pub proof fn law_process_sockets_belong_to_it(pid: u32, snap: SystemSnapshot)
    ensures
        platform_process(pid, snap) matches Ok(p) ==> forall|i: int| 0 <= i < p.sockets.len() ==> (#[trigger] p.sockets[i]).pid == Some(pid),
{
    law_sockets_admitted(snap, pid_filter(pid));
    match snap {
        SystemSnapshot::Linux(l) => {
            assert(platform_sockets(snap, pid_filter(pid)) == linux_sockets(l, pid_filter(pid)));
        },
        SystemSnapshot::MacOs(m) => {
            assert(platform_sockets(snap, pid_filter(pid)) == mac_sockets(m, pid_filter(pid)));
        },
    }
}

/// `ptu get port` reports only sockets that use the port, locally or remotely;
/// in text it says that there are none exactly when none does, and with
/// `--json` it gives the sockets, an empty array when there are none.
pub proof fn law_get_port_reports_the_port(port: u16, json: bool, snap: SystemSnapshot)
    ensures
        platform_sockets(snap, port_filter(port)) matches Ok(v) ==> forall|i: int| 0 <= i < v.len() ==> ((#[trigger] v[i]).local.port == port || (v[i].remote matches Some(r) && r.port == port)),
        port_report(port, json, snap) matches Ok(ReportView::Text(t)) ==> (t == "No sockets found using port "@ + decimal(port as nat) + "\n"@ <==> (platform_sockets(snap, port_filter(port)) matches Ok(v) && v.len() == 0)),
        json ==> (platform_sockets(snap, port_filter(port)) matches Ok(v) ==> port_report(port, json, snap) == Ok::<ReportView, ErrorView>(ReportView::SocketsJson(v))),
{
    law_sockets_admitted(snap, port_filter(port));
    reveal_strlit("No sockets found using port ");
    reveal_strlit("Sockets using port ");
    match platform_sockets(snap, port_filter(port)) {
        Ok(v) => {
            if v.len() > 0 && !json {
                let a = "No sockets found using port "@ + decimal(port as nat) + "\n"@;
                let b = "Sockets using port "@ + decimal(port as nat) + ":\n\n"@ + port_sockets_text(v);
                assert(a[0] == 'N');
                assert(b[0] == 'S');
            }
        },
        Err(_) => {},
    }
}


/// An address, written `ip:port` as the tables write it, reads back as the
/// same address with lsof's reader, when the IP text does not begin with
/// whitespace or `[` and is not `*`.
pub proof fn law_lsof_address_reads_back(a: AddressView)
    requires
        a.ip.len() > 0 ==> !is_ws(a.ip[0]) && a.ip[0] != '[',
        a.ip != "*"@,
    ensures
        lsof_address(address_text(a)) == Some(a),
{
    let d = decimal(a.port as nat);
    lemma_decimal_digits(a.port as nat);
    lemma_decimal_parses_back(a.port as nat, 0xffff);
    reveal_strlit(":");
    reveal_strlit("*");
    let t = address_text(a);
    let c = a.ip.len() as int;
    assert(t == a.ip + seq![':'] + d);
    assert(t[c] == ':');
    assert(t.len() == c + 1 + d.len());
    assert(!is_ws(t[0])) by {
        if c == 0 {
            assert(t[0] == ':');
        } else {
            assert(t[0] == a.ip[0]);
        }
    }
    assert(t.last() == d.last());
    assert(!is_ws(t.last())) by {
        assert(0x30 <= d[d.len() - 1] as u32 <= 0x39);
    }
    assert(trim_start(t) == t);
    assert(trim_end(t) == t);
    assert(trim(t) == t);
    assert(t != "*"@) by {
        assert(t.len() >= 2);
    }
    assert(!(t[0] == '[')) by {
        if c == 0 {
            assert(t[0] == ':');
        } else {
            assert(t[0] == a.ip[0]);
        }
    }
    assert(is_last(t, ':', c)) by {
        assert forall|j: int| c < j < t.len() implies t[j] != ':' by {
            assert(t[j] == d[j - c - 1]);
            assert(0x30 <= d[j - c - 1] as u32 <= 0x39);
        }
    }
    let k = choose|k: int| is_last(t, ':', k);
    assert(k == c);
    assert(t.take(c) =~= a.ip);
    assert(t.skip(c + 1) =~= d);
}


proof fn lemma_proc_lines_udp_unknown(ls: Seq<Seq<char>>, p: Protocol, o: Seq<ProcessFds>)
    ensures
        forall|i: int| 0 <= i < parse_proc_lines(ls, p, o, false).len() ==> (#[trigger] parse_proc_lines(ls, p, o, false)[i]).state == SocketState::Unknown,
    decreases ls.len(),
{
    if ls.len() > 0 {
        lemma_proc_lines_udp_unknown(ls.drop_last(), p, o);
    }
}

proof fn lemma_table_udp_unknown(content: Option<String>, p: Protocol, o: Seq<ProcessFds>)
    ensures
        forall|i: int| 0 <= i < table_sockets(content, p, o, false).len() ==> (#[trigger] table_sockets(content, p, o, false)[i]).state == SocketState::Unknown,
{
    reveal(proc_net_sockets);
    match content {
        Some(c) => lemma_proc_lines_udp_unknown(data_lines(lines(c@)), p, o),
        None => {},
    }
}

proof fn lemma_filter_subset(f: FilterView, s: Seq<SocketView>, prop: spec_fn(SocketView) -> bool)
    requires
        forall|i: int| 0 <= i < s.len() ==> prop(#[trigger] s[i]),
    ensures
        forall|i: int| 0 <= i < filter_sockets(f, s).len() ==> prop(#[trigger] filter_sockets(f, s)[i]),
{
    law_filter_keeps_exactly_the_passing(f, s);
    let r = filter_sockets(f, s);
    assert forall|i: int| 0 <= i < r.len() implies prop(#[trigger] r[i]) by {
        assert(s.contains(r[i]));
        let k = choose|k: int| 0 <= k < s.len() && s[k] == r[i];
        assert(prop(s[k]));
    }
}

/// UDP is connectionless: every UDP socket listed is in the `Unknown` state.
pub proof fn law_udp_sockets_have_no_state(snap: SystemSnapshot, f: FilterView)
    ensures
        platform_sockets(snap, f) matches Ok(v) ==> forall|i: int| 0 <= i < v.len() && is_udp_family((#[trigger] v[i]).protocol) ==> v[i].state == SocketState::Unknown,
{
    let prop = |s: SocketView| is_udp_family(s.protocol) ==> s.state == SocketState::Unknown;
    match snap {
        SystemSnapshot::Linux(l) => {
            let o = l.fd_owners@;
            lemma_table_protocol(l.tcp, Protocol::Tcp, o, true);
            lemma_table_protocol(l.tcp6, Protocol::Tcp6, o, true);
            lemma_table_udp_unknown(l.udp, Protocol::Udp, o);
            lemma_table_udp_unknown(l.udp6, Protocol::Udp6, o);
            let t4 = table_sockets(l.tcp, Protocol::Tcp, o, true);
            let t6 = table_sockets(l.tcp6, Protocol::Tcp6, o, true);
            let u4 = table_sockets(l.udp, Protocol::Udp, o, false);
            let u6 = table_sockets(l.udp6, Protocol::Udp6, o, false);
            let tcp: Seq<SocketView> = if wants_tcp(f.protocols) { t4 + t6 } else { seq![] };
            let udp: Seq<SocketView> = if wants_udp(f.protocols) { u4 + u6 } else { seq![] };
            let c = linux_collected(l, f);
            assert(c == tcp + udp);
            assert forall|i: int| 0 <= i < c.len() implies prop(#[trigger] c[i]) by {
                if i < tcp.len() {
                    if i < t4.len() {
                        assert(c[i] == t4[i]);
                    } else {
                        assert(c[i] == t6[i - t4.len()]);
                    }
                } else {
                    let k = i - tcp.len();
                    if k < u4.len() {
                        assert(c[i] == u4[k]);
                    } else {
                        assert(c[i] == u6[k - u4.len()]);
                    }
                }
            }
            lemma_filter_subset(f, c, prop);
            lemma_admit_subset(f, filter_sockets(f, c), prop);
        },
        SystemSnapshot::MacOs(m) => {
            match m.tcp {
                Some(o) => lemma_lsof_lines_admitted(lines(o.stdout@), f, Protocol::Tcp),
                None => {},
            }
            match m.udp {
                Some(o) => lemma_lsof_lines_admitted(lines(o.stdout@), f, Protocol::Udp),
                None => {},
            }
            match mac_sockets(m, f) {
                Ok(v) => {
                    let t: Seq<SocketView> = if wants_tcp(f.protocols) {
                        lsof_run(m.tcp, f, Protocol::Tcp)->Ok_0
                    } else {
                        seq![]
                    };
                    let u: Seq<SocketView> = if wants_udp(f.protocols) {
                        lsof_run(m.udp, f, Protocol::Udp)->Ok_0
                    } else {
                        seq![]
                    };
                    let w = t + u;
                    assert(v == with_commands(m.owner_commands@, w));
                    assert forall|i: int| 0 <= i < v.len() implies prop(#[trigger] v[i]) by {
                        assert(v[i] == with_command(m.owner_commands@, w[i]));
                        if i < t.len() {
                            assert(w[i] == t[i]);
                        } else {
                            assert(w[i] == u[i - t.len()]);
                        }
                    }
                },
                Err(_) => {},
            }
        },
    }
}


/// How the kernel writes an IPv4 address `a.b.c.d` and port `p` in
/// `/proc/net/{tcp,udp}`: the four bytes in hex from the last to the first,
/// a colon, the port in four hex digits; upper case throughout.
pub open spec fn kernel_ipv4_hex(a: u8, b: u8, c: u8, d: u8, p: u16) -> Seq<char> {
    hex_upper_width(d as nat, 2) + hex_upper_width(c as nat, 2) + hex_upper_width(b as nat, 2)
        + hex_upper_width(a as nat, 2) + ":"@ + hex_upper_width(p as nat, 4)
}

/// How the kernel writes the groups of an IPv6 address in `/proc/net/{tcp6,udp6}`:
/// each group in four upper-case hex digits, one after the other.
pub open spec fn kernel_groups_hex(g: Seq<u16>) -> Seq<char>
    decreases g.len(),
{
    if g.len() == 0 {
        seq![]
    } else {
        kernel_groups_hex(g.drop_last()) + hex_upper_width(g.last() as nat, 4)
    }
}

proof fn lemma_fits_byte(n: nat)
    requires
        n < 256,
    ensures
        fits_hex(n, 2),
{
    assert(fits_hex(n / 16 / 16, 0));
    assert(fits_hex(n / 16, 1));
}

proof fn lemma_fits_group(n: nat)
    requires
        n < 65536,
    ensures
        fits_hex(n, 4),
{
    assert(fits_hex(n / 16 / 16 / 16 / 16, 0));
    assert(fits_hex(n / 16 / 16 / 16, 1));
    assert(fits_hex(n / 16 / 16, 2));
    assert(fits_hex(n / 16, 3));
}

/// The port text after the sole colon at position `i` reads back as `p`.
proof fn lemma_kernel_split(x: Seq<char>, i: int, ip: Seq<char>, p: u16)
    requires
        x == ip + ":"@ + hex_upper_width(p as nat, 4),
        i == ip.len(),
        forall|j: int| 0 <= j < ip.len() ==> ip[j] != ':',
    ensures
        sole_colon(x, i),
        x.take(i) == ip,
        parse_bounded(x.skip(i + 1), 16, 0xffff) == Some(p as int),
{
    reveal_strlit(":");
    lemma_fits_group(p as nat);
    lemma_hex_upper_width(p as nat, 4);
    let t = hex_upper_width(p as nat, 4);
    assert(x[i] == ':');
    assert forall|j: int| 0 <= j < x.len() && j != i implies x[j] != ':' by {
        if j < i {
            assert(x[j] == ip[j]);
        } else {
            assert(x[j] == t[j - i - 1]);
        }
    }
    assert(x.take(i) =~= ip);
    assert(x.skip(i + 1) =~= t);
    assert(t[0] != '+');
}

/// An IPv4 address and port as the kernel writes them in hex read back as
/// the dotted address `a.b.c.d` and the port.
pub proof fn law_kernel_ipv4_address_reads(a: u8, b: u8, c: u8, d: u8, p: u16)
    ensures
        kernel_address(kernel_ipv4_hex(a, b, c, d, p)) == Some(
            AddressView {
                ip: decimal(a as nat) + "."@ + decimal(b as nat) + "."@ + decimal(c as nat) + "."@
                    + decimal(d as nat),
                port: p,
            },
        ),
{
    lemma_fits_byte(a as nat);
    lemma_fits_byte(b as nat);
    lemma_fits_byte(c as nat);
    lemma_fits_byte(d as nat);
    lemma_hex_upper_width(a as nat, 2);
    lemma_hex_upper_width(b as nat, 2);
    lemma_hex_upper_width(c as nat, 2);
    lemma_hex_upper_width(d as nat, 2);
    let hd = hex_upper_width(d as nat, 2);
    let hc = hex_upper_width(c as nat, 2);
    let hb = hex_upper_width(b as nat, 2);
    let ha = hex_upper_width(a as nat, 2);
    let ip = hd + hc + hb + ha;
    let x = kernel_ipv4_hex(a, b, c, d, p);
    assert(x == ip + ":"@ + hex_upper_width(p as nat, 4));
    assert forall|j: int| 0 <= j < ip.len() implies ip[j] != ':' by {
        if j < 2 {
            assert(ip[j] == hd[j]);
        } else if j < 4 {
            assert(ip[j] == hc[j - 2]);
        } else if j < 6 {
            assert(ip[j] == hb[j - 4]);
        } else {
            assert(ip[j] == ha[j - 6]);
        }
    }
    lemma_kernel_split(x, 8, ip, p);
    assert(exists|i: int| sole_colon(x, i));
    let i = choose|i: int| sole_colon(x, i);
    assert(i == 8);
    assert(ip.subrange(6, 8) =~= ha);
    assert(ip.subrange(4, 6) =~= hb);
    assert(ip.subrange(2, 4) =~= hc);
    assert(ip.subrange(0, 2) =~= hd);
    assert(ha[0] != '+' && hb[0] != '+' && hc[0] != '+' && hd[0] != '+');
    assert(ipv4_text(ip) == Some(
        decimal(a as nat) + "."@ + decimal(b as nat) + "."@ + decimal(c as nat) + "."@ + decimal(d as nat),
    ));
}

proof fn lemma_kernel_groups_hex(g: Seq<u16>)
    ensures
        kernel_groups_hex(g).len() == 4 * g.len(),
        forall|k: int| 0 <= k < g.len() ==> kernel_groups_hex(g).subrange(4 * k, 4 * k + 4) == hex_upper_width(#[trigger] g[k] as nat, 4),
    decreases g.len(),
{
    if g.len() > 0 {
        let init = g.drop_last();
        lemma_kernel_groups_hex(init);
        lemma_fits_group(g.last() as nat);
        lemma_hex_upper_width(g.last() as nat, 4);
        let t = kernel_groups_hex(g);
        let ti = kernel_groups_hex(init);
        assert forall|k: int| 0 <= k < g.len() implies t.subrange(4 * k, 4 * k + 4) == hex_upper_width(#[trigger] g[k] as nat, 4) by {
            if k < init.len() {
                assert(init[k] == g[k]);
                assert(t.subrange(4 * k, 4 * k + 4) =~= ti.subrange(4 * k, 4 * k + 4));
            } else {
                assert(t.subrange(4 * k, 4 * k + 4) =~= hex_upper_width(g.last() as nat, 4));
            }
        }
    }
}

/// An IPv6 address and port as the kernel writes them in hex (the groups in
/// the order written) read back as the address's canonical text and the port.
pub proof fn law_kernel_ipv6_address_reads(g: Seq<u16>, p: u16)
    requires
        g.len() == 8,
    ensures
        kernel_address(kernel_groups_hex(g) + ":"@ + hex_upper_width(p as nat, 4)) == Some(
            AddressView { ip: ipv6_display(g), port: p },
        ),
{
    let ip = kernel_groups_hex(g);
    let x = ip + ":"@ + hex_upper_width(p as nat, 4);
    lemma_kernel_groups_hex(g);
    assert forall|j: int| 0 <= j < ip.len() implies ip[j] != ':' by {
        let k = j / 4;
        lemma_fits_group(g[k] as nat);
        lemma_hex_upper_width(g[k] as nat, 4);
        assert(ip.subrange(4 * k, 4 * k + 4)[j - 4 * k] == ip[j]);
    }
    lemma_kernel_split(x, 32, ip, p);
    let i = choose|i: int| sole_colon(x, i);
    assert(i == 32);
    assert forall|k: int| 0 <= k < 8 implies #[trigger] ipv6_group(ip, k) == Some(g[k] as int) by {
        lemma_fits_group(g[k] as nat);
        lemma_hex_upper_width(g[k] as nat, 4);
        assert(hex_upper_width(g[k] as nat, 4)[0] != '+');
    }
    assert(ipv6_groups(ip) == Some(g)) by {
        assert(Seq::new(8, |k: int| ipv6_group(ip, k)->Some_0 as u16) =~= g);
    }
}


/// The filter that keeps every socket.
pub open spec fn no_filter() -> FilterView {
    FilterView { protocols: None, listen_only: false, pid: None, port: None }
}

/// What a filter keeps of a listing: the sockets that pass it and whose
/// protocol it admits, in their order.
pub open spec fn kept_by(f: FilterView, s: Seq<SocketView>) -> Seq<SocketView> {
    admit_protocols(f, filter_sockets(f, s))
}

proof fn lemma_kept_push(f: FilterView, s: Seq<SocketView>, x: SocketView)
    ensures
        kept_by(f, s.push(x)) == if passes_filter(f, x) && protocol_admitted(f, x.protocol) {
            kept_by(f, s).push(x)
        } else {
            kept_by(f, s)
        },
{
    assert(s.push(x).drop_last() =~= s);
    assert(s.push(x).last() == x);
    let fs = filter_sockets(f, s);
    assert(fs.push(x).drop_last() =~= fs);
}

proof fn lemma_kept_concat(f: FilterView, a: Seq<SocketView>, b: Seq<SocketView>)
    ensures
        kept_by(f, a + b) == kept_by(f, a) + kept_by(f, b),
    decreases b.len(),
{
    if b.len() == 0 {
        assert(a + b =~= a);
        assert(kept_by(f, a) + kept_by(f, b) =~= kept_by(f, a));
    } else {
        let bi = b.drop_last();
        let x = b.last();
        lemma_kept_concat(f, a, bi);
        assert(a + b =~= (a + bi).push(x));
        assert(b =~= bi.push(x));
        lemma_kept_push(f, a + bi, x);
        lemma_kept_push(f, bi, x);
        assert((kept_by(f, a) + kept_by(f, bi)).push(x) =~= kept_by(f, a) + kept_by(f, bi).push(x));
    }
}

/// Keeping sockets and giving them their owners' command lines can be done in either order.
proof fn lemma_kept_with_commands(f: FilterView, cmds: Seq<OwnerCommand>, s: Seq<SocketView>)
    ensures
        kept_by(f, with_commands(cmds, s)) == with_commands(cmds, kept_by(f, s)),
    decreases s.len(),
{
    if s.len() == 0 {
        assert(with_commands(cmds, s) =~= s);
        assert(kept_by(f, s) == s);
        assert(with_commands(cmds, kept_by(f, s)) =~= kept_by(f, s));
    } else {
        let si = s.drop_last();
        let x = s.last();
        lemma_kept_with_commands(f, cmds, si);
        assert(s =~= si.push(x));
        assert(with_commands(cmds, s) =~= with_commands(cmds, si).push(with_command(cmds, x)));
        lemma_kept_push(f, si, x);
        lemma_kept_push(f, with_commands(cmds, si), with_command(cmds, x));
        assert(with_commands(cmds, kept_by(f, si).push(x)) =~= with_commands(cmds, kept_by(f, si)).push(with_command(cmds, x)));
    }
}

proof fn lemma_kept_by_none(s: Seq<SocketView>)
    ensures
        kept_by(no_filter(), s) == s,
    decreases s.len(),
{
    if s.len() > 0 {
        lemma_kept_by_none(s.drop_last());
        assert(s.drop_last().push(s.last()) =~= s);
        lemma_kept_push(no_filter(), s.drop_last(), s.last());
    }
}

/// A filter keeps nothing of sockets of a family that it does not ask for.
proof fn lemma_kept_unwanted(f: FilterView, s: Seq<SocketView>, tcp: bool)
    requires
        forall|i: int| 0 <= i < s.len() ==> if tcp {
            is_tcp_family((#[trigger] s[i]).protocol)
        } else {
            is_udp_family(s[i].protocol)
        },
        tcp ==> !wants_tcp(f.protocols),
        !tcp ==> !wants_udp(f.protocols),
    ensures
        kept_by(f, s) == Seq::<SocketView>::empty(),
    decreases s.len(),
{
    if s.len() > 0 {
        let x = s.last();
        assert(s[s.len() - 1] == x);
        lemma_kept_unwanted(f, s.drop_last(), tcp);
        assert(s.drop_last().push(x) =~= s);
        lemma_kept_push(f, s.drop_last(), x);
        if protocol_admitted(f, x.protocol) {
            lemma_admitted_wanted(f, x.protocol);
        }
    }
}

proof fn lemma_lsof_lines_kept(ls: Seq<Seq<char>>, f: FilterView, base: Protocol)
    ensures
        lsof_lines(ls, f, base) == kept_by(f, lsof_lines(ls, no_filter(), base)),
    decreases ls.len(),
{
    if ls.len() == 0 {
        assert(filter_sockets(f, seq![]) == Seq::<SocketView>::empty());
    } else {
        lemma_lsof_lines_kept(ls.drop_last(), f, base);
        let l = ls.last();
        let all = lsof_lines(ls.drop_last(), no_filter(), base);
        match lsof_line_socket(l, base) {
            Some(x) => {
                if is_data_line(l) {
                    lemma_kept_push(f, all, x);
                }
            },
            None => {},
        }
    }
}

proof fn lemma_table_kept(content: Option<String>, p: Protocol, o: Seq<ProcessFds>, tcp: bool, f: FilterView)
    requires
        tcp <==> is_tcp_family(p),
        tcp ==> !wants_tcp(f.protocols),
        !tcp ==> !wants_udp(f.protocols),
    ensures
        kept_by(f, table_sockets(content, p, o, tcp)) == Seq::<SocketView>::empty(),
{
    lemma_table_protocol(content, p, o, tcp);
    lemma_protocol_families(p);
    lemma_kept_unwanted(f, table_sockets(content, p, o, tcp), tcp);
}

/// Listing with a filter gives the full listing (taken with no filter) with
/// only the sockets that pass the filter and whose protocol it admits, in
/// the same order, whenever the full listing succeeds.
pub proof fn law_filtered_listing_is_the_full_listing_filtered(snap: SystemSnapshot, f: FilterView)
    ensures
        platform_sockets(snap, no_filter()) matches Ok(all) ==> platform_sockets(snap, f)
            == Ok::<Seq<SocketView>, ErrorView>(kept_by(f, all)),
{
    match snap {
        SystemSnapshot::Linux(l) => {
            let o = l.fd_owners@;
            let t4 = table_sockets(l.tcp, Protocol::Tcp, o, true);
            let t6 = table_sockets(l.tcp6, Protocol::Tcp6, o, true);
            let u4 = table_sockets(l.udp, Protocol::Udp, o, false);
            let u6 = table_sockets(l.udp6, Protocol::Udp6, o, false);
            let full = (t4 + t6) + (u4 + u6);
            assert(linux_collected(l, no_filter()) == full);
            lemma_kept_by_none(full);
            lemma_kept_concat(f, t4 + t6, u4 + u6);
            lemma_kept_concat(f, t4, t6);
            lemma_kept_concat(f, u4, u6);
            let e = Seq::<SocketView>::empty();
            assert(kept_by(f, e) == e);
            if !wants_tcp(f.protocols) {
                lemma_table_kept(l.tcp, Protocol::Tcp, o, true, f);
                lemma_table_kept(l.tcp6, Protocol::Tcp6, o, true, f);
                assert(kept_by(f, t4 + t6) == e + e);
            }
            if !wants_udp(f.protocols) {
                lemma_table_kept(l.udp, Protocol::Udp, o, false, f);
                lemma_table_kept(l.udp6, Protocol::Udp6, o, false, f);
                assert(kept_by(f, u4 + u6) == e + e);
            }
            let c = linux_collected(l, f);
            let tcp: Seq<SocketView> = if wants_tcp(f.protocols) { t4 + t6 } else { e };
            let udp: Seq<SocketView> = if wants_udp(f.protocols) { u4 + u6 } else { e };
            assert(c == tcp + udp);
            lemma_kept_concat(f, tcp, udp);
            assert(e + e =~= e);
            assert(kept_by(f, c) =~= kept_by(f, full));
        },
        SystemSnapshot::MacOs(m) => {
            match mac_sockets(m, no_filter()) {
                Ok(all) => {
                    let ot = m.tcp->Some_0;
                    let ou = m.udp->Some_0;
                    let tl = lines(ot.stdout@);
                    let ul = lines(ou.stdout@);
                    let t = lsof_lines(tl, no_filter(), Protocol::Tcp);
                    let u = lsof_lines(ul, no_filter(), Protocol::Udp);
                    let cmds = m.owner_commands@;
                    assert(all == with_commands(cmds, t + u));
                    lemma_kept_with_commands(f, cmds, t + u);
                    lemma_lsof_lines_kept(tl, f, Protocol::Tcp);
                    lemma_lsof_lines_kept(ul, f, Protocol::Udp);
                    lemma_kept_concat(f, t, u);
                    lemma_lsof_lines_admitted(tl, no_filter(), Protocol::Tcp);
                    lemma_lsof_lines_admitted(ul, no_filter(), Protocol::Udp);
                    let e = Seq::<SocketView>::empty();
                    if !wants_tcp(f.protocols) {
                        lemma_kept_unwanted(f, t, true);
                    }
                    if !wants_udp(f.protocols) {
                        lemma_kept_unwanted(f, u, false);
                    }
                    let tk: Seq<SocketView> = if wants_tcp(f.protocols) { kept_by(f, t) } else { e };
                    let uk: Seq<SocketView> = if wants_udp(f.protocols) { kept_by(f, u) } else { e };
                    assert(mac_sockets(m, f) == Ok::<Seq<SocketView>, ErrorView>(with_commands(cmds, tk + uk)));
                    assert(tk + uk =~= kept_by(f, t) + kept_by(f, u));
                },
                Err(_) => {},
            }
        },
    }
}


/// The names of the kernel's TCP states, in the order of their numbers
/// from 1 (`include/net/tcp_states.h`).
pub open spec fn kernel_tcp_state_names() -> Seq<Seq<char>> {
    seq![
        "ESTABLISHED"@,
        "SYN_SENT"@,
        "SYN_RECV"@,
        "FIN_WAIT1"@,
        "FIN_WAIT2"@,
        "TIME_WAIT"@,
        "CLOSE"@,
        "CLOSE_WAIT"@,
        "LAST_ACK"@,
        "LISTEN"@,
        "CLOSING"@,
    ]
}

/// A TCP state number of `/proc/net/tcp` is read as the kernel numbers its
/// states: number `n` from 1 to 11 is the state of the `n`-th kernel name
/// (6 is TIME_WAIT, 10 is LISTEN); any other number is an unknown state.
pub proof fn law_tcp_state_numbers_are_the_kernels(n: int)
    ensures
        1 <= n <= 11 ==> state_text(tcp_state(n)) == kernel_tcp_state_names()[n - 1],
        !(1 <= n <= 11) ==> tcp_state(n) == SocketState::Unknown,
{
}

/// Distinct kernel TCP state numbers give distinct states, none of them unknown.
pub proof fn law_tcp_state_numbers_are_distinct(n: int, m: int)
    requires
        1 <= n <= 11,
        1 <= m <= 11,
        n != m,
    ensures
        tcp_state(n) != tcp_state(m),
        tcp_state(n) != SocketState::Unknown,
{
}

/// The text `(NAME)` for a state's name.
pub open spec fn parenthesised(s: SocketState) -> Seq<char> {
    "("@ + state_text(s) + ")"@
}

/// The state of a TCP line of lsof is the one that its parenthesised suffix
/// names: any state other than ESTABLISHED is read only from its own
/// `(NAME)`; ESTABLISHED comes from `(ESTABLISHED)` or from the lack of any
/// recognised suffix; `(LISTEN)` outranks `(ESTABLISHED)`, which outranks
/// `(TIME_WAIT)`, which outranks `(CLOSE_WAIT)`. A UDP line has no state.
pub proof fn law_lsof_state_is_named_by_its_suffix(info: Seq<char>)
    ensures
        lsof_state(info, false) == SocketState::Unknown,
        lsof_state(info, true) != SocketState::Established ==> contains(
            info,
            parenthesised(lsof_state(info, true)),
        ),
        lsof_state(info, true) == SocketState::Established ==> contains(info, "(ESTABLISHED)"@) || (
        !contains(info, "(LISTEN)"@) && !contains(info, "(TIME_WAIT)"@) && !contains(
            info,
            "(CLOSE_WAIT)"@,
        )),
        contains(info, "(LISTEN)"@) ==> lsof_state(info, true) == SocketState::Listen,
        contains(info, "(ESTABLISHED)"@) && !contains(info, "(LISTEN)"@) ==> lsof_state(info, true)
            == SocketState::Established,
        contains(info, "(TIME_WAIT)"@) && !contains(info, "(LISTEN)"@) && !contains(
            info,
            "(ESTABLISHED)"@,
        ) ==> lsof_state(info, true) == SocketState::TimeWait,
        contains(info, "(CLOSE_WAIT)"@) && !contains(info, "(LISTEN)"@) && !contains(
            info,
            "(ESTABLISHED)"@,
        ) && !contains(info, "(TIME_WAIT)"@) ==> lsof_state(info, true) == SocketState::CloseWait,
{
    reveal_strlit("(");
    reveal_strlit(")");
    reveal_strlit("(LISTEN)");
    reveal_strlit("LISTEN");
    reveal_strlit("(TIME_WAIT)");
    reveal_strlit("TIME_WAIT");
    reveal_strlit("(CLOSE_WAIT)");
    reveal_strlit("CLOSE_WAIT");
    assert(parenthesised(SocketState::Listen) =~= "(LISTEN)"@);
    assert(parenthesised(SocketState::TimeWait) =~= "(TIME_WAIT)"@);
    assert(parenthesised(SocketState::CloseWait) =~= "(CLOSE_WAIT)"@);
}

/// The socket table has the header and then one row per socket, in order;
/// each row lines up with the header: PROTOCOL is the protocol, LOCAL
/// ADDRESS the local address, REMOTE ADDRESS the remote address or `-`,
/// STATE the state, PID the PID in decimal or `-`, PROCESS NAME the name or `-`.
pub proof fn law_table_rows_line_up_with_the_header(s: Seq<SocketView>)
    ensures
        table_records(s).len() == s.len() + 1,
        table_records(s)[0] == seq![
            "PROTOCOL"@,
            "LOCAL ADDRESS"@,
            "REMOTE ADDRESS"@,
            "STATE"@,
            "PID"@,
            "PROCESS NAME"@,
        ],
        forall|i: int| 0 <= i < s.len() ==> {
            let r = #[trigger] table_records(s)[i + 1];
            let x = s[i];
            &&& r.len() == 6
            &&& r[0] == protocol_text(x.protocol)
            &&& r[1] == address_text(x.local)
            &&& r[2] == match x.remote {
                Some(a) => address_text(a),
                None => "-"@,
            }
            &&& r[3] == state_text(x.state)
            &&& r[4] == match x.pid {
                Some(p) => decimal(p as nat),
                None => "-"@,
            }
            &&& r[5] == match x.process_name {
                Some(n) => n,
                None => "-"@,
            }
        },
{
    assert forall|i: int| 0 <= i < s.len() implies {
        let r = #[trigger] table_records(s)[i + 1];
        let x = s[i];
        &&& r.len() == 6
        &&& r[0] == protocol_text(x.protocol)
        &&& r[1] == address_text(x.local)
        &&& r[2] == match x.remote {
            Some(a) => address_text(a),
            None => "-"@,
        }
        &&& r[3] == state_text(x.state)
        &&& r[4] == match x.pid {
            Some(p) => decimal(p as nat),
            None => "-"@,
        }
        &&& r[5] == match x.process_name {
            Some(n) => n,
            None => "-"@,
        }
    } by {
        assert(table_records(s)[i + 1] == crate::model::output::socket_row(s[i]));
    }
}

/// The description of each socket in a `get port` report begins with its
/// protocol line.
pub proof fn law_port_socket_description_starts_with_its_protocol(x: SocketView)
    ensures
        port_socket_text(x).len() >= 10,
        port_socket_text(x).take(10) == "Protocol: "@,
{
    reveal_strlit("Protocol: ");
    let t = port_socket_text(x);
    let head = "Protocol: "@;
    assert(t.take(10) =~= head) by {
        assert forall|k: int| 0 <= k < 10 implies t[k] == head[k] by {
        }
    }
}

/// The socket descriptions of a `get port` report describe every socket,
/// one after the other: the text of a list of sockets is the text of its
/// first part followed by that of its second part, and that of a single
/// socket is that socket's description. So `n` sockets give `n`
/// descriptions, each beginning with its protocol line.
pub proof fn law_port_report_describes_every_socket(a: Seq<SocketView>, b: Seq<SocketView>, x: SocketView)
    ensures
        port_sockets_text(a + b) == port_sockets_text(a) + port_sockets_text(b),
        port_sockets_text(seq![x]) == port_socket_text(x),
        port_sockets_text(Seq::<SocketView>::empty()) == Seq::<char>::empty(),
    decreases b.len(),
{
    let e = Seq::<SocketView>::empty();
    assert(seq![x].drop_last() =~= e);
    assert(seq![x].last() == x);
    assert(port_sockets_text(e) == Seq::<char>::empty());
    assert(Seq::<char>::empty() + port_socket_text(x) =~= port_socket_text(x));
    assert(port_sockets_text(seq![x]) =~= port_socket_text(x));
    if b.len() == 0 {
        assert(a + b =~= a);
        assert(port_sockets_text(a) + port_sockets_text(b) =~= port_sockets_text(a));
    } else {
        let bi = b.drop_last();
        law_port_report_describes_every_socket(a, bi, x);
        assert((a + b).drop_last() =~= a + bi);
        assert((a + b).last() == b.last());
        assert(port_sockets_text(a + b) =~= port_sockets_text(a) + port_sockets_text(b));
    }
}

/// The report of `get pid` names the process and ends with the socket
/// table of all of the process's sockets.
pub proof fn law_process_report_ends_with_all_its_sockets(p: ProcessView)
    ensures
        process_table_text(p).len() >= sockets_table_text(p.sockets).len(),
        process_table_text(p).subrange(
            process_table_text(p).len() - sockets_table_text(p.sockets).len(),
            process_table_text(p).len() as int,
        ) == sockets_table_text(p.sockets),
        process_table_text(p).take(8 + p.name.len() as int) == "Process "@ + p.name,
{
    reveal_strlit("Process ");
    let t = process_table_text(p);
    let k = sockets_table_text(p.sockets);
    assert(t.subrange(t.len() - k.len(), t.len() as int) =~= k);
    assert(t.take(8 + p.name.len() as int) =~= "Process "@ + p.name);
}

/// lsof's protocol keeps the family of the lsof run (TCP or UDP) and is
/// the IPv6 one exactly when the line's TYPE is IPv6.
pub proof fn law_lsof_protocol_keeps_family_and_version(ipv6: bool, base: Protocol)
    ensures
        is_tcp_family(lsof_protocol(ipv6, base)) == is_tcp_family(base),
        (lsof_protocol(ipv6, base) == Protocol::Tcp6 || lsof_protocol(ipv6, base) == Protocol::Udp6)
            == ipv6,
{
}

/// A command line read from `cmdline` has the file's length, no NUL, and
/// every other character in its place.
pub proof fn law_cmdline_keeps_all_but_nuls(s: Seq<char>)
    ensures
        nul_to_space(s).len() == s.len(),
        forall|i: int| 0 <= i < s.len() ==> (#[trigger] nul_to_space(s)[i]) == if s[i] == '\0' {
            ' '
        } else {
            s[i]
        },
        forall|i: int| 0 <= i < s.len() ==> (#[trigger] nul_to_space(s)[i]) != '\0',
{
}


/// A socket read from a line of `/proc/net/{tcp,udp}[6]` has the table's
/// protocol, its local address from the second field, its remote address
/// from the third, and, for TCP, the state whose kernel number the fourth
/// field gives in hex; a UDP socket has no state.
pub proof fn law_proc_line_fields(line: Seq<char>, protocol: Protocol, owners: Seq<ProcessFds>, tcp: bool)
    ensures
        proc_line(line, protocol, owners, tcp) matches Some(s) ==> {
            let parts = split_ws(line);
            &&& parts.len() >= 10
            &&& s.protocol == protocol
            &&& kernel_address(parts[1]) == Some(s.local)
            &&& s.remote == kernel_address(parts[2])
            &&& tcp ==> (parse_bounded(parts[3], 16, 0xff) matches Some(n) && s.state == tcp_state(n))
            &&& !tcp ==> s.state == SocketState::Unknown
        },
{
}


/// A socket read from a line of lsof output has the COMMAND column as its
/// process name, the PID column as its PID, the family of the lsof run and
/// the IPv6 version exactly when the TYPE column says IPv6.
pub proof fn law_lsof_line_fields(line: Seq<char>, base: Protocol)
    ensures
        lsof_line_socket(line, base) matches Some(s) ==> {
            let parts = split_ws(line);
            &&& parts.len() >= 9
            &&& s.process_name == Some(parts[0])
            &&& (parse_bounded(parts[1], 10, 0xffff_ffff) matches Some(p) && s.pid == Some(p as u32))
            &&& is_tcp_family(s.protocol) == is_tcp_family(base)
            &&& (s.protocol == Protocol::Tcp6 || s.protocol == Protocol::Udp6) == contains(parts[4], "IPv6"@)
        },
{
    law_lsof_protocol_keeps_family_and_version(contains(split_ws(line)[4], "IPv6"@), base);
}


/// Distinct socket states are shown by distinct names, and distinct
/// protocols likewise, so a table or report never shows two states or two
/// protocols alike.
pub proof fn law_names_are_distinct(a: SocketState, b: SocketState, p: Protocol, q: Protocol)
    ensures
        a != b ==> state_text(a) != state_text(b),
        p != q ==> protocol_text(p) != protocol_text(q),
{
    reveal_strlit("ESTABLISHED");
    reveal_strlit("SYN_SENT");
    reveal_strlit("SYN_RECV");
    reveal_strlit("FIN_WAIT1");
    reveal_strlit("FIN_WAIT2");
    reveal_strlit("TIME_WAIT");
    reveal_strlit("CLOSE");
    reveal_strlit("CLOSE_WAIT");
    reveal_strlit("LAST_ACK");
    reveal_strlit("LISTEN");
    reveal_strlit("CLOSING");
    reveal_strlit("UNKNOWN");
    reveal_strlit("TCP");
    reveal_strlit("TCP6");
    reveal_strlit("UDP");
    reveal_strlit("UDP6");
    if a != b && state_text(a) == state_text(b) {
        let t = state_text(a);
        let u = state_text(b);
        assert(t.len() == u.len());
        assert(t[0] == u[0]);
        assert(t[t.len() - 1] == u[u.len() - 1]);
        assert(t.len() >= 8 ==> t[4] == u[4] && t[7] == u[7]);
    }
    if p != q && protocol_text(p) == protocol_text(q) {
        let t = protocol_text(p);
        let u = protocol_text(q);
        assert(t.len() == u.len());
        assert(t[0] == u[0]);
    }
}


/// A text contains each of its parts.
proof fn lemma_contains_middle(a: Seq<char>, b: Seq<char>, c: Seq<char>)
    ensures
        contains(a + b + c, b),
{
    let t = a + b + c;
    assert(t.subrange(a.len() as int, (a.len() + b.len()) as int) =~= b);
    assert(occurs_at(t, b, a.len() as int));
}

/// The description of a socket in a `get port` report holds a line for
/// each thing known of it: its protocol, its local address, its remote
/// address if it has one, its state, and, when its owner is known, the
/// owner's PID, name if known and command line if known.
#[verifier::rlimit(60)]
pub proof fn law_port_socket_description_lines(x: SocketView)
    ensures
        contains(port_socket_text(x), "Protocol: "@ + protocol_text(x.protocol) + "\n"@),
        contains(port_socket_text(x), "Local Address: "@ + address_text(x.local) + "\n"@),
        x.remote matches Some(r) ==> contains(port_socket_text(x), "Remote Address: "@ + address_text(r) + "\n"@),
        contains(port_socket_text(x), "State: "@ + state_text(x.state) + "\n"@),
        x.pid matches Some(p) ==> contains(port_socket_text(x), "PID: "@ + decimal(p as nat) + "\n"@),
        (x.pid is Some && x.process_name is Some) ==> contains(port_socket_text(x), "Process: "@ + x.process_name->Some_0 + "\n"@),
        (x.pid is Some && x.command_line is Some) ==> contains(port_socket_text(x), "Command: "@ + x.command_line->Some_0 + "\n"@),
{
    let t = port_socket_text(x);
    let l1 = "Protocol: "@ + protocol_text(x.protocol) + "\n"@;
    let l2 = "Local Address: "@ + address_text(x.local) + "\n"@;
    let l3 = crate::commands::get::remote_text(x);
    let l4 = "State: "@ + state_text(x.state) + "\n"@;
    let l5 = crate::commands::get::owner_text(x);
    let nl = "\n"@;
    assert(t =~= l1 + l2 + l3 + l4 + l5 + nl);
    let e = Seq::<char>::empty();
    lemma_contains_middle(e, l1, l2 + l3 + l4 + l5 + nl);
    assert(e + l1 + (l2 + l3 + l4 + l5 + nl) =~= t);
    lemma_contains_middle(l1, l2, l3 + l4 + l5 + nl);
    assert(l1 + l2 + (l3 + l4 + l5 + nl) =~= t);
    lemma_contains_middle(l1 + l2 + l3, l4, l5 + nl);
    assert(l1 + l2 + l3 + l4 + (l5 + nl) =~= t);
    if let Some(r) = x.remote {
        assert(l3 == "Remote Address: "@ + address_text(r) + "\n"@);
        lemma_contains_middle(l1 + l2, l3, l4 + l5 + nl);
        assert(l1 + l2 + l3 + (l4 + l5 + nl) =~= t);
    }
    if let Some(p) = x.pid {
        let pre = l1 + l2 + l3 + l4;
        let pl = "PID: "@ + decimal(p as nat) + "\n"@;
        let np: Seq<char> = match x.process_name {
            Some(n) => "Process: "@ + n + "\n"@,
            None => seq![],
        };
        let cl: Seq<char> = match x.command_line {
            Some(c) => "Command: "@ + c + "\n"@,
            None => seq![],
        };
        assert(l5 == pl + np + cl);
        lemma_contains_middle(pre, pl, np + cl + nl);
        assert(pre + pl + (np + cl + nl) =~= t);
        lemma_contains_middle(pre + pl, np, cl + nl);
        assert(pre + pl + np + (cl + nl) =~= t);
        lemma_contains_middle(pre + pl + np, cl, nl);
        assert(pre + pl + np + cl + nl =~= t);
    }
}

/// The report of `get pid` gives the process's command line, or says that
/// it is unknown.
pub proof fn law_process_report_gives_its_command_line(p: ProcessView)
    ensures
        contains(process_table_text(p), "Command: "@ + match p.command_line {
            Some(c) => c,
            None => "(unknown)"@,
        } + "\n"@),
        contains(process_table_text(p), " (PID: "@ + decimal(p.pid as nat) + ")"@),
{
    let c: Seq<char> = match p.command_line {
        Some(c) => c,
        None => "(unknown)"@,
    };
    let a = "Process "@ + p.name;
    let pid = " (PID: "@ + decimal(p.pid as nat) + ")"@;
    let cmd = "\nCommand: "@ + c + "\n\nOpen Sockets:\n"@;
    let rest = sockets_table_text(p.sockets);
    let t = process_table_text(p);
    reveal_strlit(")\nCommand: ");
    reveal_strlit(")");
    reveal_strlit("\nCommand: ");
    reveal_strlit("\n\nOpen Sockets:\n");
    reveal_strlit("\n");
    reveal_strlit("\nOpen Sockets:\n");
    assert(")\nCommand: "@ =~= ")"@ + "\nCommand: "@);
    assert(t =~= a + pid + cmd + rest);
    lemma_contains_middle(a, pid, cmd + rest);
    assert(a + pid + (cmd + rest) =~= t);
    reveal_strlit("Command: ");
    assert("\nCommand: "@ =~= "\n"@ + "Command: "@);
    assert("\n\nOpen Sockets:\n"@ =~= "\n"@ + "\nOpen Sockets:\n"@);
    let line = "Command: "@ + c + "\n"@;
    let pre = a + pid + "\n"@;
    let post = "\nOpen Sockets:\n"@ + rest;
    assert(t =~= pre + line + post);
    lemma_contains_middle(pre, line, post);
}

} // verus!
