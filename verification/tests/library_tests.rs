use ptu::cli::{GetCommands, ListOptions};
use ptu::commands::get::execute as execute_get;
use ptu::commands::list::{build_filter, execute as execute_list};
use ptu::commands::Report;
use ptu::number::decimal_string;
use ptu::platform::linux::{
    find_pid_by_inode, get_process_info as linux_process_info, get_sockets as linux_sockets,
    parse_proc_net_tcp, parse_proc_net_udp, parse_socket_address, parse_tcp_line, parse_udp_line,
    LinuxSnapshot, ProcessFds, ProcessFiles,
};
use ptu::platform::macos::{
    get_process_info as mac_process_info, get_sockets as mac_sockets, get_tcp_sockets, owner_pids,
    parse_lsof_address, parse_lsof_addresses, parse_lsof_line, parse_lsof_output, CommandOutput,
    MacSnapshot, OwnerCommand,
};
use ptu::platform::{get_process_info, get_sockets, PlatformError, SystemSnapshot};
use ptu::{
    format_process_table, format_sockets_table, ProcessInfo, Protocol, SocketAddress,
    SocketFilter, SocketInfo, SocketState,
};

const TCP_HEADER: &str = "  sl  local_address rem_address   st tx_queue rx_queue tr tm->when retrnsmt   uid  timeout inode\n";

fn owners() -> Vec<ProcessFds> {
    vec![
        ProcessFds {
            name: "self".to_string(),
            comm: Some("init".to_string()),
            cmdline: None,
            links: vec!["socket:[12345]".to_string()],
        },
        ProcessFds { name: "7".to_string(), comm: None, cmdline: None, links: vec!["/dev/null".to_string()] },
        ProcessFds {
            name: "42".to_string(),
            comm: Some(" nginx\n".to_string()),
            cmdline: Some("/usr/sbin/nginx\0-g\0daemon off;\0".to_string()),
            links: vec!["pipe:[1]".to_string(), "socket:[12345]".to_string()],
        },
    ]
}

fn no_process() -> ProcessFiles {
    ProcessFiles { exists: false, comm: None, cmdline: None }
}

fn linux_snapshot(tcp: &str, tcp6: &str, udp: &str) -> LinuxSnapshot {
    LinuxSnapshot {
        proc_net_exists: true,
        tcp: Some(tcp.to_string()),
        tcp6: Some(tcp6.to_string()),
        udp: Some(udp.to_string()),
        udp6: None,
        fd_owners: owners(),
        process: no_process(),
    }
}

fn lsof_ok(stdout: &str) -> Option<CommandOutput> {
    Some(CommandOutput { success: true, stdout: stdout.to_string(), stderr: String::new() })
}

const LSOF_TCP: &str = "COMMAND   PID USER   FD   TYPE   DEVICE SIZE/OFF NODE NAME\n\
node     1234 user   18u  IPv4 0x1234      0t0  TCP *:8080 (LISTEN)\n\
node     1234 user   19u  IPv6 0x1235      0t0  TCP [::1]:8081 (LISTEN)\n\
sshd      900 root    3u  IPv4 0x1236      0t0  TCP 192.168.1.1:22->10.0.0.1:54321 (ESTABLISHED)\n";

const LSOF_UDP: &str = "COMMAND   PID USER   FD   TYPE   DEVICE SIZE/OFF NODE NAME\n\
named     901 root    5u  IPv4 0x2236      0t0  UDP *:53\n\
named     901 root    6u  IPv6 0x2237      0t0  UDP [::]:53\n";

fn mac_snapshot() -> MacSnapshot {
    MacSnapshot {
        tcp: lsof_ok(LSOF_TCP),
        udp: lsof_ok(LSOF_UDP),
        process_name: Some("named".to_string()),
        process_command: Some("  /usr/bin/node app.js \n".to_string()),
        owner_commands: vec![
            OwnerCommand { pid: 900, command: Some("/usr/sbin/sshd -D\n".to_string()) },
            OwnerCommand { pid: 1234, command: Some("  \n".to_string()) },
            OwnerCommand { pid: 900, command: Some("later entry".to_string()) },
        ],
    }
}

fn options() -> ListOptions {
    ListOptions { tcp: false, udp: false, listen: false, pid: None, port: None, ipv4: false, ipv6: false }
}

fn socket(protocol: Protocol, port: u16, state: SocketState) -> SocketInfo {
    SocketInfo {
        protocol,
        local_address: SocketAddress { ip: "0.0.0.0".to_string(), port },
        remote_address: None,
        state,
        pid: Some(1),
        process_name: Some("test".to_string()),
        command_line: None,
    }
}

fn protocols_of(r: &Result<Report, PlatformError>) -> Vec<Protocol> {
    match r {
        Ok(Report::SocketsJson(v)) => v.iter().map(|s| s.protocol).collect(),
        _ => panic!("expected sockets"),
    }
}

// --- display texts -------------------------------------------------------

#[test]
fn display_texts() {
    assert_eq!(Protocol::Tcp.to_string(), "TCP");
    assert_eq!(Protocol::Udp6.to_string(), "UDP6");
    assert_eq!(SocketState::SynSent.to_string(), "SYN_SENT");
    assert_eq!(SocketState::FinWait2.to_string(), "FIN_WAIT2");
    assert_eq!(SocketState::Unknown.to_string(), "UNKNOWN");
    let a = SocketAddress { ip: "10.0.0.1".to_string(), port: 65535 };
    assert_eq!(a.to_string(), "10.0.0.1:65535");
    assert_eq!(decimal_string(0), "0");
    assert_eq!(decimal_string(18446744073709551615), "18446744073709551615");
}

// --- /proc/net addresses ---------------------------------------------------

#[test]
fn kernel_address_ipv6_is_written_in_canonical_form() {
    let a = parse_socket_address("00000000000000000000000001000000:1F90").unwrap();
    assert_eq!(a.ip, "::100:0");
    assert_eq!(a.port, 8080);
    let b = parse_socket_address("B80D01200000000067452301EFCDAB89:0035").unwrap();
    assert_eq!(b.ip, "b80d:120::6745:2301:efcd:ab89");
    assert_eq!(b.port, 53);
    let any = parse_socket_address("00000000000000000000000000000000:1F90").unwrap();
    assert_eq!(any.to_string(), ":::8080");
    let one = parse_socket_address("00000000000000000000000000000001:0016").unwrap();
    assert_eq!(one.ip, "::1");
    let mapped = parse_socket_address("00000000000000000000FFFF7F000001:0050").unwrap();
    assert_eq!(mapped.ip, "::ffff:127.0.0.1");
    // A single zero group is not shortened; of two equal runs the first is.
    let single = parse_socket_address("00010000000200030004000500060007:0001").unwrap();
    assert_eq!(single.ip, "1:0:2:3:4:5:6:7");
    let tie = parse_socket_address("00010000000000020000000000030004:0001").unwrap();
    assert_eq!(tie.ip, "1::2:0:0:3:4");
    let longer = parse_socket_address("00010000000000020000000000000004:0001").unwrap();
    assert_eq!(longer.ip, "1:0:0:2::4");
}

#[test]
fn kernel_ipv4_address_reads_back() {
    for (a, b, c, d, p) in [(127u8, 0u8, 0u8, 1u8, 8080u16), (0, 0, 0, 0, 0), (255, 254, 16, 9, 65535), (10, 1, 2, 3, 22)] {
        let text = format!("{:02X}{:02X}{:02X}{:02X}:{:04X}", d, c, b, a, p);
        let addr = parse_socket_address(&text).unwrap();
        assert_eq!(addr.ip, format!("{}.{}.{}.{}", a, b, c, d));
        assert_eq!(addr.port, p);
    }
}

#[test]
fn kernel_address_rejects_malformed_text() {
    assert!(parse_socket_address("0100007F:1F90:1").is_none());
    assert!(parse_socket_address("0100007F").is_none());
    assert!(parse_socket_address("0100007G:1F90").is_none());
    assert!(parse_socket_address("0100007F:10000").is_none());
    assert!(parse_socket_address("100007F:1F90").is_none());
    assert!(parse_socket_address("0100007F:").is_none());
    // A leading '+' is accepted by the hex reader, as `from_str_radix` accepts it.
    assert_eq!(parse_socket_address("0100007F:+50").unwrap().port, 80);
    assert!(parse_socket_address("0100007é:1F90").is_none());
}

// --- /proc/net lines ---------------------------------------------------------

#[test]
fn tcp_line_with_owner() {
    let line = "   0: 0100007F:1F90 00000000:0000 01 00000000:00000000 00:00000000 00000000  1000        0 12345 1 0000000000000000 100 0 0 10 0";
    let s = parse_tcp_line(line, Protocol::Tcp, &owners()).unwrap();
    assert_eq!(s.protocol, Protocol::Tcp);
    assert_eq!(s.local_address.to_string(), "127.0.0.1:8080");
    assert_eq!(s.remote_address.unwrap().to_string(), "0.0.0.0:0");
    assert_eq!(s.state, SocketState::Established);
    assert_eq!(s.pid, Some(42));
    assert_eq!(s.process_name.as_deref(), Some("nginx"));
    assert_eq!(s.command_line.as_deref(), Some("/usr/sbin/nginx -g daemon off; "));
}

#[test]
fn tcp_line_state_is_read_in_hex() {
    let line = "   0: 0100007F:1F90 00000000:0000 0A 00000000:00000000 00:00000000 00000000  1000        0 12345 1 0000000000000000 100 0 0 10 0";
    let s = parse_tcp_line(line, Protocol::Tcp, &owners()).unwrap();
    assert_eq!(s.local_address.to_string(), "127.0.0.1:8080");
    assert_eq!(s.remote_address.unwrap().to_string(), "0.0.0.0:0");
    assert_eq!(s.state, SocketState::Listen);
    let closing = "   0: 0100007F:1F90 00000000:0000 0B 0 0 0 1000 0 1 1";
    assert_eq!(parse_tcp_line(closing, Protocol::Tcp, &owners()).unwrap().state, SocketState::Closing);
    let sixteen = "   0: 0100007F:1F90 00000000:0000 10 0 0 0 1000 0 1 1";
    assert_eq!(parse_tcp_line(sixteen, Protocol::Tcp, &owners()).unwrap().state, SocketState::Unknown);
    let bad = "   0: 0100007F:1F90 00000000:0000 0G 0 0 0 1000 0 1 1";
    assert!(parse_tcp_line(bad, Protocol::Tcp, &owners()).is_none());
    let short = "   0: 0100007F:1F90 00000000:0000 01 00000000:00000000";
    assert!(parse_tcp_line(short, Protocol::Tcp, &owners()).is_none());
}

#[test]
fn udp_line_has_no_state() {
    let line = "  5: 00000000:0035 00000000:0000 07 00000000:00000000 00:00000000 00000000     0        0 999 2";
    let s = parse_udp_line(line, Protocol::Udp, &owners()).unwrap();
    assert_eq!(s.state, SocketState::Unknown);
    assert_eq!(s.local_address.port, 53);
    assert_eq!(s.pid, None);
}

#[test]
fn pid_lookup_skips_names_that_are_not_pids() {
    assert_eq!(find_pid_by_inode(&owners(), 12345), Some(42));
    assert_eq!(find_pid_by_inode(&owners(), 999), None);
    // The link must name exactly the socket.
    assert_eq!(find_pid_by_inode(&owners(), 234), None);
    assert_eq!(find_pid_by_inode(&owners(), 1234), None);
    let owner = vec![ProcessFds { name: "9".to_string(), comm: None, cmdline: None, links: vec!["socket:[234]".to_string()] }];
    assert_eq!(find_pid_by_inode(&owner, 234), Some(9));
    let s = parse_udp_line("  5: 00000000:0035 00000000:0000 07 0 0 0 0 0 234 2", Protocol::Udp, &owner).unwrap();
    assert_eq!((s.pid, s.process_name), (Some(9), None));
}

#[test]
fn proc_net_table_skips_its_header() {
    let content = format!("{}   0: 0100007F:1F90 00000000:0000 01 0 0 0 1000 0 12345 1\n   1: bad\n", TCP_HEADER);
    let v = parse_proc_net_tcp(&content, Protocol::Tcp, &owners());
    assert_eq!(v.len(), 1);
    assert_eq!(v[0].local_address.port, 8080);
    assert_eq!(parse_proc_net_udp("", Protocol::Udp, &owners()).len(), 0);
    assert_eq!(parse_proc_net_udp(TCP_HEADER, Protocol::Udp, &owners()).len(), 0);
}

// --- Linux listing and processes --------------------------------------------

#[test]
fn linux_listing_needs_proc_net() {
    let mut snap = linux_snapshot("", "", "");
    snap.proc_net_exists = false;
    let r = linux_sockets(&SocketFilter::default(), &snap);
    assert!(matches!(r, Err(PlatformError::ProcNetUnavailable)));
}

#[test]
fn linux_listing_reads_the_wanted_tables() {
    let tcp = format!("{}   0: 0100007F:1F90 00000000:0000 01 0 0 0 1000 0 12345 1\n", TCP_HEADER);
    let tcp6 = format!("{}   0: 00000000000000000000000001000000:0050 00000000000000000000000000000000:0000 01 0 0 0 1000 0 777 1\n", TCP_HEADER);
    let udp = format!("{}   0: 00000000:0035 00000000:0000 07 0 0 0 0 0 999 2\n", TCP_HEADER);
    let snap = linux_snapshot(&tcp, &tcp6, &udp);
    let all = linux_sockets(&SocketFilter::default(), &snap).unwrap();
    let ps: Vec<Protocol> = all.iter().map(|s| s.protocol).collect();
    assert_eq!(ps, vec![Protocol::Tcp, Protocol::Tcp6, Protocol::Udp]);
    let udp_only = SocketFilter { protocols: Some(vec![Protocol::Udp]), ..Default::default() };
    let v = linux_sockets(&udp_only, &snap).unwrap();
    assert_eq!(v.len(), 1);
    assert_eq!(v[0].protocol, Protocol::Udp);
    let by_pid = SocketFilter { pid: Some(42), ..Default::default() };
    assert_eq!(linux_sockets(&by_pid, &snap).unwrap().len(), 1);
}

#[test]
fn linux_process_errors_and_fields() {
    let mut snap = linux_snapshot("", "", "");
    let r = linux_process_info(9, &snap);
    assert!(matches!(r, Err(PlatformError::ProcessNotFound(9))));
    snap.process = ProcessFiles { exists: true, comm: None, cmdline: None };
    assert!(matches!(linux_process_info(9, &snap), Err(PlatformError::CommUnreadable(9))));
    snap.process = ProcessFiles {
        exists: true,
        comm: Some("nginx\n".to_string()),
        cmdline: Some("/usr/sbin/nginx\0-g\0".to_string()),
    };
    let p = linux_process_info(9, &snap).unwrap();
    assert_eq!(p.name, "nginx");
    assert_eq!(p.command_line.as_deref(), Some("/usr/sbin/nginx -g "));
    assert_eq!(p.pid, 9);
    snap.process.cmdline = Some(String::new());
    assert!(linux_process_info(9, &snap).unwrap().command_line.is_none());
    snap.proc_net_exists = false;
    assert!(matches!(linux_process_info(9, &snap), Err(PlatformError::ProcNetUnavailable)));
}

// --- lsof --------------------------------------------------------------------

#[test]
fn lsof_line_fields() {
    let line = "node     1234 user   18u  IPv6 0x1234      0t0  TCP [::1]:8081 (LISTEN)";
    let s = parse_lsof_line(line, &SocketFilter::default(), Protocol::Tcp).unwrap();
    assert_eq!(s.protocol, Protocol::Tcp6);
    assert_eq!(s.local_address.ip, "::1");
    assert_eq!(s.local_address.port, 8081);
    assert_eq!(s.state, SocketState::Listen);
    assert_eq!(s.pid, Some(1234));
    assert_eq!(s.process_name.as_deref(), Some("node"));
    let ipv4_only = SocketFilter { protocols: Some(vec![Protocol::Tcp]), ..Default::default() };
    assert!(parse_lsof_line(line, &ipv4_only, Protocol::Tcp).is_none());
    assert!(parse_lsof_line("node 1234 user 18u IPv4", &SocketFilter::default(), Protocol::Tcp).is_none());
    assert!(parse_lsof_line("node x user 18u IPv4 0x1 0t0 TCP *:1", &SocketFilter::default(), Protocol::Tcp).is_none());
}

#[test]
fn lsof_addresses_edge_cases() {
    let a = parse_lsof_address("[::]:8080").unwrap();
    assert_eq!((a.ip.as_str(), a.port), ("::", 8080));
    let b = parse_lsof_address("[fe80::1]").unwrap();
    assert_eq!((b.ip.as_str(), b.port), ("fe80::1", 0));
    let c = parse_lsof_address("  *  ").unwrap();
    assert_eq!((c.ip.as_str(), c.port), ("0.0.0.0", 0));
    let d = parse_lsof_address("host:http").unwrap();
    assert_eq!((d.ip.as_str(), d.port), ("host", 0));
    assert!(parse_lsof_address("nocolon").is_none());
    let (l, r, s) = parse_lsof_addresses("TCP 1.2.3.4:5->6.7.8.9:10 (CLOSE_WAIT)", true).unwrap();
    assert_eq!((l.port, r.unwrap().port, s), (5, 10, SocketState::CloseWait));
    let (_, _, s) = parse_lsof_addresses("1.2.3.4:5->6.7.8.9:10", true).unwrap();
    assert_eq!(s, SocketState::Established);
    // Two arrows: the whole text is read as one address.
    let (l, r, _) = parse_lsof_addresses("a:1->b:2->c:3", true).unwrap();
    assert_eq!((l.ip.as_str(), l.port), ("a:1->b:2->c", 3));
    assert!(r.is_none());
    assert!(parse_lsof_addresses("x->y:2", true).is_none());
}

#[test]
fn lsof_output_skips_header_and_applies_filter() {
    let all = parse_lsof_output(LSOF_TCP, &SocketFilter::default(), Protocol::Tcp);
    assert_eq!(all.len(), 3);
    let listen = SocketFilter { listen_only: true, ..Default::default() };
    assert_eq!(parse_lsof_output(LSOF_TCP, &listen, Protocol::Tcp).len(), 2);
    let port = SocketFilter { port: Some(54321), ..Default::default() };
    let v = parse_lsof_output(LSOF_TCP, &port, Protocol::Tcp);
    assert_eq!(v.len(), 1);
    assert_eq!(v[0].pid, Some(900));
}

#[test]
fn lsof_failures_are_errors() {
    let r = get_tcp_sockets(&SocketFilter::default(), &None);
    assert!(matches!(r, Err(PlatformError::LsofNotRunnable)));
    let failed = Some(CommandOutput { success: false, stdout: String::new(), stderr: "denied".to_string() });
    match get_tcp_sockets(&SocketFilter::default(), &failed) {
        Err(PlatformError::LsofFailed(e)) => assert_eq!(e, "denied"),
        _ => panic!("expected a failure"),
    }
    // A run that is not wanted is not consulted.
    let snap = MacSnapshot { tcp: None, udp: lsof_ok(LSOF_UDP), process_name: None, process_command: None, owner_commands: vec![] };
    let udp_only = SocketFilter { protocols: Some(vec![Protocol::Udp6]), ..Default::default() };
    let v = mac_sockets(&udp_only, &snap).unwrap();
    assert_eq!(v.len(), 1);
    assert_eq!(v[0].local_address.ip, "::");
}

#[test]
fn mac_process_fields() {
    let p = mac_process_info(1234, &mac_snapshot()).unwrap();
    assert_eq!(p.name, "named");
    assert_eq!(p.command_line.as_deref(), Some("/usr/bin/node app.js"));
    assert_eq!(p.sockets.len(), 2);
    let mut snap = mac_snapshot();
    snap.process_name = Some("node".to_string());
    snap.process_command = Some(" \n".to_string());
    let q = mac_process_info(1234, &snap).unwrap();
    assert_eq!(q.name, "node");
    assert!(q.command_line.is_none());
    // A PID that the system gives no name for is no process.
    snap.process_name = None;
    assert!(matches!(mac_process_info(1234, &snap), Err(PlatformError::ProcessNotFound(1234))));
}

// --- output ------------------------------------------------------------------

#[test]
fn sockets_table_is_rendered_by_tabled() {
    assert_eq!(format_sockets_table(&[]), "No sockets found.");
    let t = format_sockets_table(&[socket(Protocol::Tcp, 80, SocketState::Listen)]);
    assert!(t.starts_with('┌'));
    assert!(t.contains("PROTOCOL"));
    assert!(t.contains("LOCAL ADDRESS"));
    assert!(t.contains("0.0.0.0:80"));
    assert!(t.contains("LISTEN"));
    assert!(t.contains("test"));
    assert!(t.contains(" - "));
    assert_eq!(t.lines().count(), 5);
}

#[test]
fn process_report_text() {
    let p = ProcessInfo { pid: 1234, name: "nginx".to_string(), command_line: None, sockets: vec![] };
    assert_eq!(
        format_process_table(&p),
        "Process nginx (PID: 1234)\nCommand: (unknown)\n\nOpen Sockets:\nNo sockets found."
    );
    let q = ProcessInfo {
        pid: 1,
        name: "init".to_string(),
        command_line: Some("/sbin/init".to_string()),
        sockets: vec![socket(Protocol::Udp, 53, SocketState::Unknown)],
    };
    let t = format_process_table(&q);
    assert!(t.starts_with("Process init (PID: 1)\nCommand: /sbin/init\n\nOpen Sockets:\n┌"));
    assert!(t.contains("UDP"));
}

// --- commands ----------------------------------------------------------------

#[test]
fn list_filter_protocol_selection() {
    let f = build_filter(&options());
    assert_eq!(f.protocols, Some(vec![Protocol::Tcp, Protocol::Tcp6, Protocol::Udp, Protocol::Udp6]));
    let f = build_filter(&ListOptions { tcp: true, ..options() });
    assert_eq!(f.protocols, Some(vec![Protocol::Tcp, Protocol::Tcp6]));
    let f = build_filter(&ListOptions { tcp: true, udp: true, ..options() });
    assert_eq!(f.protocols, None);
    let f = build_filter(&ListOptions { ipv4: true, ..options() });
    assert_eq!(f.protocols, Some(vec![Protocol::Tcp, Protocol::Udp]));
    let f = build_filter(&ListOptions { udp: true, ipv6: true, listen: true, port: Some(53), pid: Some(9), ..options() });
    assert_eq!(f.protocols, Some(vec![Protocol::Udp6]));
    assert!(f.listen_only);
    assert_eq!((f.port, f.pid), (Some(53), Some(9)));
}

#[test]
fn list_command_reports() {
    let snap = SystemSnapshot::MacOs(mac_snapshot());
    match execute_list(&options(), false, &snap) {
        Ok(Report::Text(t)) => {
            assert!(t.contains("PROTOCOL"));
            assert!(t.ends_with('\n'));
        }
        _ => panic!("expected text"),
    }
    let r = execute_list(&ListOptions { listen: true, ..options() }, true, &snap);
    match r {
        Ok(Report::SocketsJson(v)) => {
            assert_eq!(v.len(), 2);
            assert!(v.iter().all(|s| s.state == SocketState::Listen));
        }
        _ => panic!("expected sockets"),
    }
    let empty = execute_list(&ListOptions { port: Some(65430), ..options() }, false, &snap);
    match empty {
        Ok(Report::Text(t)) => assert_eq!(t, "No sockets found.\n"),
        _ => panic!("expected text"),
    }
}

#[test]
fn tcp_and_udp_flags_list_what_neither_lists() {
    let snap = SystemSnapshot::MacOs(mac_snapshot());
    let both = protocols_of(&execute_list(&ListOptions { tcp: true, udp: true, ..options() }, true, &snap));
    let neither = protocols_of(&execute_list(&options(), true, &snap));
    assert_eq!(both, neither);
    assert_eq!(neither.len(), 5);
}

#[test]
fn ipv4_option_on_each_platform() {
    let mac = SystemSnapshot::MacOs(mac_snapshot());
    let v = protocols_of(&execute_list(&ListOptions { ipv4: true, ..options() }, true, &mac));
    assert_eq!(v, vec![Protocol::Tcp, Protocol::Tcp, Protocol::Udp]);
    // With --tcp --udp the protocols are not named, and IPv6 sockets are listed too.
    let w = protocols_of(&execute_list(&ListOptions { ipv4: true, tcp: true, udp: true, ..options() }, true, &mac));
    assert!(w.contains(&Protocol::Tcp6));
    // On Linux too, only the named protocols are listed.
    let tcp = format!("{}   0: 0100007F:1F90 00000000:0000 0A 0 0 0 1000 0 12345 1\n", TCP_HEADER);
    let tcp6 = format!("{}   0: 00000000000000000000000001000000:0050 00000000000000000000000000000000:0000 01 0 0 0 1000 0 777 1\n", TCP_HEADER);
    let linux = SystemSnapshot::Linux(linux_snapshot(&tcp, &tcp6, ""));
    let l = protocols_of(&execute_list(&ListOptions { ipv4: true, ..options() }, true, &linux));
    assert_eq!(l, vec![Protocol::Tcp]);
    let l = protocols_of(&execute_list(&ListOptions { ipv6: true, ..options() }, true, &linux));
    assert_eq!(l, vec![Protocol::Tcp6]);
    let tcp_only = SocketFilter { protocols: Some(vec![Protocol::Tcp]), ..Default::default() };
    let v: Vec<Protocol> = get_sockets(&tcp_only, &linux).unwrap().iter().map(|s| s.protocol).collect();
    assert_eq!(v, vec![Protocol::Tcp]);
}

#[test]
fn get_port_reports() {
    let snap = SystemSnapshot::MacOs(mac_snapshot());
    match execute_get(&GetCommands::Port { port: 1, verbose: false }, false, &snap) {
        Ok(Report::Text(t)) => assert_eq!(t, "No sockets found using port 1\n"),
        _ => panic!("expected text"),
    }
    match execute_get(&GetCommands::Port { port: 22, verbose: true }, false, &snap) {
        Ok(Report::Text(t)) => assert_eq!(
            t,
            "Sockets using port 22:\n\nProtocol: TCP\nLocal Address: 192.168.1.1:22\nRemote Address: 10.0.0.1:54321\nState: ESTABLISHED\nPID: 900\nProcess: sshd\nCommand: /usr/sbin/sshd -D\n\n"
        ),
        _ => panic!("expected text"),
    }
    match execute_get(&GetCommands::Port { port: 53, verbose: false }, true, &snap) {
        Ok(Report::SocketsJson(v)) => assert_eq!(v.len(), 2),
        _ => panic!("expected sockets"),
    }
    // With --json, a port that nothing uses gives an empty array.
    match execute_get(&GetCommands::Port { port: 1, verbose: false }, true, &snap) {
        Ok(Report::SocketsJson(v)) => assert!(v.is_empty()),
        _ => panic!("expected sockets"),
    }
}

#[test]
fn get_pid_reports() {
    let snap = SystemSnapshot::MacOs(mac_snapshot());
    match execute_get(&GetCommands::Pid { pid: 901 }, true, &snap) {
        Ok(Report::ProcessJson(p)) => {
            assert_eq!(p.pid, 901);
            assert_eq!(p.sockets.len(), 2);
            assert!(p.sockets.iter().all(|s| s.pid == Some(901)));
        }
        _ => panic!("expected a process"),
    }
    match execute_get(&GetCommands::Pid { pid: 901 }, false, &snap) {
        Ok(Report::Text(t)) => assert!(t.starts_with("Process named (PID: 901)\nCommand: /usr/bin/node app.js\n")),
        _ => panic!("expected text"),
    }
    let linux = SystemSnapshot::Linux(linux_snapshot("", "", ""));
    assert!(matches!(execute_get(&GetCommands::Pid { pid: 5 }, false, &linux), Err(PlatformError::ProcessNotFound(5))));
    assert!(matches!(get_process_info(5, &linux), Err(PlatformError::ProcessNotFound(5))));
    assert!(get_sockets(&SocketFilter::default(), &linux).unwrap().is_empty());
}

#[test]
fn lsof_address_reads_back_its_text() {
    for (ip, port) in [("192.168.1.1", 22u16), ("::1", 8080), ("", 0), ("fe80::1%en0", 65535)] {
        let a = SocketAddress { ip: ip.to_string(), port };
        let b = parse_lsof_address(&a.to_string()).unwrap();
        assert_eq!(b, a);
    }
}

#[test]
fn list_port_finds_what_get_port_finds() {
    let snap = SystemSnapshot::MacOs(mac_snapshot());
    let listed = match execute_list(&ListOptions { port: Some(53), ..options() }, true, &snap) {
        Ok(Report::SocketsJson(v)) => v,
        _ => panic!("expected sockets"),
    };
    let got = match execute_get(&GetCommands::Port { port: 53, verbose: false }, true, &snap) {
        Ok(Report::SocketsJson(v)) => v,
        _ => panic!("expected sockets"),
    };
    let ips = |v: &Vec<SocketInfo>| v.iter().map(|s| s.local_address.to_string()).collect::<Vec<_>>();
    assert_eq!(ips(&listed), ips(&got));
    assert_eq!(ips(&got), vec!["0.0.0.0:53".to_string(), ":::53".to_string()]);
}

#[test]
fn udp_sockets_have_no_state() {
    let snap = SystemSnapshot::MacOs(mac_snapshot());
    let v = protocols_and_states(&execute_list(&ListOptions { udp: true, ..options() }, true, &snap));
    assert_eq!(v, vec![(Protocol::Udp, SocketState::Unknown), (Protocol::Udp6, SocketState::Unknown)]);
}

fn protocols_and_states(r: &Result<Report, PlatformError>) -> Vec<(Protocol, SocketState)> {
    match r {
        Ok(Report::SocketsJson(v)) => v.iter().map(|s| (s.protocol, s.state)).collect(),
        _ => panic!("expected sockets"),
    }
}

#[test]
fn filtered_listing_is_the_full_listing_filtered() {
    let tcp = format!(
        "{}   0: 0100007F:1F90 00000000:0000 0A 0 0 0 1000 0 12345 1\n   1: 0500A8C0:C3A6 0100000A:0016 01 0 0 0 1000 0 5 1\n",
        TCP_HEADER
    );
    let tcp6 = format!("{}   0: 00000000000000000000000000000000:0050 00000000000000000000000000000000:0000 0A 0 0 0 1000 0 777 1\n", TCP_HEADER);
    let udp = format!("{}   0: 00000000:0035 00000000:0000 07 0 0 0 0 0 999 2\n", TCP_HEADER);
    let snaps = [SystemSnapshot::MacOs(mac_snapshot()), SystemSnapshot::Linux(linux_snapshot(&tcp, &tcp6, &udp))];
    let filters = [
        SocketFilter { protocols: Some(vec![Protocol::Tcp]), ..Default::default() },
        SocketFilter { protocols: Some(vec![Protocol::Udp6, Protocol::Tcp6]), ..Default::default() },
        SocketFilter { listen_only: true, ..Default::default() },
        SocketFilter { port: Some(22), ..Default::default() },
        SocketFilter { pid: Some(42), protocols: Some(vec![Protocol::Tcp]), ..Default::default() },
    ];
    for snap in &snaps {
        let all = get_sockets(&SocketFilter::default(), snap).unwrap();
        assert!(all.len() >= 3);
        for f in &filters {
            let got = get_sockets(f, snap).unwrap();
            let expected: Vec<&SocketInfo> = all
                .iter()
                .filter(|s| f.protocols.as_ref().map_or(true, |ps| ps.contains(&s.protocol)))
                .filter(|s| !f.listen_only || s.state == SocketState::Listen)
                .filter(|s| f.pid.map_or(true, |p| s.pid == Some(p)))
                .filter(|s| {
                    f.port.map_or(true, |p| s.local_address.port == p || s.remote_address.as_ref().map(|r| r.port) == Some(p))
                })
                .collect();
            let got: Vec<&SocketInfo> = got.iter().collect();
            assert_eq!(format!("{:?}", got), format!("{:?}", expected));
        }
    }
}

#[test]
fn sockets_carry_their_owners_command_lines() {
    let snap = mac_snapshot();
    let all = mac_sockets(&SocketFilter::default(), &snap).unwrap();
    let cmds: Vec<(Option<u32>, Option<String>)> = all.iter().map(|s| (s.pid, s.command_line.clone())).collect();
    assert_eq!(
        cmds,
        vec![
            (Some(1234), None),
            (Some(1234), None),
            (Some(900), Some("/usr/sbin/sshd -D".to_string())),
            (Some(901), None),
            (Some(901), None),
        ]
    );
    assert_eq!(owner_pids(&all), vec![1234, 900, 901]);
    assert!(owner_pids(&[]).is_empty());
    // Verbose or not, `get port` shows the owner's command line.
    for verbose in [false, true] {
        match execute_get(&GetCommands::Port { port: 22, verbose }, false, &SystemSnapshot::MacOs(mac_snapshot())) {
            Ok(Report::Text(t)) => assert!(t.contains("Process: sshd\nCommand: /usr/sbin/sshd -D\n")),
            _ => panic!("expected text"),
        }
    }
    let tcp = format!("{}   0: 0100007F:1F90 00000000:0000 0A 0 0 0 1000 0 12345 1\n", TCP_HEADER);
    let linux = SystemSnapshot::Linux(linux_snapshot(&tcp, "", ""));
    match execute_get(&GetCommands::Port { port: 8080, verbose: true }, false, &linux) {
        Ok(Report::Text(t)) => assert!(t.ends_with("PID: 42\nProcess: nginx\nCommand: /usr/sbin/nginx -g daemon off; \n\n")),
        _ => panic!("expected text"),
    }
}
