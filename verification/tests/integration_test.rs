//! The command-level checks of ptu, run on fixed snapshots of a system:
//! one as `lsof` shows it on macOS, one as `/proc` shows it on Linux.

use ptu::cli::{GetCommands, ListOptions};
use ptu::commands::get::execute as execute_get;
use ptu::commands::list::execute as execute_list;
use ptu::commands::Report;
use ptu::platform::linux::{LinuxSnapshot, ProcessFds, ProcessFiles};
use ptu::platform::macos::{CommandOutput, MacSnapshot, OwnerCommand};
use ptu::platform::SystemSnapshot;
use ptu::{Protocol, SocketInfo, SocketState};

const LSOF_TCP: &str = "COMMAND   PID USER   FD   TYPE   DEVICE SIZE/OFF NODE NAME\n\
ControlCe 513 user    9u  IPv4 0x1111      0t0  TCP *:7000 (LISTEN)\n\
com.docke 713 user   20u  IPv6 0x1112      0t0  TCP *:8080 (LISTEN)\n\
ssh      2001 user    3u  IPv4 0x1113      0t0  TCP 192.168.1.5:50022->10.0.0.1:22 (ESTABLISHED)\n\
Safari   3001 user   40u  IPv6 0x1114      0t0  TCP [fe80::1]:50100->[fe80::2]:443 (TIME_WAIT)\n";

const LSOF_UDP: &str = "COMMAND   PID USER   FD   TYPE   DEVICE SIZE/OFF NODE NAME\n\
mDNSRespo 400 user    7u  IPv4 0x2221      0t0  UDP *:5353\n\
mDNSRespo 400 user    8u  IPv6 0x2222      0t0  UDP *:5353\n";

const HEADER: &str = "  sl  local_address rem_address   st tx_queue rx_queue tr tm->when retrnsmt   uid  timeout inode\n";

fn mac() -> SystemSnapshot {
    SystemSnapshot::MacOs(MacSnapshot {
        tcp: Some(CommandOutput { success: true, stdout: LSOF_TCP.to_string(), stderr: String::new() }),
        udp: Some(CommandOutput { success: true, stdout: LSOF_UDP.to_string(), stderr: String::new() }),
        process_name: Some("ssh".to_string()),
        process_command: Some("ssh server\n".to_string()),
        owner_commands: vec![OwnerCommand { pid: 2001, command: Some("ssh server\n".to_string()) }],
    })
}

fn linux() -> SystemSnapshot {
    let tcp = format!(
        "{}   0: 0100007F:0CEA 00000000:0000 0A 0 0 0 1000 0 5001 1\n   1: 0500A8C0:C3A6 0100000A:0016 01 0 0 0 1000 0 5002 1\n",
        HEADER
    );
    let tcp6 = format!(
        "{}   0: 00000000000000000000000000000000:1F90 00000000000000000000000000000000:0000 0A 0 0 0 1000 0 5004 1\n",
        HEADER
    );
    let udp = format!("{}   0: 00000000:14E9 00000000:0000 07 0 0 0 0 0 5003 2\n", HEADER);
    let udp6 = format!(
        "{}   0: 00000000000000000000000000000000:14E9 00000000000000000000000000000000:0000 07 0 0 0 0 0 5005 2\n",
        HEADER
    );
    SystemSnapshot::Linux(LinuxSnapshot {
        proc_net_exists: true,
        tcp: Some(tcp),
        tcp6: Some(tcp6),
        udp: Some(udp),
        udp6: Some(udp6),
        fd_owners: vec![
            ProcessFds {
                name: "2001".to_string(),
                comm: Some("ssh\n".to_string()),
                cmdline: Some("ssh\0-N\0".to_string()),
                links: vec!["socket:[5002]".to_string()],
            },
            ProcessFds {
                name: "80".to_string(),
                comm: Some("nginx\n".to_string()),
                cmdline: None,
                links: vec!["socket:[5004]".to_string(), "socket:[5001]".to_string()],
            },
        ],
        process: ProcessFiles { exists: false, comm: None, cmdline: None },
    })
}

fn options() -> ListOptions {
    ListOptions { tcp: false, udp: false, listen: false, pid: None, port: None, ipv4: false, ipv6: false }
}

fn list_json(options: &ListOptions, snap: &SystemSnapshot) -> Vec<SocketInfo> {
    match execute_list(options, true, snap) {
        Ok(Report::SocketsJson(v)) => v,
        _ => panic!("Command failed"),
    }
}

fn list_text(options: &ListOptions, snap: &SystemSnapshot) -> String {
    match execute_list(options, false, snap) {
        Ok(Report::Text(t)) => t,
        _ => panic!("Command failed"),
    }
}

#[test]
fn test_list_all_sockets() {
    for snap in [mac(), linux()] {
        let sockets = list_json(&options(), &snap);
        assert!(!sockets.is_empty(), "Should find at least one socket");
    }
}

#[test]
fn test_list_listen_sockets() {
    for snap in [mac(), linux()] {
        let sockets = list_json(&ListOptions { listen: true, ..options() }, &snap);
        for socket in &sockets {
            assert_eq!(socket.state.to_string(), "LISTEN");
        }
    }
}

#[test]
fn test_list_tcp_sockets() {
    for snap in [mac(), linux()] {
        let sockets = list_json(&ListOptions { tcp: true, ..options() }, &snap);
        assert!(!sockets.is_empty());
        for socket in &sockets {
            assert!(matches!(socket.protocol, Protocol::Tcp | Protocol::Tcp6));
        }
    }
}

#[test]
fn test_list_udp_sockets() {
    for snap in [mac(), linux()] {
        let sockets = list_json(&ListOptions { udp: true, ..options() }, &snap);
        assert!(!sockets.is_empty());
        for socket in &sockets {
            assert!(matches!(socket.protocol, Protocol::Udp | Protocol::Udp6));
        }
    }
}

#[test]
fn test_list_ipv4_sockets() {
    for (snap, count) in [(mac(), 3), (linux(), 3)] {
        let sockets = list_json(&ListOptions { ipv4: true, ..options() }, &snap);
        assert_eq!(sockets.len(), count);
        for socket in &sockets {
            assert!(matches!(socket.protocol, Protocol::Tcp | Protocol::Udp));
        }
    }
}

#[test]
fn test_list_ipv6_sockets() {
    for (snap, count) in [(mac(), 3), (linux(), 2)] {
        let sockets = list_json(&ListOptions { ipv6: true, ..options() }, &snap);
        assert_eq!(sockets.len(), count);
        for socket in &sockets {
            assert!(matches!(socket.protocol, Protocol::Tcp6 | Protocol::Udp6));
        }
    }
}

#[test]
fn test_list_combined_filters() {
    for snap in [mac(), linux()] {
        let sockets = list_json(&ListOptions { tcp: true, listen: true, ..options() }, &snap);
        for socket in &sockets {
            assert!(matches!(socket.protocol, Protocol::Tcp | Protocol::Tcp6));
            assert_eq!(socket.state, SocketState::Listen);
        }
    }
}

#[test]
fn test_get_port_invalid() {
    for snap in [mac(), linux()] {
        match execute_get(&GetCommands::Port { port: 1, verbose: false }, false, &snap) {
            Ok(Report::Text(output)) => assert!(
                output.contains("No sockets found") || output.contains("Sockets using port 1"),
                "Expected 'No sockets found' or socket info"
            ),
            _ => panic!("Command failed"),
        }
    }
}

#[test]
fn test_get_pid_current_process() {
    match execute_get(&GetCommands::Pid { pid: 2001 }, true, &mac()) {
        Ok(Report::ProcessJson(process)) => {
            assert_eq!(process.pid, 2001, "PID should match current process");
            assert_eq!(process.name, "ssh");
            assert_eq!(process.command_line.as_deref(), Some("ssh server"));
            assert_eq!(process.sockets.len(), 1);
        }
        _ => panic!("Command failed"),
    }
}

#[test]
fn test_json_output_format() {
    for snap in [mac(), linux()] {
        let sockets = list_json(&ListOptions { listen: true, ..options() }, &snap);
        assert_eq!(sockets.len(), 2);
        for socket in &sockets {
            assert!(socket.local_address.port > 0);
            assert_eq!(socket.state, SocketState::Listen);
        }
    }
}

#[test]
fn linux_listing_names_the_owning_processes() {
    let sockets = list_json(&ListOptions { listen: true, ..options() }, &linux());
    let seen: Vec<(String, Option<u32>, Option<String>)> = sockets
        .iter()
        .map(|s| (s.local_address.to_string(), s.pid, s.process_name.clone()))
        .collect();
    assert_eq!(
        seen,
        vec![
            ("127.0.0.1:3306".to_string(), Some(80), Some("nginx".to_string())),
            (":::8080".to_string(), Some(80), Some("nginx".to_string())),
        ]
    );
}

#[test]
fn test_table_output_format() {
    for snap in [mac(), linux()] {
        let output = list_text(&options(), &snap);
        assert!(output.contains("PROTOCOL"), "Output should contain protocol header");
        assert!(output.contains("LOCAL ADDRESS"), "Output should contain local address header");
        assert!(output.contains("STATE"), "Output should contain state header");
    }
}

#[test]
fn test_list_empty_output() {
    for snap in [mac(), linux()] {
        let sockets = list_json(&ListOptions { port: Some(65430), ..options() }, &snap);
        assert_eq!(sockets.len(), 0, "Should return empty array for unused port");
    }
}

#[test]
fn get_port_shows_the_owners_command_line() {
    for (snap, expected) in [(mac(), "Process: ssh\nCommand: ssh server\n"), (linux(), "Process: ssh\nCommand: ssh -N \n")] {
        match execute_get(&GetCommands::Port { port: 22, verbose: true }, false, &snap) {
            Ok(Report::Text(output)) => assert!(output.contains(expected), "{}", output),
            _ => panic!("Command failed"),
        }
    }
}
