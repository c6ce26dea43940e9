use ptu::platform::linux::{apply_filters, parse_socket_address, parse_tcp_state};
use ptu::platform::macos::{parse_lsof_address, parse_lsof_addresses};
use ptu::{Protocol, SocketAddress, SocketFilter, SocketInfo, SocketState};

#[test]
fn test_parse_socket_address_ipv4() {
    // Test IPv4 address parsing: 127.0.0.1:8080
    let addr = "0100007F:1F90";
    let result = parse_socket_address(addr);
    assert!(result.is_some());
    let socket_addr = result.unwrap();
    assert_eq!(socket_addr.ip, "127.0.0.1");
    assert_eq!(socket_addr.port, 8080);
}

#[test]
fn test_parse_socket_address_ipv4_wildcard() {
    // Test 0.0.0.0:80
    let addr = "00000000:0050";
    let result = parse_socket_address(addr);
    assert!(result.is_some());
    let socket_addr = result.unwrap();
    assert_eq!(socket_addr.ip, "0.0.0.0");
    assert_eq!(socket_addr.port, 80);
}

#[test]
fn test_parse_socket_address_invalid() {
    // Test invalid format
    let addr = "invalid";
    let result = parse_socket_address(addr);
    assert!(result.is_none());
}

#[test]
fn test_parse_tcp_state() {
    assert_eq!(parse_tcp_state(1), SocketState::Established);
    assert_eq!(parse_tcp_state(10), SocketState::Listen);
    assert_eq!(parse_tcp_state(99), SocketState::Unknown);
}

#[test]
fn test_apply_filters_listen_only() {
    let sockets = vec![
        SocketInfo {
            protocol: Protocol::Tcp,
            local_address: SocketAddress {
                ip: "0.0.0.0".to_string(),
                port: 80,
            },
            remote_address: None,
            state: SocketState::Listen,
            pid: Some(1),
            process_name: Some("test".to_string()),
            command_line: None,
        },
        SocketInfo {
            protocol: Protocol::Tcp,
            local_address: SocketAddress {
                ip: "192.168.1.1".to_string(),
                port: 45678,
            },
            remote_address: Some(SocketAddress {
                ip: "10.0.0.1".to_string(),
                port: 80,
            }),
            state: SocketState::Established,
            pid: Some(1),
            process_name: Some("test".to_string()),
            command_line: None,
        },
    ];

    let filter = SocketFilter {
        listen_only: true,
        ..Default::default()
    };

    let result = apply_filters(sockets, &filter);
    assert_eq!(result.len(), 1);
    assert!(matches!(result[0].state, SocketState::Listen));
}

#[test]
fn test_apply_filters_by_port() {
    let sockets = vec![
        SocketInfo {
            protocol: Protocol::Tcp,
            local_address: SocketAddress {
                ip: "0.0.0.0".to_string(),
                port: 80,
            },
            remote_address: None,
            state: SocketState::Listen,
            pid: Some(1),
            process_name: Some("test".to_string()),
            command_line: None,
        },
        SocketInfo {
            protocol: Protocol::Tcp,
            local_address: SocketAddress {
                ip: "0.0.0.0".to_string(),
                port: 443,
            },
            remote_address: None,
            state: SocketState::Listen,
            pid: Some(1),
            process_name: Some("test".to_string()),
            command_line: None,
        },
    ];

    let filter = SocketFilter {
        port: Some(80),
        ..Default::default()
    };

    let result = apply_filters(sockets, &filter);
    assert_eq!(result.len(), 1);
    assert_eq!(result[0].local_address.port, 80);
}

#[test]
fn test_parse_lsof_address_ipv4() {
    let addr = "192.168.1.1:8080";
    let result = parse_lsof_address(addr);
    assert!(result.is_some());
    let socket_addr = result.unwrap();
    assert_eq!(socket_addr.ip, "192.168.1.1");
    assert_eq!(socket_addr.port, 8080);
}

#[test]
fn test_parse_lsof_address_wildcard() {
    let addr = "*:22";
    let result = parse_lsof_address(addr);
    assert!(result.is_some());
    let socket_addr = result.unwrap();
    assert_eq!(socket_addr.ip, "0.0.0.0");
    assert_eq!(socket_addr.port, 22);
}

#[test]
fn test_parse_lsof_address_localhost() {
    let addr = "127.0.0.1:3000";
    let result = parse_lsof_address(addr);
    assert!(result.is_some());
    let socket_addr = result.unwrap();
    assert_eq!(socket_addr.ip, "127.0.0.1");
    assert_eq!(socket_addr.port, 3000);
}

#[test]
fn test_parse_lsof_addresses_listen() {
    let info = "*:8080 (LISTEN)";
    let (local, remote, state) = parse_lsof_addresses(info, true).unwrap();
    assert_eq!(local.ip, "0.0.0.0");
    assert_eq!(local.port, 8080);
    assert!(remote.is_none());
    assert_eq!(state, SocketState::Listen);
}

#[test]
fn test_parse_lsof_addresses_established() {
    let info = "192.168.1.1:22->10.0.0.1:54321 (ESTABLISHED)";
    let (local, remote, state) = parse_lsof_addresses(info, true).unwrap();
    assert_eq!(local.ip, "192.168.1.1");
    assert_eq!(local.port, 22);
    assert!(remote.is_some());
    assert_eq!(remote.unwrap().port, 54321);
    assert_eq!(state, SocketState::Established);
}

#[test]
fn test_parse_lsof_addresses_udp() {
    let info = "*:53";
    let (local, remote, state) = parse_lsof_addresses(info, false).unwrap();
    assert_eq!(local.ip, "0.0.0.0");
    assert_eq!(local.port, 53);
    assert!(remote.is_none());
    assert_eq!(state, SocketState::Unknown);
}
