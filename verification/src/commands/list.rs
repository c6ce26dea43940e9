//! The list command: sockets with protocol, port, process and address-family filters.

use crate::cli::ListOptions;
use crate::commands::report::{report_result, Report, ReportView};
use crate::model::output::{format_sockets_table, sockets_table_text};
use crate::model::types::{FilterView, Protocol, SocketFilter};
use crate::platform::common::{ErrorView, PlatformError};
use crate::platform::{get_sockets, platform_sockets, SystemSnapshot};
use crate::text::push_str;
use vstd::prelude::*;

verus! {

broadcast use vstd::string::group_string_axioms;

/// The protocols that the list options select: TCP unless only UDP is
/// asked for, UDP unless only TCP is asked for; IPv4 if asked for or if no
/// family is, IPv6 likewise. In the order TCP, TCP6, UDP, UDP6.
pub open spec fn list_protocols(o: ListOptions) -> Seq<Protocol> {
    let no_family = !o.ipv4 && !o.ipv6;
    let v4 = o.ipv4 || no_family;
    let v6 = o.ipv6 || no_family;
    let tcp = if !o.udp {
        (if v4 {
            seq![Protocol::Tcp]
        } else {
            seq![]
        }) + (if v6 {
            seq![Protocol::Tcp6]
        } else {
            seq![]
        })
    } else {
        seq![]
    };
    let udp = if !o.tcp {
        (if v4 {
            seq![Protocol::Udp]
        } else {
            seq![]
        }) + (if v6 {
            seq![Protocol::Udp6]
        } else {
            seq![]
        })
    } else {
        seq![]
    };
    tcp + udp
}

/// The filter of the list command: the selected protocols (none named if
/// none are selected), and the listen, PID and port options.
pub open spec fn list_filter(o: ListOptions) -> FilterView {
    let ps = list_protocols(o);
    FilterView {
        protocols: if ps.len() == 0 {
            None
        } else {
            Some(ps)
        },
        listen_only: o.listen,
        pid: o.pid,
        port: o.port,
    }
}

/// Builds the socket filter of the list command.
pub fn build_filter(options: &ListOptions) -> (f: SocketFilter)
    ensures
        f@ == list_filter(*options),
{
    let show_tcp = !options.udp;
    let show_udp = !options.tcp;
    let no_family = !options.ipv4 && !options.ipv6;
    let mut protocols: Vec<Protocol> = Vec::new();
    if show_tcp {
        if options.ipv4 || no_family {
            protocols.push(Protocol::Tcp);
        }
        if options.ipv6 || no_family {
            protocols.push(Protocol::Tcp6);
        }
    }
    if show_udp {
        if options.ipv4 || no_family {
            protocols.push(Protocol::Udp);
        }
        if options.ipv6 || no_family {
            protocols.push(Protocol::Udp6);
        }
    }
    assert(protocols@ =~= list_protocols(*options));
    let protocols = if protocols.len() > 0 {
        Some(protocols)
    } else {
        None
    };
    SocketFilter { protocols, listen_only: options.listen, pid: options.pid, port: options.port }
}

/// The outcome of the list command: the sockets that pass its filter, as
/// JSON or as a table followed by a line break.
pub open spec fn list_report(o: ListOptions, json: bool, snap: SystemSnapshot) -> Result<ReportView, ErrorView> {
    match platform_sockets(snap, list_filter(o)) {
        Err(e) => Err(e),
        Ok(s) => Ok(
            if json {
                ReportView::SocketsJson(s)
            } else {
                ReportView::Text(sockets_table_text(s) + "\n"@)
            },
        ),
    }
}

/// Executes the list command with the specified options.
pub fn execute(options: &ListOptions, json_output: bool, snap: &SystemSnapshot) -> (r: Result<Report, PlatformError>)
    ensures
        report_result(r) == list_report(*options, json_output, *snap),
{
    let filter = build_filter(options);
    let sockets = match get_sockets(&filter, snap) {
        Ok(s) => s,
        Err(e) => {
            return Err(e);
        },
    };
    if json_output {
        Ok(Report::SocketsJson(sockets))
    } else {
        let mut text = format_sockets_table(sockets.as_slice());
        push_str(&mut text, "\n");
        Ok(Report::Text(text))
    }
}

} // verus!
