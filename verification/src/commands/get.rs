//! The get command: what uses a port, or what a process has open.

use crate::cli::GetCommands;
use crate::commands::report::{report_result, Report, ReportView};
use crate::model::output::{format_process_table, process_table_text};
use crate::model::types::{
    address_text, protocol_text, socket_views, state_text, FilterView, SocketFilter, SocketInfo,
    SocketView,
};
use crate::number::{decimal, decimal_string, push_decimal};
use crate::platform::common::{ErrorView, PlatformError};
use crate::platform::{get_process_info, get_sockets, platform_process, platform_sockets, SystemSnapshot};
use crate::text::push_str;
use vstd::prelude::*;

verus! {

broadcast use vstd::string::group_string_axioms;

/// The filter that keeps the sockets using `port`.
pub open spec fn port_filter(port: u16) -> FilterView {
    FilterView { protocols: None, listen_only: false, pid: None, port: Some(port) }
}

/// The lines that describe one socket using the port, and a blank line.
pub open spec fn port_socket_text(s: SocketView) -> Seq<char> {
    "Protocol: "@ + protocol_text(s.protocol) + "\n"@ + ("Local Address: "@ + address_text(s.local)
        + "\n"@) + remote_text(s) + ("State: "@ + state_text(s.state) + "\n"@) + owner_text(s)
        + "\n"@
}

/// The descriptions of the sockets, one after the other.
pub open spec fn port_sockets_text(s: Seq<SocketView>) -> Seq<char>
    decreases s.len(),
{
    if s.len() == 0 {
        seq![]
    } else {
        port_sockets_text(s.drop_last()) + port_socket_text(s.last())
    }
}

/// The outcome of `get port`: the sockets as JSON (an empty array when nothing
/// uses the port); otherwise a note when nothing uses the port, or a heading
/// and the sockets' descriptions.
pub open spec fn port_report(port: u16, json: bool, snap: SystemSnapshot) -> Result<ReportView, ErrorView> {
    match platform_sockets(snap, port_filter(port)) {
        Err(e) => Err(e),
        Ok(s) => Ok(
            if json {
                ReportView::SocketsJson(s)
            } else if s.len() == 0 {
                ReportView::Text("No sockets found using port "@ + decimal(port as nat) + "\n"@)
            } else {
                ReportView::Text(
                    "Sockets using port "@ + decimal(port as nat) + ":\n\n"@ + port_sockets_text(s),
                )
            },
        ),
    }
}

/// The outcome of `get pid`: the process as JSON, or its report and a line break.
pub open spec fn pid_report(pid: u32, json: bool, snap: SystemSnapshot) -> Result<ReportView, ErrorView> {
    match platform_process(pid, snap) {
        Err(e) => Err(e),
        Ok(p) => Ok(
            if json {
                ReportView::ProcessJson(p)
            } else {
                ReportView::Text(process_table_text(p) + "\n"@)
            },
        ),
    }
}

/// The outcome of a get command.
pub open spec fn get_report(command: GetCommands, json: bool, snap: SystemSnapshot) -> Result<ReportView, ErrorView> {
    match command {
        GetCommands::Port { port, verbose } => port_report(port, json, snap),
        GetCommands::Pid { pid } => pid_report(pid, json, snap),
    }
}

/// Executes the get command with the specified subcommand.
pub fn execute(command: &GetCommands, json_output: bool, snap: &SystemSnapshot) -> (r: Result<Report, PlatformError>)
    ensures
        report_result(r) == get_report(*command, json_output, *snap),
{
    match command {
        GetCommands::Port { port, verbose } => execute_get_port(*port, *verbose, json_output, snap),
        GetCommands::Pid { pid } => execute_get_pid(*pid, json_output, snap),
    }
}

/// The lines for the process that owns a socket, if it is known.
pub open spec fn owner_text(s: SocketView) -> Seq<char> {
    match s.pid {
        Some(p) => "PID: "@ + decimal(p as nat) + "\n"@ + match s.process_name {
            Some(n) => "Process: "@ + n + "\n"@,
            None => seq![],
        } + match s.command_line {
            Some(c) => "Command: "@ + c + "\n"@,
            None => seq![],
        },
        None => seq![],
    }
}

/// The line for a socket's remote address, if it has one.
pub open spec fn remote_text(s: SocketView) -> Seq<char> {
    match s.remote {
        Some(r) => "Remote Address: "@ + address_text(r) + "\n"@,
        None => seq![],
    }
}

fn push_labelled(text: &mut String, label: &str, value: &str)
    ensures
        final(text)@ == old(text)@ + (label@ + value@ + "\n"@),
{
    push_str(text, label);
    push_str(text, value);
    push_str(text, "\n");
    assert(final(text)@ =~= old(text)@ + (label@ + value@ + "\n"@));
}

fn push_owner(text: &mut String, s: &SocketInfo)
    ensures
        final(text)@ == old(text)@ + owner_text(s@),
{
    match s.pid {
        Some(p) => {
            let ghost start = text@;
            push_labelled(text, "PID: ", decimal_string(p as u64).as_str());
            match &s.process_name {
                Some(n) => push_labelled(text, "Process: ", n.as_str()),
                None => {},
            }
            match &s.command_line {
                Some(c) => push_labelled(text, "Command: ", c.as_str()),
                None => {},
            }
            assert(text@ =~= start + owner_text(s@));
        },
        None => {
            assert(text@ =~= old(text)@ + owner_text(s@));
        },
    }
}

fn push_socket_description(text: &mut String, s: &SocketInfo)
    ensures
        final(text)@ == old(text)@ + port_socket_text(s@),
{
    let ghost start = text@;
    let p = s.protocol.to_string();
    push_labelled(text, "Protocol: ", p.as_str());
    let ghost a = text@;
    let l = s.local_address.to_string();
    push_labelled(text, "Local Address: ", l.as_str());
    let ghost b = text@;
    match &s.remote_address {
        Some(r) => push_labelled(text, "Remote Address: ", r.to_string().as_str()),
        None => {},
    }
    let ghost c = text@;
    assert(c =~= b + remote_text(s@));
    let st = s.state.to_string();
    push_labelled(text, "State: ", st.as_str());
    let ghost d = text@;
    push_owner(text, s);
    let ghost e = text@;
    push_str(text, "\n");
    assert(text@ =~= start + port_socket_text(s@)) by {
        assert(a == start + ("Protocol: "@ + p@ + "\n"@));
        assert(b == a + ("Local Address: "@ + l@ + "\n"@));
        assert(d == c + ("State: "@ + st@ + "\n"@));
        assert(e == d + owner_text(s@));
        assert(text@ == e + "\n"@);
    }
}

fn execute_get_port(port: u16, verbose: bool, json_output: bool, snap: &SystemSnapshot) -> (r: Result<Report, PlatformError>)
    ensures
        report_result(r) == port_report(port, json_output, *snap),
{
    let filter = SocketFilter { protocols: None, listen_only: false, pid: None, port: Some(port) };
    let sockets = match get_sockets(&filter, snap) {
        Ok(s) => s,
        Err(e) => {
            return Err(e);
        },
    };
    if json_output {
        return Ok(Report::SocketsJson(sockets));
    }
    if sockets.len() == 0 {
        let mut text = "No sockets found using port ".to_string();
        push_decimal(&mut text, port as u64);
        push_str(&mut text, "\n");
        return Ok(Report::Text(text));
    }
    let mut text = "Sockets using port ".to_string();
    push_decimal(&mut text, port as u64);
    push_str(&mut text, ":\n\n");
    let ghost head = text@;
    let ghost views = socket_views(sockets@);
    let mut i: usize = 0;
    assert(views.take(0) =~= Seq::<SocketView>::empty());
    while i < sockets.len()
        invariant
            i <= sockets@.len(),
            views == socket_views(sockets@),
            text@ == head + port_sockets_text(views.take(i as int)),
        decreases sockets@.len() - i,
    {
        push_socket_description(&mut text, &sockets[i]);
        let ghost pre = views.take(i + 1);
        assert(pre.drop_last() =~= views.take(i as int));
        i = i + 1;
    }
    assert(views.take(sockets@.len() as int) =~= views);
    Ok(Report::Text(text))
}

fn execute_get_pid(pid: u32, json_output: bool, snap: &SystemSnapshot) -> (r: Result<Report, PlatformError>)
    ensures
        report_result(r) == pid_report(pid, json_output, *snap),
{
    let process = match get_process_info(pid, snap) {
        Ok(p) => p,
        Err(e) => {
            return Err(e);
        },
    };
    if json_output {
        Ok(Report::ProcessJson(process))
    } else {
        let mut text = format_process_table(&process);
        push_str(&mut text, "\n");
        Ok(Report::Text(text))
    }
}

} // verus!
