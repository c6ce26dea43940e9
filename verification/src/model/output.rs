//! Output formatting.

use crate::model::types::{
    address_text, protocol_text, socket_views, state_text, ProcessInfo, ProcessView, SocketInfo,
    SocketView,
};
use crate::number::{decimal, decimal_string, push_decimal};
use crate::text::push_str;
use vstd::prelude::*;

verus! {

broadcast use vstd::string::group_string_axioms;

/// What `tabled` renders, in its `Style::sharp()` style, for a table whose
/// records (header first) are `records`.
pub uninterp spec fn sharp_table(records: Seq<Seq<Seq<char>>>) -> Seq<char>;

/// Renders `records` (the header row first) with `tabled`'s `Builder`,
/// `Style::sharp()` and `Display`.
/// The contract names the rendering; its layout is `tabled`'s and is not restated here.
#[verifier::external_body]
fn render_sharp_table(records: Vec<Vec<String>>) -> (t: String)
    ensures
        t@ == sharp_table(records.deep_view()),
{
    let mut table = tabled::builder::Builder::from(records).build();
    table.with(tabled::settings::Style::sharp());
    table.to_string()
}

/// The header row of the socket table.
pub open spec fn table_header() -> Seq<Seq<char>> {
    seq![
        "PROTOCOL"@,
        "LOCAL ADDRESS"@,
        "REMOTE ADDRESS"@,
        "STATE"@,
        "PID"@,
        "PROCESS NAME"@,
    ]
}

/// The table row of one socket; `-` stands for what is not known.
pub open spec fn socket_row(s: SocketView) -> Seq<Seq<char>> {
    seq![
        protocol_text(s.protocol),
        address_text(s.local),
        match s.remote {
            Some(r) => address_text(r),
            None => "-"@,
        },
        state_text(s.state),
        match s.pid {
            Some(p) => decimal(p as nat),
            None => "-"@,
        },
        match s.process_name {
            Some(n) => n,
            None => "-"@,
        },
    ]
}

/// The records of the socket table: the header, then one row per socket.
pub open spec fn table_records(s: Seq<SocketView>) -> Seq<Seq<Seq<char>>> {
    seq![table_header()] + Seq::new(s.len(), |i: int| socket_row(s[i]))
}

/// The text of the socket table.
pub open spec fn sockets_table_text(s: Seq<SocketView>) -> Seq<char> {
    if s.len() == 0 {
        "No sockets found."@
    } else {
        sharp_table(table_records(s))
    }
}

fn str_row(cells: &[&str]) -> (r: Vec<String>)
    ensures
        r.deep_view() =~= cells@.map_values(|c: &str| c@),
{
    let mut r: Vec<String> = Vec::new();
    let mut i: usize = 0;
    while i < cells.len()
        invariant
            i <= cells@.len(),
            r.deep_view() =~= cells@.take(i as int).map_values(|c: &str| c@),
        decreases cells@.len() - i,
    {
        r.push(cells[i].to_string());
        assert(cells@.take(i + 1).map_values(|c: &str| c@) =~= cells@.take(i as int).map_values(
            |c: &str| c@,
        ).push(cells@[i as int]@));
        i = i + 1;
    }
    assert(cells@.take(cells@.len() as int) =~= cells@);
    r
}

/// The table row of one socket.
fn socket_table_row(s: &SocketInfo) -> (r: Vec<String>)
    ensures
        r.deep_view() == socket_row(s@),
{
    let mut r: Vec<String> = Vec::new();
    r.push(s.protocol.to_string());
    r.push(s.local_address.to_string());
    r.push(
        match &s.remote_address {
            Some(a) => a.to_string(),
            None => "-".to_string(),
        },
    );
    r.push(s.state.to_string());
    r.push(
        match s.pid {
            Some(p) => decimal_string(p as u64),
            None => "-".to_string(),
        },
    );
    r.push(
        match &s.process_name {
            Some(n) => n.clone(),
            None => "-".to_string(),
        },
    );
    assert(r.deep_view() =~= socket_row(s@));
    r
}

/// Formats sockets as a table (or says that there are none).
pub fn format_sockets_table(sockets: &[SocketInfo]) -> (t: String)
    ensures
        t@ == sockets_table_text(socket_views(sockets@)),
{
    if sockets.len() == 0 {
        return "No sockets found.".to_string();
    }
    let header: [&str; 6] = [
        "PROTOCOL",
        "LOCAL ADDRESS",
        "REMOTE ADDRESS",
        "STATE",
        "PID",
        "PROCESS NAME",
    ];
    let mut records: Vec<Vec<String>> = Vec::new();
    let h = str_row(&header);
    assert(h.deep_view() =~= table_header());
    records.push(h);
    let ghost views = socket_views(sockets@);
    let mut i: usize = 0;
    while i < sockets.len()
        invariant
            i <= sockets@.len(),
            views == socket_views(sockets@),
            records.deep_view() =~= table_records(views.take(i as int)),
        decreases sockets@.len() - i,
    {
        let row = socket_table_row(&sockets[i]);
        records.push(row);
        assert(table_records(views.take(i + 1)) =~= table_records(views.take(i as int)).push(
            socket_row(views[i as int]),
        ));
        i = i + 1;
    }
    assert(views.take(sockets@.len() as int) =~= views);
    render_sharp_table(records)
}

/// The text of a process report.
pub open spec fn process_table_text(p: ProcessView) -> Seq<char> {
    "Process "@ + p.name + " (PID: "@ + decimal(p.pid as nat) + ")\nCommand: "@ + match p.command_line {
        Some(c) => c,
        None => "(unknown)"@,
    } + "\n\nOpen Sockets:\n"@ + sockets_table_text(p.sockets)
}

/// Formats a process and its sockets.
pub fn format_process_table(process: &ProcessInfo) -> (t: String)
    ensures
        t@ == process_table_text(process@),
{
    let mut s = String::new();
    push_str(&mut s, "Process ");
    push_str(&mut s, process.name.as_str());
    push_str(&mut s, " (PID: ");
    push_decimal(&mut s, process.pid as u64);
    push_str(&mut s, ")\nCommand: ");
    match &process.command_line {
        Some(c) => push_str(&mut s, c.as_str()),
        None => push_str(&mut s, "(unknown)"),
    }
    push_str(&mut s, "\n\nOpen Sockets:\n");
    let table = format_sockets_table(process.sockets.as_slice());
    push_str(&mut s, table.as_str());
    assert(s@ =~= process_table_text(process@));
    s
}

} // verus!
