//! What a command produces for its caller to print.

use crate::model::types::{ProcessInfo, ProcessView, SocketInfo, SocketView, socket_views};
use crate::platform::common::{ErrorView, PlatformError};
use vstd::prelude::*;

verus! {

/// The output of a command.
pub enum Report {
    /// Text to print as it is (it ends with its own line break).
    Text(String),
    /// Sockets to print as a JSON array.
    SocketsJson(Vec<SocketInfo>),
    /// A process to print as a JSON object.
    ProcessJson(ProcessInfo),
}

/// The model of a [`Report`].
pub enum ReportView {
    Text(Seq<char>),
    SocketsJson(Seq<SocketView>),
    ProcessJson(ProcessView),
}

impl View for Report {
    type V = ReportView;

    open spec fn view(&self) -> ReportView {
        match self {
            Report::Text(t) => ReportView::Text(t@),
            Report::SocketsJson(s) => ReportView::SocketsJson(socket_views(s@)),
            Report::ProcessJson(p) => ReportView::ProcessJson(p@),
        }
    }
}

/// The view of a command's outcome.
pub open spec fn report_result(r: Result<Report, PlatformError>) -> Result<ReportView, ErrorView> {
    match r {
        Ok(x) => Ok(x@),
        Err(e) => Err(e@),
    }
}

} // verus!
