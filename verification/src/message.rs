//! The wire envelopes of the aggregation protocol: a snapshot query, or one
//! event of a download process tagged with that process's id.

use vstd::prelude::*;

use crate::ProcessId;
use crate::ytdl_line::{LineModel, YtdlLine};

verus! {

/// What a download process reports: one parsed output line, or its exit
/// code once it has terminated.
#[derive(Debug, Clone, PartialEq, Eq)]
pub enum MessagePayload {
    YtdlLine(YtdlLine),
    ProcessExited(i32),
}

/// One report of a download process, tagged with the id that correlates all
/// of its reports.
#[derive(Debug, Clone, PartialEq, Eq)]
pub struct DownloadProcessMessage {
    pub pid: ProcessId,
    pub payload: MessagePayload,
}

/// An envelope received by the aggregator: a snapshot query, or a process
/// report.
#[derive(Debug, Clone, PartialEq, Eq)]
pub enum Message {
    QueryMessage,
    DownloadProcessMessage(DownloadProcessMessage),
}

/// The mathematical shape of a payload.
pub enum PayloadModel {
    Line(LineModel),
    Exited(i32),
}

/// The mathematical shape of a process report.
pub struct ProcessMessageModel {
    pub pid: ProcessId,
    pub payload: PayloadModel,
}

/// The mathematical shape of an envelope.
pub enum MessageModel {
    Query,
    Process(ProcessMessageModel),
}

impl View for MessagePayload {
    type V = PayloadModel;

    open spec fn view(&self) -> PayloadModel {
        match self {
            MessagePayload::YtdlLine(line) => PayloadModel::Line(line@),
            MessagePayload::ProcessExited(code) => PayloadModel::Exited(*code),
        }
    }
}

impl View for DownloadProcessMessage {
    type V = ProcessMessageModel;

    open spec fn view(&self) -> ProcessMessageModel {
        ProcessMessageModel { pid: self.pid, payload: self.payload@ }
    }
}

impl View for Message {
    type V = MessageModel;

    open spec fn view(&self) -> MessageModel {
        match self {
            Message::QueryMessage => MessageModel::Query,
            Message::DownloadProcessMessage(m) => MessageModel::Process(m@),
        }
    }
}

/// Turns one output line of a download process into the envelope to forward
/// to the aggregator, tagged with that process's id.  A line the grammar
/// rejects yields nothing: it is dropped at this boundary and never
/// forwarded.
pub fn line_to_message(pid: crate::ProcessId, line: &str) -> (r: Option<Message>)
    ensures
        match r {
            Some(m) => m@ == (MessageModel::Process(
                ProcessMessageModel {
                    pid,
                    payload: PayloadModel::Line(crate::ytdl_line::spec_parse(line@)->Ok_0),
                },
            )) && crate::ytdl_line::spec_parse(line@) is Ok,
            None => crate::ytdl_line::spec_parse(line@) is Err,
        },
{
    match crate::ytdl_line::parse(line) {
        Ok(event) => Some(
            Message::DownloadProcessMessage(
                DownloadProcessMessage { pid, payload: MessagePayload::YtdlLine(event) },
            ),
        ),
        Err(_) => None,
    }
}

/// The final envelope of a download process: its exit code, tagged with its
/// id.
pub fn exit_message(pid: crate::ProcessId, code: i32) -> (r: Message)
    ensures
        r@ == (MessageModel::Process(
            ProcessMessageModel { pid, payload: PayloadModel::Exited(code) },
        )),
{
    Message::DownloadProcessMessage(
        DownloadProcessMessage { pid, payload: MessagePayload::ProcessExited(code) },
    )
}

} // verus!
