//! The result of a simulation, and how it is put together from what the host
//! and the dispatcher have gathered.

use crate::codec::{DecodeError, DecodeErrorView};
use crate::dispatch::{fault_view, line_views, DispatchOutcome, FaultView, OutcomeView};
use crate::symbols::{location_view, LocationView, SourceLocation};
use crate::text::{decimal, decimal_string, join};
use vstd::prelude::*;
use vstd::string::StringExecFns;

verus! {

/// Whether the simulation went through.
#[derive(Clone, Copy, Debug, PartialEq, Eq)]
pub enum Status {
    Success,
    Error,
}

impl Status {
    /// The status as it is written in a response.
    pub open spec fn text(self) -> Seq<char> {
        match self {
            Status::Success => "success"@,
            Status::Error => "error"@,
        }
    }

    /// The status as it is written in a response: `success` or `error`.
    pub fn as_str(&self) -> (s: &'static str)
        ensures
            s@ == self.text(),
    {
        match self {
            Status::Success => "success",
            Status::Error => "error",
        }
    }
}

/// The one value that a simulation answers with.
#[derive(Clone, Debug, PartialEq, Eq)]
pub struct SimulationResult {
    pub status: Status,
    /// The message, present exactly when the status is `Error`.
    pub error: Option<String>,
    /// The events that the host captured, in its order.
    pub events: Vec<String>,
    /// The log lines: host start, entry count, then the dispatcher's trace.
    pub logs: Vec<String>,
    /// Where the fault lies in the source, if that could be told.
    pub source_location: Option<SourceLocation>,
}

/// The mathematical value of a [`SimulationResult`].
pub struct ResultView {
    pub status: Status,
    pub error: Option<Seq<char>>,
    pub events: Seq<Seq<char>>,
    pub logs: Seq<Seq<char>>,
    pub source_location: Option<LocationView>,
}

/// The text of an optional string.
pub open spec fn text_view(s: Option<String>) -> Option<Seq<char>> {
    match s {
        Some(s) => Some(s@),
        None => None,
    }
}

impl View for SimulationResult {
    type V = ResultView;

    open spec fn view(&self) -> ResultView {
        ResultView {
            status: self.status,
            error: text_view(self.error),
            events: line_views(self.events@),
            logs: line_views(self.logs@),
            source_location: location_view(self.source_location),
        }
    }
}

impl ResultView {
    /// A result is a success without a message, or an error with one; only
    /// an error carries a source location.
    pub open spec fn is_consistent(self) -> bool {
        &&& self.status is Success <==> self.error is None
        &&& self.source_location is Some ==> self.status is Error
    }

    /// The error result with this message and location: no events, no logs.
    pub open spec fn failure(message: Seq<char>, location: Option<LocationView>) -> ResultView {
        ResultView {
            status: Status::Error,
            error: Some(message),
            events: Seq::empty(),
            logs: Seq::empty(),
            source_location: location,
        }
    }
}

/// The message of a fault that was found in the source.
pub open spec fn located_fault_message(location: LocationView) -> Seq<char> {
    "Contract execution failed. Failed at line "@ + decimal(location.line as nat) + " in "@
        + location.file
}

/// The message of a fault of which no source position is known.
pub open spec fn unlocated_fault_message() -> Seq<char> {
    "Contract execution failed."@
}

/// The message for a request that is no valid JSON document.
pub open spec fn invalid_request_message(detail: Seq<char>) -> Seq<char> {
    "Invalid JSON: "@ + detail
}

/// The line that stands for the events when the host could not hand them out.
pub open spec fn events_failure_line(detail: Seq<char>) -> Seq<char> {
    "Failed to retrieve events: "@ + detail
}

/// The two lines that open the log: the host's budget at its start, and the
/// number of ledger entries that were loaded.
pub open spec fn host_log_lines(budget: Seq<char>, loaded: nat) -> Seq<Seq<char>> {
    seq![
        "Host Initialized with Budget: "@ + budget,
        "Loaded "@ + decimal(loaded) + " Ledger Entries"@,
    ]
}

/// The events of a result: those of the host, or one line that says why
/// there are none.
pub open spec fn captured_events(host_events: Result<Seq<Seq<char>>, Seq<char>>) -> Seq<
    Seq<char>,
> {
    match host_events {
        Ok(events) => events,
        Err(detail) => seq![events_failure_line(detail)],
    }
}

/// The result for a fault.
pub open spec fn fault_result(fault: FaultView) -> ResultView {
    match fault.location {
        Some(location) => ResultView::failure(located_fault_message(location), Some(location)),
        None => ResultView::failure(unlocated_fault_message(), None),
    }
}

/// The result of a simulation: for a run without fault a success with the
/// captured events and all log lines, host lines first; for a fault the error
/// that names the source position where one is known.
pub open spec fn assemble_spec(
    host_events: Result<Seq<Seq<char>>, Seq<char>>,
    host_logs: Seq<Seq<char>>,
    outcome: OutcomeView,
) -> ResultView {
    match outcome.fault {
        Some(fault) => fault_result(fault),
        None => ResultView {
            status: Status::Success,
            error: None,
            events: captured_events(host_events),
            logs: host_logs + outcome.logs,
            source_location: None,
        },
    }
}

/// The value of what the host said of its events.
pub open spec fn host_events_view(host_events: Result<Vec<String>, String>) -> Result<
    Seq<Seq<char>>,
    Seq<char>,
> {
    match host_events {
        Ok(events) => Ok(line_views(events@)),
        Err(detail) => Err(detail@),
    }
}

/// The error result with `msg` as its message.
pub fn send_error(msg: String) -> (res: SimulationResult)
    ensures
        res@ == ResultView::failure(msg@, None),
        res@.is_consistent(),
{
    send_error_with_location(msg, None)
}

/// The error result with `msg` as its message and the source location of the
/// fault, where there is one.
pub fn send_error_with_location(msg: String, source_location: Option<SourceLocation>) -> (res:
    SimulationResult)
    ensures
        res@ == ResultView::failure(msg@, location_view(source_location)),
        res@.is_consistent(),
{
    let events: Vec<String> = Vec::new();
    let logs: Vec<String> = Vec::new();
    assert(line_views(events@) =~= Seq::<Seq<char>>::empty());
    SimulationResult { status: Status::Error, error: Some(msg), events, logs, source_location }
}

/// The result for a request that could not be read: `detail` is what the
/// parser said.
pub fn invalid_request(detail: &str) -> (res: SimulationResult)
    ensures
        res@ == ResultView::failure(invalid_request_message(detail@), None),
        res@.is_consistent(),
{
    send_error(join("Invalid JSON: ", detail))
}

/// The result for an artifact that could not be decoded.
pub fn decode_failure(error: &DecodeError) -> (res: SimulationResult)
    ensures
        res@ == decode_failure_result(error@),
        res@.is_consistent(),
{
    send_error(error.message())
}

/// The result for an artifact that could not be decoded: an error with the
/// decoder's message.
pub open spec fn decode_failure_result(error: DecodeErrorView) -> ResultView {
    ResultView::failure(error.message(), None)
}

/// The two lines that open the log.
pub fn host_logs(budget: &str, loaded: usize) -> (lines: Vec<String>)
    ensures
        line_views(lines@) == host_log_lines(budget@, loaded as nat),
{
    let first = join("Host Initialized with Budget: ", budget);
    let count = decimal_string(loaded as u64);
    let second = join("Loaded ", count.as_str()).concat(" Ledger Entries");
    let mut lines: Vec<String> = Vec::new();
    lines.push(first);
    lines.push(second);
    assert(line_views(lines@) =~= host_log_lines(budget@, loaded as nat));
    lines
}

/// The message of a fault at `location`.
pub fn fault_message(location: &SourceLocation) -> (message: String)
    ensures
        message@ == located_fault_message(location@),
{
    let line = decimal_string(location.line as u64);
    let head = join("Contract execution failed. Failed at line ", line.as_str());
    head.concat(" in ").concat(location.file.as_str())
}

/// Puts the result together from what the host said of its events, the
/// lines that open the log, and what the dispatcher gathered.
pub fn assemble(
    host_events: Result<Vec<String>, String>,
    host_logs: Vec<String>,
    outcome: DispatchOutcome,
) -> (res: SimulationResult)
    ensures
        res@ == assemble_spec(host_events_view(host_events), line_views(host_logs@), outcome@),
        res@.is_consistent(),
{
    match outcome.fault {
        Some(fault) => match fault.location {
            Some(location) => {
                let message = fault_message(&location);
                send_error_with_location(message, Some(location))
            },
            None => send_error(String::from_str("Contract execution failed.")),
        },
        None => {
            let events = match host_events {
                Ok(events) => events,
                Err(detail) => {
                    let mut events: Vec<String> = Vec::new();
                    events.push(join("Failed to retrieve events: ", detail.as_str()));
                    assert(line_views(events@) =~= seq![events_failure_line(detail@)]);
                    events
                },
            };
            let mut logs = host_logs;
            let mut trace = outcome.logs;
            let ghost head = line_views(logs@);
            let ghost tail = line_views(trace@);
            logs.append(&mut trace);
            assert(line_views(logs@) =~= head + tail);
            SimulationResult {
                status: Status::Success,
                error: None,
                events,
                logs,
                source_location: None,
            }
        },
    }
}

/// Every assembled result is a success without a message or an error with
/// one, and names a source location only for an error.
pub proof fn lemma_assembled_is_consistent(
    host_events: Result<Seq<Seq<char>>, Seq<char>>,
    host_logs: Seq<Seq<char>>,
    outcome: OutcomeView,
)
    ensures
        assemble_spec(host_events, host_logs, outcome).is_consistent(),
        assemble_spec(host_events, host_logs, outcome).status is Success <==> outcome.fault
            is None,
        assemble_spec(host_events, host_logs, outcome).source_location is Some <==> (
        outcome.fault matches Some(fault) && fault.location is Some),
{
}

} // verus!
