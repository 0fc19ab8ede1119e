//! What the simulation asks of the execution host besides running
//! invocations: a fresh host, its budget at the start, and the events it has
//! captured.
//!
//! The host is `soroban_env_host::Host`. Nothing it answers can be foretold
//! here, so the functions of this module say what they do with each answer,
//! not which answer comes.

use crate::dispatch::{DispatchOutcome, OutcomeView};
use crate::report::{
    assemble, assemble_spec, host_log_lines, host_logs, send_error, ResultView, SimulationResult,
};
use crate::text::join;
use soroban_env_host::{DiagnosticLevel, Host};
use vstd::prelude::*;

verus! {

/// The execution host, as a value that is handed through: nothing inside it
/// is looked at.
#[verifier::external_type_specification]
#[verifier::external_body]
pub struct ExHost(soroban_env_host::Host);

/// Wraps `Host::default`, which makes a host with empty storage.
#[verifier::external_body]
fn host_default() -> (host: Host) {
    Host::default()
}

/// Wraps `Host::set_diagnostic_level` with the level `Debug`; an error is
/// handed on as its `Debug` text.
#[verifier::external_body]
fn host_enable_diagnostics(host: &Host) -> (res: Result<(), String>) {
    host.set_diagnostic_level(DiagnosticLevel::Debug).map_err(|e| format!("{:?}", e))
}

/// Wraps `Host::get_events`; every event, and an error, is handed on as its
/// `Debug` text.
#[verifier::external_body]
fn host_events(host: &Host) -> (res: Result<Vec<String>, String>) {
    host.get_events().map(|events| events.0.iter().map(|e| format!("{:?}", e)).collect()).map_err(
        |e| format!("{:?}", e),
    )
}

/// Wraps `Host::budget_cloned`; the budget is handed on as its `Debug` text.
#[verifier::external_body]
fn host_budget(host: &Host) -> (budget: String) {
    format!("{:?}", host.budget_cloned())
}

/// The message of the error that is answered when no host could be set up.
pub open spec fn host_failure_message(detail: Seq<char>) -> Seq<char> {
    "Failed to initialize host: "@ + detail
}

/// `res` is the error that is answered when no host could be set up.
pub open spec fn is_host_failure(res: ResultView) -> bool {
    exists|detail: Seq<char>|
        res == #[trigger] ResultView::failure(host_failure_message(detail), None)
}

/// `res` is what `outcome` gives with some events and some budget of the
/// host, after `loaded` ledger entries.
pub open spec fn is_conclusion(res: ResultView, loaded: nat, outcome: OutcomeView) -> bool {
    exists|events: Result<Seq<Seq<char>>, Seq<char>>, budget: Seq<char>|
        res == #[trigger] assemble_spec(events, host_log_lines(budget, loaded), outcome)
}

/// What opening a host comes to, once the host has said whether it records
/// diagnostic events: the host where it does, else the reason it gave.
pub open spec fn host_when_enabled(host: Host, enabled: Result<(), String>) -> Result<
    Host,
    String,
> {
    match enabled {
        Ok(_) => Ok(host),
        Err(detail) => Err(detail),
    }
}

/// Hands out `host` where diagnostics were switched on, and the host's
/// reason where they were not.
pub fn host_once_enabled(host: Host, enabled: Result<(), String>) -> (res: Result<Host, String>)
    ensures
        res == host_when_enabled(host, enabled),
{
    match enabled {
        Ok(_) => Ok(host),
        Err(detail) => Err(detail),
    }
}

/// A fresh host that records diagnostic events, or the reason for which it
/// could not be set up. Which of the two comes is the host's matter: a host
/// is made, it is asked to record diagnostic events, and what it answers
/// decides by [`host_once_enabled`].
pub fn open_host() -> (res: Result<Host, String>) {
    let host = host_default();
    let enabled = host_enable_diagnostics(&host);
    host_once_enabled(host, enabled)
}

/// The result for a host that could not be set up.
pub fn host_failure(detail: &str) -> (res: SimulationResult)
    ensures
        res@ == ResultView::failure(host_failure_message(detail@), None),
        is_host_failure(res@),
        res@.is_consistent(),
{
    send_error(join("Failed to initialize host: ", detail))
}

/// Puts the result of a run together: asks the host for its events and its
/// budget and assembles them with what the dispatcher gathered. Whatever the
/// host answers, a fault gives the error for that fault, and a run without
/// fault a success whose log opens with the host's line and the entry count.
pub fn conclude(host: &Host, loaded: usize, outcome: DispatchOutcome) -> (res: SimulationResult)
    ensures
        is_conclusion(res@, loaded as nat, outcome@),
        res@.is_consistent(),
{
    let events = host_events(host);
    let budget = host_budget(host);
    let lines = host_logs(budget.as_str(), loaded);
    assemble(events, lines, outcome)
}

} // verus!
