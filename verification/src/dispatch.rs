//! The operation dispatcher: walks the operations of an envelope in order,
//! hands every contract invocation to the execution host, and keeps the trace.
//!
//! The host is not called from here. The dispatcher says which invocation is
//! due and hands it out with the snapshot ([`Dispatcher::next`]), the caller
//! runs it on the host and reports how it went ([`Dispatcher::report`]);
//! [`dispatch`] plays a whole run from a list of such reports. A fault stops
//! the run at once where debug symbols are at hand; without them the run goes
//! on and the first fault is kept.

use crate::envelope::{
    operation_views, ContractInvocation, InvocationView, Operation, OperationView,
    TransactionEnvelope,
};
use crate::snapshot::Snapshot;
use crate::symbols::{
    location_view, resolve_spec, DebugSymbolTable, LocationView, RangeView, SourceLocation,
};
use crate::text::{decimal, decimal_string, join};
use vstd::prelude::*;
use vstd::string::StringExecFns;

verus! {

/// How the host says an invocation went.
#[derive(Clone, Copy, Debug, PartialEq, Eq)]
pub enum HostReport {
    /// The invocation ran to its end.
    Completed,
    /// The invocation failed, at this code offset where the host can tell.
    Fault { offset: Option<u64> },
}

/// The fault that ended or marked a run.
#[derive(Clone, Debug, PartialEq, Eq)]
pub struct Fault {
    /// Where the host says the failure happened.
    pub offset: Option<u64>,
    /// The source position of that offset, where the symbols give one.
    pub location: Option<SourceLocation>,
}

/// The mathematical value of a [`Fault`].
pub struct FaultView {
    pub offset: Option<u64>,
    pub location: Option<LocationView>,
}

impl View for Fault {
    type V = FaultView;

    open spec fn view(&self) -> FaultView {
        FaultView { offset: self.offset, location: location_view(self.location) }
    }
}

/// The value of an optional fault.
pub open spec fn fault_view(fault: Option<Fault>) -> Option<FaultView> {
    match fault {
        Some(f) => Some(f@),
        None => None,
    }
}

/// The texts of a sequence of lines, one for one.
pub open spec fn line_views(lines: Seq<String>) -> Seq<Seq<char>> {
    lines.map_values(|line: String| line@)
}

/// What a run leaves behind.
#[derive(Clone, Debug, PartialEq, Eq)]
pub struct DispatchOutcome {
    /// The trace lines, in the order of the operations.
    pub logs: Vec<String>,
    /// How many invocations were handed to the host.
    pub invoked: usize,
    /// How many operations were passed over because they invoke no contract.
    pub skipped: usize,
    /// The first fault that the host reported, if any.
    pub fault: Option<Fault>,
}

/// The mathematical value of a [`DispatchOutcome`].
pub struct OutcomeView {
    pub logs: Seq<Seq<char>>,
    pub invoked: nat,
    pub skipped: nat,
    pub fault: Option<FaultView>,
}

impl View for DispatchOutcome {
    type V = OutcomeView;

    open spec fn view(&self) -> OutcomeView {
        OutcomeView {
            logs: line_views(self.logs@),
            invoked: self.invoked as nat,
            skipped: self.skipped as nat,
            fault: fault_view(self.fault),
        }
    }
}

// ---------------------------------------------------------------------------
// What a run is
// ---------------------------------------------------------------------------

/// The three trace lines of a contract invocation.
pub open spec fn invocation_lines(call: InvocationView) -> Seq<Seq<char>> {
    seq![
        "About to Invoke Contract: "@ + call.contract_address,
        "Function: "@ + call.function_name,
        "Args Count: "@ + decimal(call.args.len()),
    ]
}

/// The trace lines that an operation leaves.
pub open spec fn operation_lines(op: OperationView) -> Seq<Seq<char>> {
    match op {
        OperationView::InvokeContract(call) => invocation_lines(call),
        OperationView::OtherHostFunction => seq!["Skipping non-InvokeContract Host Function"@],
        OperationView::Other => Seq::empty(),
    }
}

/// The source position of a fault offset, where there is an offset and the
/// table resolves it.
pub open spec fn locate(table: Seq<RangeView>, offset: Option<u64>) -> Option<LocationView> {
    match offset {
        Some(o) => resolve_spec(table, o),
        None => None,
    }
}

/// The state of a run: the operations, how far the run has come, and what it
/// has gathered.
pub struct DispatchView {
    pub operations: Seq<OperationView>,
    /// The index of the operation that is due.
    pub position: int,
    pub logs: Seq<Seq<char>>,
    pub invoked: nat,
    pub skipped: nat,
    pub fault: Option<FaultView>,
    /// A fault with symbols at hand has ended the run.
    pub halted: bool,
}

impl DispatchView {
    /// The state before the first operation.
    pub open spec fn start(operations: Seq<OperationView>) -> DispatchView {
        DispatchView {
            operations,
            position: 0,
            logs: Seq::empty(),
            invoked: 0,
            skipped: 0,
            fault: None,
            halted: false,
        }
    }

    /// Nothing is left to do: the run was halted or is through.
    pub open spec fn is_over(self) -> bool {
        self.halted || self.position < 0 || self.position >= self.operations.len()
    }

    /// An invocation is due.
    pub open spec fn invocation_due(self) -> bool {
        !self.is_over() && self.operations[self.position] is InvokeContract
    }

    /// The state after the operation that was due, `report` being what the
    /// host said if that operation is an invocation. The trace lines of the
    /// operation are added in any case. A fault is kept if it is the first,
    /// and halts the run if the table holds symbols.
    pub open spec fn after_operation(
        self,
        report: HostReport,
        table: Seq<RangeView>,
    ) -> DispatchView {
        match self.operations[self.position] {
            OperationView::InvokeContract(call) => {
                let first_fault = report is Fault && self.fault is None;
                DispatchView {
                    position: self.position + 1,
                    logs: self.logs + invocation_lines(call),
                    invoked: self.invoked + 1,
                    fault: if first_fault {
                        Some(
                            FaultView {
                                offset: report->offset,
                                location: locate(table, report->offset),
                            },
                        )
                    } else {
                        self.fault
                    },
                    halted: first_fault && table.len() > 0,
                    ..self
                }
            },
            op => DispatchView {
                position: self.position + 1,
                logs: self.logs + operation_lines(op),
                skipped: self.skipped + 1,
                ..self
            },
        }
    }

    /// The state after the host's report: that after the invocation that was
    /// due, or the same state where none was.
    pub open spec fn after_report(self, report: HostReport, table: Seq<RangeView>) -> DispatchView {
        if self.invocation_due() {
            self.after_operation(report, table)
        } else {
            self
        }
    }

    /// The state once the operations that invoke no contract have been
    /// passed over, up to the next invocation or the end.
    pub open spec fn to_next_invocation(self) -> DispatchView
        decreases self.operations.len() - self.position,
    {
        if self.is_over() || self.invocation_due() {
            self
        } else {
            self.after_operation(HostReport::Completed, Seq::empty()).to_next_invocation()
        }
    }

    /// The state at the end of the run when the host answers the invocations
    /// with `reports`, in order; an invocation for which no report is left
    /// counts as completed.
    pub open spec fn run(self, reports: Seq<HostReport>, table: Seq<RangeView>) -> DispatchView
        decreases self.operations.len() - self.position,
    {
        if self.is_over() {
            self
        } else if !self.invocation_due() {
            self.after_operation(HostReport::Completed, table).run(reports, table)
        } else if reports.len() == 0 {
            self.after_operation(HostReport::Completed, table).run(reports, table)
        } else {
            self.after_operation(reports[0], table).run(reports.drop_first(), table)
        }
    }

    /// What the run has gathered.
    pub open spec fn outcome(self) -> OutcomeView {
        OutcomeView {
            logs: self.logs,
            invoked: self.invoked,
            skipped: self.skipped,
            fault: self.fault,
        }
    }
}

/// What dispatching `operations` gives when the host answers with `reports`.
pub open spec fn dispatch_spec(
    operations: Seq<OperationView>,
    reports: Seq<HostReport>,
    table: Seq<RangeView>,
) -> OutcomeView {
    DispatchView::start(operations).run(reports, table).outcome()
}

// ---------------------------------------------------------------------------
// The dispatcher
// ---------------------------------------------------------------------------

/// What the caller is to do next.
#[derive(Debug)]
pub enum Action<'a> {
    /// Run this invocation on the host, against this snapshot, and report
    /// how it went.
    Invoke { invocation: &'a ContractInvocation, snapshot: &'a Snapshot },
    /// Nothing is left: take the outcome.
    Finish,
}

/// `action` is what is due in `state`: the invocation at its position
/// together with the snapshot `ledger`, or nothing where the run is over.
pub open spec fn action_matches(
    action: Action<'_>,
    state: DispatchView,
    ledger: Map<Seq<u8>, Seq<u8>>,
) -> bool {
    match action {
        Action::Invoke { invocation, snapshot } => state.invocation_due()
            && state.operations[state.position] == OperationView::InvokeContract(invocation@)
            && snapshot@ == ledger,
        Action::Finish => state.is_over(),
    }
}

/// A run in progress.
pub struct Dispatcher<'a> {
    operations: &'a Vec<Operation>,
    snapshot: &'a Snapshot,
    table: &'a DebugSymbolTable,
    position: usize,
    logs: Vec<String>,
    invoked: usize,
    skipped: usize,
    fault: Option<Fault>,
    halted: bool,
}

impl<'a> View for Dispatcher<'a> {
    type V = DispatchView;

    closed spec fn view(&self) -> DispatchView {
        DispatchView {
            operations: operation_views(self.operations@),
            position: self.position as int,
            logs: line_views(self.logs@),
            invoked: self.invoked as nat,
            skipped: self.skipped as nat,
            fault: fault_view(self.fault),
            halted: self.halted,
        }
    }
}

fn push_invocation_lines(logs: &mut Vec<String>, call: &ContractInvocation)
    ensures
        line_views(final(logs)@) == line_views(old(logs)@) + invocation_lines(call@),
{
    let ghost before = line_views(logs@);
    let address = join("About to Invoke Contract: ", call.contract_address.as_str());
    let function = join("Function: ", call.function_name.as_str());
    let count = decimal_string(call.args.len() as u64);
    let arity = join("Args Count: ", count.as_str());
    logs.push(address);
    logs.push(function);
    logs.push(arity);
    assert(call@.args.len() == call.args@.len());
    assert(line_views(logs@) =~= before + invocation_lines(call@));
}

impl<'a> Dispatcher<'a> {
    /// The run has not gone past its operations, and has counted no more of
    /// them than it has seen.
    pub closed spec fn wf(&self) -> bool {
        self.position <= self.operations@.len() && self.invoked + self.skipped <= self.position
    }

    /// The snapshot that goes to the host with every invocation.
    pub closed spec fn ledger(&self) -> Map<Seq<u8>, Seq<u8>> {
        self.snapshot@
    }

    /// The symbol table that faults are located with.
    pub closed spec fn symbols(&self) -> Seq<RangeView> {
        self.table@
    }

    /// A run of the operations of `envelope` against `snapshot`, before the
    /// first operation. Faults will be located with `table`.
    pub fn new(
        envelope: &'a TransactionEnvelope,
        snapshot: &'a Snapshot,
        table: &'a DebugSymbolTable,
    ) -> (dispatcher: Dispatcher<'a>)
        ensures
            dispatcher.wf(),
            dispatcher@ == DispatchView::start(envelope@.operations),
            dispatcher.ledger() == snapshot@,
            dispatcher.symbols() == table@,
    {
        let logs: Vec<String> = Vec::new();
        assert(line_views(logs@) =~= Seq::<Seq<char>>::empty());
        Dispatcher {
            operations: envelope.operations(),
            snapshot,
            table,
            position: 0,
            logs,
            invoked: 0,
            skipped: 0,
            fault: None,
            halted: false,
        }
    }

    /// Passes over the operations that invoke no contract and says what is
    /// due: the next invocation, or nothing. Asking again without a report in
    /// between gives the same answer.
    pub fn next(&mut self) -> (action: Action<'a>)
        requires
            old(self).wf(),
        ensures
            final(self).wf(),
            final(self)@ == old(self)@.to_next_invocation(),
            final(self).ledger() == old(self).ledger(),
            final(self).symbols() == old(self).symbols(),
            action_matches(action, final(self)@, final(self).ledger()),
    {
        let ghost goal = self@.to_next_invocation();
        let operations: &'a Vec<Operation> = self.operations;
        while !self.halted && self.position < operations.len()
            invariant
                operations == self.operations,
                self.position <= operations@.len(),
                self.invoked + self.skipped <= self.position,
                self@.to_next_invocation() == goal,
                goal == old(self)@.to_next_invocation(),
                self.snapshot == old(self).snapshot,
                self.table == old(self).table,
            decreases operations@.len() - self.position,
        {
            let ghost before = self@;
            assert(before.operations[before.position] == operations@[self.position as int]@);
            match &operations[self.position] {
                Operation::InvokeContract(call) => {
                    assert(before.operations[before.position] == OperationView::InvokeContract(
                        call@,
                    ));
                    assert(before.invocation_due());
                    assert(before.to_next_invocation() == before);
                    assert(self@ == before);
                    return Action::Invoke { invocation: call, snapshot: self.snapshot };
                },
                Operation::OtherHostFunction => {
                    let line = String::from_str("Skipping non-InvokeContract Host Function");
                    assert(line_views(self.logs@.push(line)) =~= line_views(self.logs@)
                        + operation_lines(OperationView::OtherHostFunction));
                    self.logs.push(line);
                },
                Operation::Other => {
                    assert(line_views(self.logs@) + operation_lines(OperationView::Other)
                        =~= line_views(self.logs@));
                },
            }
            self.position = self.position + 1;
            self.skipped = self.skipped + 1;
            assert(self@ == before.after_operation(HostReport::Completed, Seq::empty()));
        }
        Action::Finish
    }

    /// Takes the host's word on the invocation that is due: its trace lines
    /// are written, and a first fault is kept, located through the symbol
    /// table, and halts the run if the table holds symbols. Where no
    /// invocation is due, nothing changes.
    pub fn report(&mut self, report: HostReport)
        requires
            old(self).wf(),
        ensures
            final(self).wf(),
            final(self)@ == old(self)@.after_report(report, old(self).symbols()),
            final(self).ledger() == old(self).ledger(),
            final(self).symbols() == old(self).symbols(),
    {
        if self.halted || self.position >= self.operations.len() {
            return ;
        }
        let ghost before = self@;
        let operations: &'a Vec<Operation> = self.operations;
        let table: &'a DebugSymbolTable = self.table;
        assert(before.operations[before.position] == operations@[self.position as int]@);
        let call = match &operations[self.position] {
            Operation::InvokeContract(call) => call,
            _ => {
                return ;
            },
        };
        push_invocation_lines(&mut self.logs, call);
        self.position = self.position + 1;
        self.invoked = self.invoked + 1;
        if let HostReport::Fault { offset } = report {
            if self.fault.is_none() {
                let location = match offset {
                    Some(o) => table.resolve(o),
                    None => None,
                };
                self.fault = Some(Fault { offset, location });
                self.halted = table.has_debug_symbols();
            }
        }
        assert(self@ == before.after_operation(report, table@));
    }

    /// Whether the run is over.
    pub fn is_over(&self) -> (over: bool)
        requires
            self.wf(),
        ensures
            over == self@.is_over(),
    {
        self.halted || self.position >= self.operations.len()
    }

    /// What the run has gathered so far.
    pub fn finish(self) -> (outcome: DispatchOutcome)
        ensures
            outcome@ == self@.outcome(),
    {
        DispatchOutcome {
            logs: self.logs,
            invoked: self.invoked,
            skipped: self.skipped,
            fault: self.fault,
        }
    }
}

/// Passing over operations changes neither the operations nor where the run
/// ends, and never steps back.
pub proof fn lemma_to_next_invocation(
    s: DispatchView,
    reports: Seq<HostReport>,
    table: Seq<RangeView>,
)
    requires
        0 <= s.position,
    ensures
        s.to_next_invocation().operations == s.operations,
        s.to_next_invocation().position >= s.position,
        s.to_next_invocation().is_over() || s.to_next_invocation().invocation_due(),
        s.to_next_invocation().run(reports, table) == s.run(reports, table),
    decreases s.operations.len() - s.position,
{
    if !(s.is_over() || s.invocation_due()) {
        let next = s.after_operation(HostReport::Completed, Seq::empty());
        assert(next == s.after_operation(HostReport::Completed, table));
        lemma_to_next_invocation(next, reports, table);
    }
}

/// Plays a whole run: the operations of `envelope` in order against
/// `snapshot`, the host answering the invocations with `reports`, one after
/// the other. An invocation for which no report is left counts as completed.
pub fn dispatch(
    envelope: &TransactionEnvelope,
    snapshot: &Snapshot,
    table: &DebugSymbolTable,
    reports: &Vec<HostReport>,
) -> (outcome: DispatchOutcome)
    ensures
        outcome@ == dispatch_spec(envelope@.operations, reports@, table@),
{
    let ghost goal = DispatchView::start(envelope@.operations).run(reports@, table@);
    let mut dispatcher = Dispatcher::new(envelope, snapshot, table);
    let mut used: usize = 0;
    let mut over = false;
    assert(reports@.skip(0) =~= reports@);
    while !over
        invariant
            dispatcher.wf(),
            dispatcher.symbols() == table@,
            used <= reports.len(),
            0 <= dispatcher@.position <= dispatcher@.operations.len(),
            dispatcher@.run(reports@.skip(used as int), table@) == goal,
            over ==> dispatcher@.is_over(),
        decreases
                dispatcher@.operations.len() - dispatcher@.position + if over {
                    0int
                } else {
                    1int
                },
    {
        let ghost before = dispatcher@;
        proof {
            lemma_to_next_invocation(before, reports@.skip(used as int), table@);
        }
        match dispatcher.next() {
            Action::Finish => {
                over = true;
            },
            Action::Invoke { .. } => {
                let ghost due = dispatcher@;
                let ghost left = reports@.skip(used as int);
                let report = if used < reports.len() {
                    let report = reports[used];
                    assert(left[0] == report);
                    assert(left.drop_first() =~= reports@.skip(used + 1));
                    used = used + 1;
                    report
                } else {
                    assert(left.len() == 0);
                    HostReport::Completed
                };
                dispatcher.report(report);
                assert(due.run(left, table@) == dispatcher@.run(
                    reports@.skip(used as int),
                    table@,
                ));
            },
        }
    }
    dispatcher.finish()
}

// ---------------------------------------------------------------------------
// What holds of every run
// ---------------------------------------------------------------------------

/// The trace lines of `operations`, in their order.
pub open spec fn all_lines(operations: Seq<OperationView>) -> Seq<Seq<char>>
    decreases operations.len(),
{
    if operations.len() == 0 {
        Seq::empty()
    } else {
        all_lines(operations.drop_last()) + operation_lines(operations.last())
    }
}

/// The state tells the truth about the operations behind it: the trace holds
/// their lines in order, every one of them was counted once, and a halted
/// run has its fault.
pub open spec fn consistent(s: DispatchView) -> bool {
    &&& 0 <= s.position <= s.operations.len()
    &&& s.logs == all_lines(s.operations.take(s.position))
    &&& s.invoked + s.skipped == s.position
    &&& s.halted ==> s.fault is Some
}

proof fn lemma_after_operation_consistent(
    s: DispatchView,
    report: HostReport,
    table: Seq<RangeView>,
)
    requires
        consistent(s),
        !s.is_over(),
    ensures
        consistent(s.after_operation(report, table)),
        s.after_operation(report, table).operations == s.operations,
        s.after_operation(report, table).position == s.position + 1,
{
    let next = s.after_operation(report, table);
    let done = s.operations.take(s.position + 1);
    assert(done.drop_last() =~= s.operations.take(s.position));
    assert(done.last() == s.operations[s.position]);
}

/// Whatever the host reports, a run ends with the trace lines of exactly the
/// operations it went through, in their order, each counted once as invoked
/// or skipped. It goes through all of them unless a fault halts it, and it
/// halts exactly when a fault was reported while symbols were at hand.
pub proof fn lemma_run(s: DispatchView, reports: Seq<HostReport>, table: Seq<RangeView>)
    requires
        consistent(s),
    ensures
        consistent(s.run(reports, table)),
        s.run(reports, table).is_over(),
        s.run(reports, table).operations == s.operations,
        s.run(reports, table).position >= s.position,
        !s.run(reports, table).halted ==> s.run(reports, table).position == s.operations.len(),
        s.fault is None ==> (s.run(reports, table).halted <==> s.run(reports, table).fault is Some
            && table.len() > 0),
    decreases s.operations.len() - s.position,
{
    if !s.is_over() {
        let report = if s.invocation_due() && reports.len() > 0 {
            reports[0]
        } else {
            HostReport::Completed
        };
        let rest = if s.invocation_due() && reports.len() > 0 {
            reports.drop_first()
        } else {
            reports
        };
        let next = s.after_operation(report, table);
        lemma_after_operation_consistent(s, report, table);
        assert(s.run(reports, table) == next.run(rest, table));
        lemma_run(next, rest, table);
        if next.fault is Some && s.fault is None {
            lemma_fault_is_kept(next, rest, table);
        }
    }
}

/// Once a fault is kept, the rest of the run leaves it as it is: one fault
/// per run, the first.
pub proof fn lemma_fault_is_kept(s: DispatchView, reports: Seq<HostReport>, table: Seq<RangeView>)
    requires
        consistent(s),
        s.fault is Some,
    ensures
        s.run(reports, table).fault == s.fault,
        s.run(reports, table).halted == s.halted,
    decreases s.operations.len() - s.position,
{
    if !s.is_over() {
        let report = if s.invocation_due() && reports.len() > 0 {
            reports[0]
        } else {
            HostReport::Completed
        };
        let rest = if s.invocation_due() && reports.len() > 0 {
            reports.drop_first()
        } else {
            reports
        };
        let next = s.after_operation(report, table);
        lemma_after_operation_consistent(s, report, table);
        assert(s.run(reports, table) == next.run(rest, table));
        lemma_fault_is_kept(next, rest, table);
    }
}

/// Fail fast: with symbols at hand, the first fault ends the run on the
/// spot. The faulting invocation still leaves its trace lines; no operation
/// behind it is looked at.
pub proof fn lemma_fault_halts_run(s: DispatchView, reports: Seq<HostReport>, table: Seq<RangeView>)
    requires
        s.invocation_due(),
        s.fault is None,
        table.len() > 0,
        reports.len() > 0,
        reports[0] is Fault,
    ensures
        s.run(reports, table) == s.after_operation(reports[0], table),
        s.run(reports, table).position == s.position + 1,
        s.run(reports, table).fault == Some(
            FaultView {
                offset: reports[0]->offset,
                location: locate(table, reports[0]->offset),
            },
        ),
{
    let next = s.after_operation(reports[0], table);
    assert(next.halted);
    assert(next.run(reports.drop_first(), table) == next);
}

/// Without symbols a fault does not end the run: every operation is gone
/// through, in order, whatever the host reports.
pub proof fn lemma_run_without_symbols(operations: Seq<OperationView>, reports: Seq<HostReport>)
    ensures
        dispatch_spec(operations, reports, Seq::empty()).logs == all_lines(operations),
        dispatch_spec(operations, reports, Seq::empty()).invoked + dispatch_spec(
            operations,
            reports,
            Seq::empty(),
        ).skipped == operations.len(),
{
    let start = DispatchView::start(operations);
    assert(operations.take(0) =~= Seq::<OperationView>::empty());
    lemma_run(start, reports, Seq::empty());
    let end = start.run(reports, Seq::empty());
    assert(operations.take(end.position) =~= operations);
}

/// A run in which the host reports no fault goes through every operation, in
/// submission order, and leaves the trace lines of all of them.
pub proof fn lemma_clean_run(operations: Seq<OperationView>, table: Seq<RangeView>)
    ensures
        dispatch_spec(operations, Seq::empty(), table).logs == all_lines(operations),
        dispatch_spec(operations, Seq::empty(), table).fault is None,
        dispatch_spec(operations, Seq::empty(), table).invoked + dispatch_spec(
            operations,
            Seq::empty(),
            table,
        ).skipped == operations.len(),
{
    let start = DispatchView::start(operations);
    assert(operations.take(0) =~= Seq::<OperationView>::empty());
    lemma_run(start, Seq::empty(), table);
    lemma_no_report_no_fault(start, table);
    let end = start.run(Seq::empty(), table);
    assert(operations.take(end.position) =~= operations);
}

proof fn lemma_no_report_no_fault(s: DispatchView, table: Seq<RangeView>)
    requires
        consistent(s),
        s.fault is None,
    ensures
        s.run(Seq::empty(), table).fault is None,
    decreases s.operations.len() - s.position,
{
    if !s.is_over() {
        let next = s.after_operation(HostReport::Completed, table);
        lemma_after_operation_consistent(s, HostReport::Completed, table);
        lemma_no_report_no_fault(next, table);
    }
}

} // verus!
