use simulator::dispatch::{dispatch, Action, DispatchOutcome, Dispatcher, Fault, HostReport};
use simulator::envelope::{ContractInvocation, EnvelopeKind, Operation, TransactionEnvelope};
use simulator::snapshot::Snapshot;
use simulator::symbols::{DebugSymbolTable, SourceLocation, SymbolRange};

fn call(name: &str, args: usize) -> Operation {
    Operation::InvokeContract(ContractInvocation {
        contract_address: format!("contract-of-{}", name),
        function_name: name.to_string(),
        args: (0..args).map(|i| format!("arg{}", i)).collect(),
    })
}

fn lines_of(name: &str, args: usize) -> Vec<String> {
    vec![
        format!("About to Invoke Contract: contract-of-{}", name),
        format!("Function: {}", name),
        format!("Args Count: {}", args),
    ]
}

fn envelope_of(ops: Vec<Operation>) -> TransactionEnvelope {
    TransactionEnvelope::new(EnvelopeKind::Signed, ops)
}

fn symbols() -> DebugSymbolTable {
    DebugSymbolTable::from_ranges(&vec![SymbolRange {
        start_offset: 0x1000,
        end_offset: Some(0x2000),
        file: "lib.rs".to_string(),
        line: 42,
        column: None,
    }])
}

fn lib_rs_42() -> SourceLocation {
    SourceLocation { file: "lib.rs".to_string(), line: 42, column: None }
}

const SKIP: &str = "Skipping non-InvokeContract Host Function";

#[test]
fn no_operations_no_trace() {
    let outcome = dispatch(&envelope_of(vec![]), &Snapshot::new(), &DebugSymbolTable::empty(), &vec![]);
    assert_eq!(
        outcome,
        DispatchOutcome { logs: vec![], invoked: 0, skipped: 0, fault: None }
    );
}

#[test]
fn invocation_leaves_three_trace_lines() {
    let outcome = dispatch(
        &envelope_of(vec![call("transfer", 3)]), &Snapshot::new(),
        &DebugSymbolTable::empty(),
        &vec![HostReport::Completed],
    );
    assert_eq!(
        outcome.logs,
        vec![
            "About to Invoke Contract: contract-of-transfer".to_string(),
            "Function: transfer".to_string(),
            "Args Count: 3".to_string(),
        ]
    );
    assert_eq!(outcome.invoked, 1);
    assert_eq!(outcome.skipped, 0);
    assert_eq!(outcome.fault, None);
}

#[test]
fn argument_counts_are_written_in_decimal() {
    for n in [0usize, 1, 9, 10, 11, 99, 100, 123] {
        let outcome =
            dispatch(&envelope_of(vec![call("f", n)]), &Snapshot::new(), &DebugSymbolTable::empty(), &vec![]);
        assert_eq!(outcome.logs[2], format!("Args Count: {}", n));
    }
}

#[test]
fn trace_keeps_submission_order() {
    let ops = vec![
        call("a", 0),
        Operation::Other,
        Operation::OtherHostFunction,
        call("b", 2),
        Operation::OtherHostFunction,
    ];
    let outcome = dispatch(&envelope_of(ops), &Snapshot::new(), &symbols(), &vec![]);
    let mut expected = lines_of("a", 0);
    expected.push(SKIP.to_string());
    expected.extend(lines_of("b", 2));
    expected.push(SKIP.to_string());
    assert_eq!(outcome.logs, expected);
    assert_eq!(outcome.invoked, 2);
    assert_eq!(outcome.skipped, 3);
    assert_eq!(outcome.fault, None);
}

#[test]
fn other_operations_are_skipped_not_failed() {
    let ops = vec![Operation::Other, Operation::Other, Operation::OtherHostFunction];
    let reports = vec![HostReport::Fault { offset: Some(1) }];
    // no invocation, so the report is never asked for
    let outcome = dispatch(&envelope_of(ops), &Snapshot::new(), &symbols(), &reports);
    assert_eq!(outcome.logs, vec![SKIP.to_string()]);
    assert_eq!(outcome.skipped, 3);
    assert_eq!(outcome.invoked, 0);
    assert_eq!(outcome.fault, None);
}

#[test]
fn fault_with_symbols_halts_the_run() {
    let ops = vec![call("a", 1), call("b", 1), call("c", 1)];
    let reports = vec![
        HostReport::Completed,
        HostReport::Fault { offset: Some(0x1234) },
        HostReport::Fault { offset: Some(0x1) },
    ];
    let outcome = dispatch(&envelope_of(ops), &Snapshot::new(), &symbols(), &reports);
    let mut expected = lines_of("a", 1);
    expected.extend(lines_of("b", 1));
    assert_eq!(outcome.logs, expected);
    assert_eq!(outcome.invoked, 2);
    assert_eq!(
        outcome.fault,
        Some(Fault { offset: Some(0x1234), location: Some(lib_rs_42()) })
    );
}

#[test]
fn fault_outside_all_ranges_still_halts_with_symbols() {
    let ops = vec![call("a", 0), call("b", 0)];
    let reports = vec![HostReport::Fault { offset: Some(0x9999) }];
    let outcome = dispatch(&envelope_of(ops), &Snapshot::new(), &symbols(), &reports);
    assert_eq!(outcome.logs, lines_of("a", 0));
    assert_eq!(outcome.fault, Some(Fault { offset: Some(0x9999), location: None }));
}

#[test]
fn fault_without_offset_has_no_location() {
    let ops = vec![call("a", 0), call("b", 0)];
    let reports = vec![HostReport::Fault { offset: None }];
    let outcome = dispatch(&envelope_of(ops), &Snapshot::new(), &symbols(), &reports);
    assert_eq!(outcome.invoked, 1);
    assert_eq!(outcome.fault, Some(Fault { offset: None, location: None }));
}

#[test]
fn fault_without_symbols_lets_the_run_go_on() {
    let ops = vec![call("a", 0), Operation::OtherHostFunction, call("b", 0)];
    let reports = vec![
        HostReport::Fault { offset: Some(0x1234) },
        HostReport::Fault { offset: Some(0x5678) },
    ];
    let outcome = dispatch(&envelope_of(ops), &Snapshot::new(), &DebugSymbolTable::empty(), &reports);
    let mut expected = lines_of("a", 0);
    expected.push(SKIP.to_string());
    expected.extend(lines_of("b", 0));
    assert_eq!(outcome.logs, expected);
    assert_eq!(outcome.invoked, 2);
    assert_eq!(outcome.skipped, 1);
    // one fault per run: the first
    assert_eq!(outcome.fault, Some(Fault { offset: Some(0x1234), location: None }));
}

#[test]
fn missing_reports_count_as_completed() {
    let ops = vec![call("a", 0), call("b", 0)];
    let outcome = dispatch(&envelope_of(ops), &Snapshot::new(), &symbols(), &vec![HostReport::Completed]);
    assert_eq!(outcome.invoked, 2);
    assert_eq!(outcome.fault, None);
}

#[test]
fn fee_bump_envelope_is_dispatched_like_its_inner_transaction() {
    let ops = vec![call("a", 2), Operation::Other];
    let plain =
        dispatch(&TransactionEnvelope::new(EnvelopeKind::Signed, ops.clone()), &Snapshot::new(), &symbols(), &vec![]);
    let unsigned = dispatch(
        &TransactionEnvelope::new(EnvelopeKind::Unsigned, ops.clone()), &Snapshot::new(),
        &symbols(),
        &vec![],
    );
    let bumped = dispatch(
        &TransactionEnvelope::new(EnvelopeKind::FeeBumpWrapped, ops), &Snapshot::new(),
        &symbols(),
        &vec![],
    );
    assert_eq!(plain, bumped);
    assert_eq!(plain, unsigned);
    assert_eq!(plain.logs, lines_of("a", 2));
}

#[test]
fn dispatcher_hands_out_invocations_one_by_one() {
    let envelope = envelope_of(vec![Operation::Other, call("a", 1), call("b", 0)]);
    let table = symbols();
    let ledger = Snapshot::new().insert(vec![1], vec![2]);
    let mut dispatcher = Dispatcher::new(&envelope, &ledger, &table);
    assert!(!dispatcher.is_over());

    match dispatcher.next() {
        Action::Invoke { invocation, snapshot } => {
            assert_eq!(invocation.function_name, "a");
            assert_eq!(snapshot.get(&vec![1]), Some(&vec![2]));
        }
        Action::Finish => panic!("an invocation is due"),
    }
    // asking again changes nothing
    match dispatcher.next() {
        Action::Invoke { invocation, snapshot } => {
            assert_eq!(invocation.function_name, "a");
            assert_eq!(snapshot.get(&vec![1]), Some(&vec![2]));
        }
        Action::Finish => panic!("an invocation is due"),
    }
    dispatcher.report(HostReport::Completed);

    match dispatcher.next() {
        Action::Invoke { invocation, snapshot } => {
            assert_eq!(invocation.function_name, "b");
            assert_eq!(snapshot.len(), 1);
        }
        Action::Finish => panic!("an invocation is due"),
    }
    dispatcher.report(HostReport::Completed);

    assert!(matches!(dispatcher.next(), Action::Finish));
    assert!(dispatcher.is_over());
    // a report with nothing due changes nothing
    dispatcher.report(HostReport::Fault { offset: Some(0x1234) });
    let outcome = dispatcher.finish();
    let mut expected = lines_of("a", 1);
    expected.extend(lines_of("b", 0));
    assert_eq!(
        outcome,
        DispatchOutcome { logs: expected, invoked: 2, skipped: 1, fault: None }
    );
}

#[test]
fn dispatcher_finishes_after_a_located_fault() {
    let envelope = envelope_of(vec![call("a", 0), call("b", 0)]);
    let table = symbols();
    let ledger = Snapshot::new().insert(vec![1], vec![2]);
    let mut dispatcher = Dispatcher::new(&envelope, &ledger, &table);
    assert!(matches!(dispatcher.next(), Action::Invoke { .. }));
    dispatcher.report(HostReport::Fault { offset: Some(0x1000) });
    assert!(dispatcher.is_over());
    assert!(matches!(dispatcher.next(), Action::Finish));
    let outcome = dispatcher.finish();
    assert_eq!(outcome.logs, lines_of("a", 0));
    assert_eq!(
        outcome.fault,
        Some(Fault { offset: Some(0x1000), location: Some(lib_rs_42()) })
    );
}

#[test]
fn dispatcher_and_dispatch_agree() {
    let envelope = envelope_of(vec![
        call("a", 0),
        Operation::OtherHostFunction,
        call("b", 4),
        Operation::Other,
        call("c", 1),
    ]);
    let table = DebugSymbolTable::empty();
    let reports = vec![
        HostReport::Completed,
        HostReport::Fault { offset: Some(3) },
        HostReport::Completed,
    ];
    let ledger = Snapshot::new().insert(vec![1], vec![2]);
    let mut dispatcher = Dispatcher::new(&envelope, &ledger, &table);
    let mut used = 0;
    while let Action::Invoke { .. } = dispatcher.next() {
        dispatcher.report(reports[used]);
        used += 1;
    }
    assert_eq!(used, 3);
    assert_eq!(dispatcher.finish(), dispatch(&envelope, &Snapshot::new(), &table, &reports));
}
