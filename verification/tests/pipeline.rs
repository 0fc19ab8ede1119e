use base64::Engine;
use simulator::codec::{DecodeError, Schema};
use simulator::dispatch::HostReport;
use simulator::host::{conclude, host_failure, host_once_enabled, open_host};
use simulator::dispatch::DispatchOutcome;
use simulator::pipeline::{
    build_table, decode_result_meta, prepare, simulate, SimulationRequest,
};
use simulator::report::{invalid_request, send_error, SimulationResult, Status};
use simulator::symbols::SourceLocation;
use soroban_env_host::xdr;
use soroban_env_host::xdr::WriteXdr;

fn pipe_b64(bytes: &[u8]) -> String {
    base64::engine::general_purpose::STANDARD.encode(bytes)
}

fn pipe_xdr<T: WriteXdr>(value: &T) -> String {
    pipe_b64(&value.to_xdr(xdr::Limits::none()).unwrap())
}

fn pipe_invoke(function: &str, args: Vec<xdr::ScVal>) -> xdr::Operation {
    xdr::Operation {
        source_account: None,
        body: xdr::OperationBody::InvokeHostFunction(xdr::InvokeHostFunctionOp {
            host_function: xdr::HostFunction::InvokeContract(xdr::InvokeContractArgs {
                contract_address: xdr::ScAddress::Contract(xdr::ContractId(xdr::Hash([1u8; 32]))),
                function_name: xdr::ScSymbol(function.try_into().unwrap()),
                args: args.try_into().unwrap(),
            }),
            auth: xdr::VecM::default(),
        }),
    }
}

fn pipe_envelope(ops: Vec<xdr::Operation>) -> String {
    pipe_xdr(&xdr::TransactionEnvelope::Tx(xdr::TransactionV1Envelope {
        tx: xdr::Transaction { operations: ops.try_into().unwrap(), ..Default::default() },
        signatures: xdr::VecM::default(),
    }))
}

fn pipe_leb(mut value: u64) -> Vec<u8> {
    let mut out = Vec::new();
    loop {
        let low = (value & 0x7f) as u8;
        value >>= 7;
        if value == 0 {
            out.push(low);
            return out;
        }
        out.push(low | 0x80);
    }
}

/// A module whose debug symbols map `[start, end)` to `file` at `line`.
fn pipe_module(start: u64, end: u64, file: &str, line: u32) -> String {
    let mut data = vec![0x01];
    data.extend(pipe_leb(start));
    data.extend(pipe_leb(end));
    data.extend(pipe_leb(line as u64));
    data.extend(pipe_leb(file.len() as u64));
    data.extend_from_slice(file.as_bytes());
    let name = b"debug_symbols";
    let mut content = pipe_leb(name.len() as u64);
    content.extend_from_slice(name);
    content.extend(data);
    let mut module = vec![0x00, 0x61, 0x73, 0x6d, 0x01, 0x00, 0x00, 0x00, 0x00];
    module.extend(pipe_leb(content.len() as u64));
    module.extend(content);
    pipe_b64(&module)
}

fn pipe_request(envelope_xdr: String) -> SimulationRequest {
    SimulationRequest {
        envelope_xdr,
        result_meta_xdr: String::new(),
        ledger_entries: None,
        contract_wasm: None,
    }
}

fn pipe_key(seed: u8) -> String {
    pipe_xdr(&xdr::LedgerKey::Account(xdr::LedgerKeyAccount {
        account_id: xdr::AccountId(xdr::PublicKey::PublicKeyTypeEd25519(xdr::Uint256([seed; 32]))),
    }))
}

fn pipe_entry(seq: u32) -> String {
    pipe_xdr(&xdr::LedgerEntry { last_modified_ledger_seq: seq, ..Default::default() })
}

#[test]
fn scenario_no_operations_no_entries_no_module() {
    let res = simulate(&pipe_request(pipe_envelope(vec![])), &vec![]);
    assert_eq!(res.status, Status::Success);
    assert_eq!(res.error, None);
    assert_eq!(res.events, Vec::<String>::new());
    assert_eq!(res.source_location, None);
    assert_eq!(res.logs.len(), 2);
    assert!(res.logs[0].starts_with("Host Initialized with Budget: "));
    assert!(res.logs[0].len() > "Host Initialized with Budget: ".len());
    assert_eq!(res.logs[1], "Loaded 0 Ledger Entries");
}

#[test]
fn scenario_fault_inside_a_known_range() {
    let mut request = pipe_request(pipe_envelope(vec![pipe_invoke("transfer", vec![])]));
    request.contract_wasm = Some(pipe_module(0x1000, 0x2000, "lib.rs", 42));
    let res = simulate(&request, &vec![HostReport::Fault { offset: Some(0x1234) }]);
    assert_eq!(
        res,
        SimulationResult {
            status: Status::Error,
            error: Some("Contract execution failed. Failed at line 42 in lib.rs".to_string()),
            events: vec![],
            logs: vec![],
            source_location: Some(SourceLocation {
                file: "lib.rs".to_string(),
                line: 42,
                column: None,
            }),
        }
    );
}

#[test]
fn scenario_fault_without_module() {
    let request = pipe_request(pipe_envelope(vec![pipe_invoke("transfer", vec![])]));
    let res = simulate(&request, &vec![HostReport::Fault { offset: Some(0x1234) }]);
    assert_eq!(res.status, Status::Error);
    assert_eq!(res.error, Some("Contract execution failed.".to_string()));
    assert_eq!(res.source_location, None);
    assert!(res.events.is_empty());
    assert!(res.logs.is_empty());
}

#[test]
fn scenario_malformed_request() {
    let parsed: Result<serde_json::Value, serde_json::Error> = serde_json::from_str("{ not json");
    let detail = parsed.unwrap_err().to_string();
    let res = invalid_request(&detail);
    assert_eq!(res.status, Status::Error);
    let message = res.error.clone().unwrap();
    assert!(message.contains("Invalid JSON"));
    assert_eq!(message, format!("Invalid JSON: {}", detail));
    assert!(res.events.is_empty());
    assert!(res.logs.is_empty());
    assert_eq!(res.source_location, None);
}

#[test]
fn fault_outside_the_ranges_is_a_generic_error() {
    let mut request = pipe_request(pipe_envelope(vec![pipe_invoke("transfer", vec![])]));
    request.contract_wasm = Some(pipe_module(0x1000, 0x2000, "lib.rs", 42));
    let res = simulate(&request, &vec![HostReport::Fault { offset: Some(0x2000) }]);
    assert_eq!(res, send_error("Contract execution failed.".to_string()));
}

#[test]
fn clean_run_logs_the_invocations() {
    let args = vec![xdr::ScVal::U32(1), xdr::ScVal::U32(2)];
    let mut request = pipe_request(pipe_envelope(vec![
        pipe_invoke("transfer", args),
        xdr::Operation { source_account: None, body: xdr::OperationBody::Inflation },
    ]));
    request.contract_wasm = Some(pipe_module(0x1000, 0x2000, "lib.rs", 42));
    request.ledger_entries = Some(vec![(pipe_key(1), pipe_entry(5)), (pipe_key(2), pipe_entry(6))]);
    let res = simulate(&request, &vec![HostReport::Completed]);
    assert_eq!(res.status, Status::Success);
    assert_eq!(res.error, None);
    assert_eq!(res.logs.len(), 5);
    assert_eq!(res.logs[1], "Loaded 2 Ledger Entries");
    let address = xdr::ScAddress::Contract(xdr::ContractId(xdr::Hash([1u8; 32])));
    assert_eq!(res.logs[2], format!("About to Invoke Contract: {:?}", address));
    assert_eq!(res.logs[3], "Function: ScSymbol(StringM(transfer))");
    assert_eq!(res.logs[4], "Args Count: 2");
}

#[test]
fn bad_envelope_is_reported_first() {
    let mut request = pipe_request("***".to_string());
    request.result_meta_xdr = pipe_b64(&[1, 2, 3]);
    request.ledger_entries = Some(vec![("???".to_string(), "???".to_string())]);
    let res = simulate(&request, &vec![]);
    assert_eq!(res.status, Status::Error);
    assert!(res.error.clone().unwrap().starts_with("Failed to decode Envelope Base64: "));
    assert!(res.events.is_empty() && res.logs.is_empty());

    let request = pipe_request(pipe_b64(&[0, 0, 0, 9]));
    let res = simulate(&request, &vec![]);
    assert!(res.error.unwrap().starts_with("Failed to parse Envelope XDR: "));
}

#[test]
fn result_meta_is_optional() {
    assert!(matches!(decode_result_meta(""), Ok(None)));
    // text that is not base64 ends the simulation
    assert!(matches!(
        decode_result_meta("???"),
        Err(DecodeError::Base64Error { schema: Schema::ResultMeta, .. })
    ));
    let mut request = pipe_request(pipe_envelope(vec![]));
    request.result_meta_xdr = "???".to_string();
    let res = simulate(&request, &vec![]);
    assert_eq!(res.status, Status::Error);
    assert!(res.error.unwrap().starts_with("Failed to decode ResultMeta Base64: "));
    let meta = pipe_xdr(&xdr::TransactionResultMeta::default());
    match decode_result_meta(&meta) {
        Ok(Some(record)) => assert_eq!(pipe_b64(record.bytes()), meta),
        other => panic!("expected the metadata, got {:?}", other),
    }
    // bytes off the layout end the simulation
    let mut request = pipe_request(pipe_envelope(vec![]));
    request.result_meta_xdr = pipe_b64(&[1, 2, 3]);
    let res = simulate(&request, &vec![]);
    assert_eq!(res.status, Status::Error);
    assert!(res.error.unwrap().starts_with("Failed to parse ResultMeta XDR: "));
}

#[test]
fn bad_ledger_entry_ends_the_simulation() {
    let mut request = pipe_request(pipe_envelope(vec![]));
    request.ledger_entries = Some(vec![(pipe_key(1), pipe_entry(1)), (pipe_key(2), "%".to_string())]);
    let res = simulate(&request, &vec![]);
    assert_eq!(res.status, Status::Error);
    assert!(res.error.unwrap().starts_with("Failed to decode LedgerEntry Base64: "));
    assert!(res.logs.is_empty());
}

#[test]
fn module_without_symbols_gives_the_empty_table() {
    assert!(!build_table(&None).unwrap().has_debug_symbols());
    assert!(!build_table(&Some(String::new())).unwrap().has_debug_symbols());
    assert!(!build_table(&Some(pipe_b64(b"no module"))).unwrap().has_debug_symbols());
    assert!(build_table(&Some(pipe_module(1, 2, "a.rs", 3))).unwrap().has_debug_symbols());
}

#[test]
fn module_that_is_not_base64_ends_the_simulation() {
    assert!(matches!(
        build_table(&Some("???".to_string())),
        Err(DecodeError::Base64Error { schema: Schema::ContractWasm, .. })
    ));
    let mut request = pipe_request(pipe_envelope(vec![]));
    request.contract_wasm = Some("???".to_string());
    request.ledger_entries = Some(vec![("???".to_string(), "???".to_string())]);
    let res = simulate(&request, &vec![]);
    assert_eq!(res.status, Status::Error);
    assert!(res.error.unwrap().starts_with("Failed to decode ContractWasm Base64: "));
    assert!(res.events.is_empty() && res.logs.is_empty());
}

#[test]
fn prepare_decodes_all_artifacts() {
    let mut request = pipe_request(pipe_envelope(vec![pipe_invoke("f", vec![])]));
    request.result_meta_xdr = pipe_xdr(&xdr::TransactionResultMeta::default());
    request.contract_wasm = Some(pipe_module(0x10, 0x20, "x.rs", 7));
    request.ledger_entries = Some(vec![
        (pipe_key(1), pipe_entry(1)),
        (pipe_key(1), pipe_entry(2)),
    ]);
    let prepared = prepare(&request).ok().unwrap();
    assert_eq!(prepared.envelope.operations().len(), 1);
    assert!(prepared.result_meta.is_some());
    assert_eq!(prepared.table.len(), 1);
    assert_eq!(prepared.loaded, 2);
    assert_eq!(prepared.snapshot.len(), 1);
}

#[test]
fn host_is_opened_and_concluded() {
    let host = open_host().unwrap();
    let outcome = DispatchOutcome {
        logs: vec!["trace".to_string()],
        invoked: 0,
        skipped: 0,
        fault: None,
    };
    let res = conclude(&host, 3, outcome);
    assert_eq!(res.status, Status::Success);
    assert!(res.events.is_empty());
    assert_eq!(res.logs.len(), 3);
    assert!(res.logs[0].starts_with("Host Initialized with Budget: "));
    assert!(res.logs[0].contains("Cpu limit"));
    assert_eq!(res.logs[1], "Loaded 3 Ledger Entries");
    assert_eq!(res.logs[2], "trace");

    let res = host_failure("no host");
    assert_eq!(res, send_error("Failed to initialize host: no host".to_string()));
}

#[test]
fn host_is_handed_out_only_once_enabled() {
    let host = open_host().unwrap();
    match host_once_enabled(host, Err("diagnostics refused".to_string())) {
        Err(detail) => assert_eq!(detail, "diagnostics refused"),
        Ok(_) => panic!("a host that refused must not be handed out"),
    }
    let host = open_host().unwrap();
    match host_once_enabled(host, Ok(())) {
        Ok(host) => {
            let outcome = DispatchOutcome { logs: vec![], invoked: 0, skipped: 0, fault: None };
            assert_eq!(conclude(&host, 0, outcome).logs.len(), 2);
        }
        Err(detail) => panic!("the host must be handed out, got {}", detail),
    }
}
