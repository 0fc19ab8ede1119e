//! One simulation from request to result: decode the artifacts, build the
//! symbol table and the snapshot, dispatch the operations, assemble.

use crate::codec::{
    decode_b64_binary, decode_envelope, decode_envelope_spec, decode_spec, BinaryRecord,
    DecodeError, DecodeErrorView, RecordView, Schema,
};
use crate::dispatch::{dispatch, dispatch_spec, HostReport};
use crate::envelope::{EnvelopeView, TransactionEnvelope};
use crate::host::{conclude, host_failure, is_conclusion, is_host_failure, open_host};
use crate::report::{
    decode_failure, decode_failure_result, fault_result, ResultView, SimulationResult,
};
use crate::snapshot::{build_snapshot, pair_views, snapshot_spec, Snapshot};
use crate::symbols::{module_table, well_formed, DebugSymbolTable, RangeView};
use vstd::prelude::*;

verus! {

/// What a simulation is asked to replay.
#[derive(Clone, Debug, PartialEq, Eq)]
pub struct SimulationRequest {
    /// The transaction envelope, base64.
    pub envelope_xdr: String,
    /// The result metadata of an earlier run, base64; empty where there is
    /// none.
    pub result_meta_xdr: String,
    /// The ledger entries, each key with its entry, both base64.
    pub ledger_entries: Option<Vec<(String, String)>>,
    /// The compiled contract module, base64, for mapping faults to source.
    pub contract_wasm: Option<String>,
}

/// The mathematical value of a [`SimulationRequest`].
pub struct RequestView {
    pub envelope_xdr: Seq<char>,
    pub result_meta_xdr: Seq<char>,
    pub ledger_entries: Option<Seq<(Seq<char>, Seq<char>)>>,
    pub contract_wasm: Option<Seq<char>>,
}

impl View for SimulationRequest {
    type V = RequestView;

    open spec fn view(&self) -> RequestView {
        RequestView {
            envelope_xdr: self.envelope_xdr@,
            result_meta_xdr: self.result_meta_xdr@,
            ledger_entries: match self.ledger_entries {
                Some(pairs) => Some(pair_views(pairs@)),
                None => None,
            },
            contract_wasm: match self.contract_wasm {
                Some(text) => Some(text@),
                None => None,
            },
        }
    }
}

/// The decoded artifacts of a request.
pub struct Prepared {
    pub envelope: TransactionEnvelope,
    /// The result metadata, where the request carries some.
    pub result_meta: Option<BinaryRecord>,
    /// The symbol table of the module; empty where there is no module or the
    /// module carries no debug symbols.
    pub table: DebugSymbolTable,
    pub snapshot: Snapshot,
    /// The number of ledger entries that were loaded.
    pub loaded: usize,
}

/// The mathematical value of a [`Prepared`].
pub struct PreparedView {
    pub envelope: EnvelopeView,
    pub result_meta: Option<RecordView>,
    pub table: Seq<RangeView>,
    pub snapshot: Map<Seq<u8>, Seq<u8>>,
    pub loaded: nat,
}

impl View for Prepared {
    type V = PreparedView;

    open spec fn view(&self) -> PreparedView {
        PreparedView {
            envelope: self.envelope@,
            result_meta: match self.result_meta {
                Some(record) => Some(record@),
                None => None,
            },
            table: self.table@,
            snapshot: self.snapshot@,
            loaded: self.loaded as nat,
        }
    }
}

/// The result metadata of a request: none for the empty text, else what the
/// text decodes to.
pub open spec fn result_meta_spec(text: Seq<char>) -> Result<Option<RecordView>, DecodeErrorView> {
    if text.len() == 0 {
        Ok(None)
    } else {
        match decode_spec(text, Schema::ResultMeta) {
            Ok(record) => Ok(Some(record)),
            Err(e) => Err(e),
        }
    }
}

/// The symbol table of a request: the empty table where no module is given,
/// else the table of the module that the text decodes to.
pub open spec fn table_spec(contract_wasm: Option<Seq<char>>) -> Result<
    Seq<RangeView>,
    DecodeErrorView,
> {
    match contract_wasm {
        None => Ok(Seq::empty()),
        Some(text) => match decode_spec(text, Schema::ContractWasm) {
            Ok(module) => Ok(module_table(module.bytes)),
            Err(e) => Err(e),
        },
    }
}

/// The snapshot of a request with the number of entries loaded.
pub open spec fn ledger_spec(ledger_entries: Option<Seq<(Seq<char>, Seq<char>)>>) -> Result<
    (Map<Seq<u8>, Seq<u8>>, nat),
    DecodeErrorView,
> {
    match ledger_entries {
        None => Ok((Map::empty(), 0nat)),
        Some(pairs) => match snapshot_spec(pairs) {
            Ok(snapshot) => Ok((snapshot, pairs.len())),
            Err(e) => Err(e),
        },
    }
}

/// The decoded artifacts of a request, or the error result of the first
/// artifact that fails: envelope, result metadata, module, ledger entries,
/// in this order.
pub open spec fn prepare_spec(request: RequestView) -> Result<PreparedView, ResultView> {
    match decode_envelope_spec(request.envelope_xdr) {
        Err(e) => Err(decode_failure_result(e)),
        Ok(envelope) => match result_meta_spec(request.result_meta_xdr) {
            Err(e) => Err(decode_failure_result(e)),
            Ok(result_meta) => match table_spec(request.contract_wasm) {
                Err(e) => Err(decode_failure_result(e)),
                Ok(table) => match ledger_spec(request.ledger_entries) {
                    Err(e) => Err(decode_failure_result(e)),
                    Ok(ledger) => Ok(
                        PreparedView {
                            envelope,
                            result_meta,
                            table,
                            snapshot: ledger.0,
                            loaded: ledger.1,
                        },
                    ),
                },
            },
        },
    }
}

/// The value of the result of preparing a request.
pub open spec fn prepared_view(res: Result<Prepared, SimulationResult>) -> Result<
    PreparedView,
    ResultView,
> {
    match res {
        Ok(prepared) => Ok(prepared@),
        Err(failure) => Err(failure@),
    }
}

/// The value of the result of decoding result metadata.
pub open spec fn result_meta_view(res: Result<Option<BinaryRecord>, DecodeError>) -> Result<
    Option<RecordView>,
    DecodeErrorView,
> {
    match res {
        Ok(Some(record)) => Ok(Some(record@)),
        Ok(None) => Ok(None),
        Err(e) => Err(e@),
    }
}

/// Decodes the result metadata of a request: none for the empty text, else
/// what the text decodes to.
pub fn decode_result_meta(text: &str) -> (res: Result<Option<BinaryRecord>, DecodeError>)
    ensures
        result_meta_view(res) == result_meta_spec(text@),
{
    if text.unicode_len() == 0 {
        return Ok(None);
    }
    match decode_b64_binary(text, Schema::ResultMeta) {
        Ok(record) => Ok(Some(record)),
        Err(e) => Err(e),
    }
}

/// The value of the result of building a symbol table.
pub open spec fn table_view(res: Result<DebugSymbolTable, DecodeError>) -> Result<
    Seq<RangeView>,
    DecodeErrorView,
> {
    match res {
        Ok(table) => Ok(table@),
        Err(e) => Err(e@),
    }
}

/// Builds the symbol table of a request: the empty table where no module is
/// given, else the table of the module that the text decodes to. A module
/// without debug symbols gives the empty table; text that is not base64 is
/// an error.
pub fn build_table(contract_wasm: &Option<String>) -> (res: Result<DebugSymbolTable, DecodeError>)
    ensures
        table_view(res) == table_spec(text_of(*contract_wasm)),
        res matches Ok(table) ==> well_formed(table@),
{
    match contract_wasm {
        None => Ok(DebugSymbolTable::empty()),
        Some(text) => match decode_b64_binary(text.as_str(), Schema::ContractWasm) {
            Ok(module) => Ok(DebugSymbolTable::build(module.bytes().as_slice())),
            Err(e) => Err(e),
        },
    }
}

/// The text of an optional string.
pub open spec fn text_of(text: Option<String>) -> Option<Seq<char>> {
    match text {
        Some(text) => Some(text@),
        None => None,
    }
}

/// Decodes the artifacts of a request. The first artifact that fails ends
/// the preparation with the error result that names it.
pub fn prepare(request: &SimulationRequest) -> (res: Result<Prepared, SimulationResult>)
    ensures
        prepared_view(res) == prepare_spec(request@),
        res matches Ok(prepared) ==> well_formed(prepared.table@),
        res matches Err(failure) ==> failure@.is_consistent(),
{
    let envelope = match decode_envelope(request.envelope_xdr.as_str()) {
        Ok(envelope) => envelope,
        Err(e) => {
            return Err(decode_failure(&e));
        },
    };
    let result_meta = match decode_result_meta(request.result_meta_xdr.as_str()) {
        Ok(result_meta) => result_meta,
        Err(e) => {
            return Err(decode_failure(&e));
        },
    };
    let table = match build_table(&request.contract_wasm) {
        Ok(table) => table,
        Err(e) => {
            return Err(decode_failure(&e));
        },
    };
    let (snapshot, loaded) = match &request.ledger_entries {
        None => (Snapshot::new(), 0),
        Some(pairs) => match build_snapshot(pairs) {
            Ok(built) => built,
            Err(e) => {
                return Err(decode_failure(&e));
            },
        },
    };
    Ok(Prepared { envelope, result_meta, table, snapshot, loaded })
}

/// `res` is a result that the simulation of `request` may give when the host
/// answers the invocations with `reports`: the error of the first artifact
/// that fails to decode; else the error for a host that could not be set up;
/// else what the run of the operations gives with the host's events and
/// budget.
pub open spec fn is_simulation_result(
    request: RequestView,
    reports: Seq<HostReport>,
    res: ResultView,
) -> bool {
    match prepare_spec(request) {
        Err(failure) => res == failure,
        Ok(prepared) => is_host_failure(res) || is_conclusion(
            res,
            prepared.loaded,
            dispatch_spec(prepared.envelope.operations, reports, prepared.table),
        ),
    }
}

/// Simulates `request`, the host's answers to the invocations being given
/// as `reports`, in order.
pub fn simulate(request: &SimulationRequest, reports: &Vec<HostReport>) -> (res: SimulationResult)
    ensures
        is_simulation_result(request@, reports@, res@),
        res@.is_consistent(),
{
    let prepared = match prepare(request) {
        Ok(prepared) => prepared,
        Err(failure) => {
            return failure;
        },
    };
    let host = match open_host() {
        Ok(host) => host,
        Err(detail) => {
            return host_failure(detail.as_str());
        },
    };
    let outcome = dispatch(&prepared.envelope, &prepared.snapshot, &prepared.table, reports);
    conclude(&host, prepared.loaded, outcome)
}

/// A simulation whose run ends with a fault answers with the error for that
/// fault, whatever the host says of its events and budget.
pub proof fn lemma_fault_decides_result(
    request: RequestView,
    prepared: PreparedView,
    reports: Seq<HostReport>,
    res: ResultView,
)
    requires
        is_simulation_result(request, reports, res),
        prepare_spec(request) == Ok::<PreparedView, ResultView>(prepared),
        !is_host_failure(res),
        dispatch_spec(prepared.envelope.operations, reports, prepared.table).fault is Some,
    ensures
        res == fault_result(
            dispatch_spec(prepared.envelope.operations, reports, prepared.table).fault->0,
        ),
{
}

} // verus!
