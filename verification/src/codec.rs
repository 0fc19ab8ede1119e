//! The binary decoder: base64 text to bytes, and bytes read as one of the
//! fixed binary schemas.
//!
//! Base64 and the binary layouts are the work of the `base64` and
//! `soroban-env-host` crates. What they answer is given a name here, so that
//! the decoder's contract can say exactly which answer leads to which result.
//!
//! A decoded record is kept in its canonical form: the bytes that the value
//! read is written back as. Two texts that stand for the same value, however
//! they spell it, decode to the same record.

use crate::envelope::{
    operation_views, ContractInvocation, EnvelopeKind, EnvelopeView, Operation, OperationView,
    TransactionEnvelope,
};
use crate::text::join;
use base64::Engine;
use soroban_env_host::xdr;
use soroban_env_host::xdr::{Limits, ReadXdr, WriteXdr};
use vstd::prelude::*;
use vstd::string::StringExecFns;

verus! {

/// How deep a binary record may nest before it is refused.
pub const XDR_DEPTH_LIMIT: u32 = 500;

/// The binary layouts that the decoder knows.
#[derive(Clone, Copy, Debug, PartialEq, Eq)]
pub enum Schema {
    Envelope,
    ResultMeta,
    LedgerKey,
    LedgerEntry,
    /// A compiled contract module. Any bytes pass; what they hold is looked
    /// at when the symbol table is built.
    ContractWasm,
}

/// Why a text could not be decoded: `detail` is what the decoder said.
#[derive(Clone, Debug, PartialEq, Eq)]
pub enum DecodeError {
    /// The text is not base64.
    Base64Error { schema: Schema, detail: String },
    /// The bytes do not follow the binary layout.
    SchemaError { schema: Schema, detail: String },
}

/// The mathematical value of a [`DecodeError`].
pub enum DecodeErrorView {
    Base64Error { schema: Schema, detail: Seq<char> },
    SchemaError { schema: Schema, detail: Seq<char> },
}

impl View for DecodeError {
    type V = DecodeErrorView;

    open spec fn view(&self) -> DecodeErrorView {
        match self {
            DecodeError::Base64Error { schema, detail } => DecodeErrorView::Base64Error {
                schema: *schema,
                detail: detail@,
            },
            DecodeError::SchemaError { schema, detail } => DecodeErrorView::SchemaError {
                schema: *schema,
                detail: detail@,
            },
        }
    }
}

/// What reading bytes as a transaction envelope gives: the envelope, and the
/// bytes that it is written back as.
pub struct EnvelopeReading {
    pub envelope: EnvelopeView,
    pub canonical: Seq<u8>,
}

// ---------------------------------------------------------------------------
// What the outside decoders answer
// ---------------------------------------------------------------------------

/// What standard base64 decoding makes of `text`: the bytes, or the reason
/// for which the text is refused.
pub uninterp spec fn base64_outcome(text: Seq<char>) -> Result<Seq<u8>, Seq<char>>;

/// What reading `bytes` as a transaction envelope gives under the limits on
/// nesting depth and length: the envelope with its canonical bytes, or the
/// reason for the refusal.
pub uninterp spec fn envelope_xdr(bytes: Seq<u8>, depth: u32, len: usize) -> Result<
    EnvelopeReading,
    Seq<char>,
>;

/// What reading `bytes` as transaction result metadata gives: the canonical
/// bytes of the value read, or the reason for the refusal.
pub uninterp spec fn result_meta_xdr(bytes: Seq<u8>, depth: u32, len: usize) -> Result<
    Seq<u8>,
    Seq<char>,
>;

/// What reading `bytes` as a ledger key gives: the canonical bytes of the
/// key, or the reason for the refusal.
pub uninterp spec fn ledger_key_xdr(bytes: Seq<u8>, depth: u32, len: usize) -> Result<
    Seq<u8>,
    Seq<char>,
>;

/// What reading `bytes` as a ledger entry gives: the canonical bytes of the
/// entry, or the reason for the refusal.
pub uninterp spec fn ledger_entry_xdr(bytes: Seq<u8>, depth: u32, len: usize) -> Result<
    Seq<u8>,
    Seq<char>,
>;

/// What the body of a decoded operation asks for.
pub uninterp spec fn operation_of_body(body: xdr::OperationBody) -> OperationView;

/// The outcome of a decoding that gave `bytes`.
pub open spec fn decoded_to(bytes: Seq<u8>) -> Result<Seq<u8>, Seq<char>> {
    Ok(bytes)
}

/// What the bodies of decoded operations ask for, one for one.
pub open spec fn operations_of_bodies(bodies: Seq<xdr::OperationBody>) -> Seq<OperationView> {
    bodies.map_values(|body: xdr::OperationBody| operation_of_body(body))
}

/// The body of a decoded operation, as a value that is handed from the
/// envelope reader to [`operation_of`]: nothing inside it is looked at
/// elsewhere.
#[verifier::external_type_specification]
#[verifier::external_body]
pub struct ExOperationBody(xdr::OperationBody);

/// Wraps `Engine::decode` of base64's `STANDARD` engine. The result is a
/// function of the text alone; the error is handed on as its message.
#[verifier::external_body]
fn base64_decode(text: &str) -> (res: Result<Vec<u8>, String>)
    ensures
        res matches Ok(bytes) ==> (base64_outcome(text@) matches Ok(b) && b == bytes@),
        res matches Err(why) ==> (base64_outcome(text@) matches Err(e) && e == why@),
{
    base64::engine::general_purpose::STANDARD.decode(text).map_err(|e| e.to_string())
}

/// Wraps `Engine::encode` of base64's `STANDARD` engine. Claimed of it: the
/// text it gives decodes to the bytes it was given. The call panics where
/// the text, four characters for every three bytes, would be longer than a
/// string can be; such inputs are left out.
#[verifier::external_body]
fn base64_encode(bytes: &[u8]) -> (encoded: String)
    requires
        (bytes@.len() / 3) * 4 + 4 <= isize::MAX,
    ensures
        base64_outcome(encoded@) == decoded_to(bytes@),
{
    base64::engine::general_purpose::STANDARD.encode(bytes)
}

/// Wraps `TransactionEnvelope::from_xdr`, which reads the whole of `bytes`
/// within the given limits, and `to_xdr`, which writes the envelope back.
/// Handed out are the form of the envelope, the bodies of its operations in
/// order (for a fee bump those of the one transaction inside it), and the
/// bytes written. Claimed beyond the name: the bytes written read back, at
/// their own length, as the same envelope and the same bytes.
#[verifier::external_body]
fn read_envelope(bytes: &[u8], depth: u32, len: usize) -> (res: Result<
    (EnvelopeKind, Vec<xdr::OperationBody>, Vec<u8>),
    String,
>)
    ensures
        res matches Ok(read) ==> (envelope_xdr(bytes@, depth, len) matches Ok(v) && v.envelope.kind
            == read.0 && v.envelope.operations == operations_of_bodies(read.1@) && v.canonical
            == read.2@),
        res matches Err(why) ==> (envelope_xdr(bytes@, depth, len) matches Err(e) && e == why@),
        res matches Ok(read) ==> envelope_xdr(read.2@, depth, read.2@.len() as usize)
            == envelope_xdr(bytes@, depth, len),
{
    let limits = Limits { depth, len };
    let env = xdr::TransactionEnvelope::from_xdr(bytes, limits.clone()).map_err(|e| e.to_string())?;
    let canonical = env.to_xdr(limits).map_err(|e| e.to_string())?;
    let (kind, ops) = match env {
        xdr::TransactionEnvelope::TxV0(e) => (EnvelopeKind::Unsigned, e.tx.operations),
        xdr::TransactionEnvelope::Tx(e) => (EnvelopeKind::Signed, e.tx.operations),
        xdr::TransactionEnvelope::TxFeeBump(e) => match e.tx.inner_tx {
            xdr::FeeBumpTransactionInnerTx::Tx(e) => (EnvelopeKind::FeeBumpWrapped, e.tx.operations),
        },
    };
    Ok((kind, ops.iter().map(|op| op.body.clone()).collect(), canonical))
}

/// Tells apart what the body of a decoded operation asks for. Of a contract
/// invocation it hands out the address, the function name and the arguments,
/// each as the crate's own `Debug` text.
#[verifier::external_body]
fn operation_of(body: &xdr::OperationBody) -> (op: Operation)
    ensures
        op@ == operation_of_body(*body),
{
    match body {
        xdr::OperationBody::InvokeHostFunction(h) => match &h.host_function {
            xdr::HostFunction::InvokeContract(a) => Operation::InvokeContract(
                ContractInvocation {
                    contract_address: format!("{:?}", a.contract_address),
                    function_name: format!("{:?}", a.function_name),
                    args: a.args.iter().map(|v| format!("{:?}", v)).collect(),
                },
            ),
            _ => Operation::OtherHostFunction,
        },
        _ => Operation::Other,
    }
}

/// Wraps `TransactionResultMeta::from_xdr` and `to_xdr`: the bytes that the
/// value read is written back as. Claimed beyond the name: these bytes read
/// back, at their own length, as themselves.
#[verifier::external_body]
fn read_result_meta(bytes: &[u8], depth: u32, len: usize) -> (res: Result<Vec<u8>, String>)
    ensures
        res matches Ok(c) ==> (result_meta_xdr(bytes@, depth, len) matches Ok(v) && v == c@),
        res matches Err(why) ==> (result_meta_xdr(bytes@, depth, len) matches Err(e) && e == why@),
        res matches Ok(c) ==> result_meta_xdr(c@, depth, c@.len() as usize) == decoded_to(c@),
{
    let limits = Limits { depth, len };
    let value = xdr::TransactionResultMeta::from_xdr(bytes, limits.clone());
    value.and_then(|v| v.to_xdr(limits)).map_err(|e| e.to_string())
}

/// Wraps `LedgerKey::from_xdr` and `to_xdr`: the bytes that the key read is
/// written back as. Claimed beyond the name: these bytes read back, at their
/// own length, as themselves.
#[verifier::external_body]
fn read_ledger_key(bytes: &[u8], depth: u32, len: usize) -> (res: Result<Vec<u8>, String>)
    ensures
        res matches Ok(c) ==> (ledger_key_xdr(bytes@, depth, len) matches Ok(v) && v == c@),
        res matches Err(why) ==> (ledger_key_xdr(bytes@, depth, len) matches Err(e) && e == why@),
        res matches Ok(c) ==> ledger_key_xdr(c@, depth, c@.len() as usize) == decoded_to(c@),
{
    let limits = Limits { depth, len };
    let value = xdr::LedgerKey::from_xdr(bytes, limits.clone());
    value.and_then(|v| v.to_xdr(limits)).map_err(|e| e.to_string())
}

/// Wraps `LedgerEntry::from_xdr` and `to_xdr`: the bytes that the entry read
/// is written back as. Claimed beyond the name: these bytes read back, at
/// their own length, as themselves.
#[verifier::external_body]
fn read_ledger_entry(bytes: &[u8], depth: u32, len: usize) -> (res: Result<Vec<u8>, String>)
    ensures
        res matches Ok(c) ==> (ledger_entry_xdr(bytes@, depth, len) matches Ok(v) && v == c@),
        res matches Err(why) ==> (ledger_entry_xdr(bytes@, depth, len) matches Err(e) && e == why@),
        res matches Ok(c) ==> ledger_entry_xdr(c@, depth, c@.len() as usize) == decoded_to(c@),
{
    let limits = Limits { depth, len };
    let value = xdr::LedgerEntry::from_xdr(bytes, limits.clone());
    value.and_then(|v| v.to_xdr(limits)).map_err(|e| e.to_string())
}

// ---------------------------------------------------------------------------
// The decoder
// ---------------------------------------------------------------------------

impl Schema {
    /// The name of the layout as it appears in messages.
    pub open spec fn name_text(self) -> Seq<char> {
        match self {
            Schema::Envelope => "Envelope"@,
            Schema::ResultMeta => "ResultMeta"@,
            Schema::LedgerKey => "LedgerKey"@,
            Schema::LedgerEntry => "LedgerEntry"@,
            Schema::ContractWasm => "ContractWasm"@,
        }
    }

    /// The name of the layout as it appears in messages.
    pub fn name(&self) -> (name: &'static str)
        ensures
            name@ == self.name_text(),
    {
        match self {
            Schema::Envelope => "Envelope",
            Schema::ResultMeta => "ResultMeta",
            Schema::LedgerKey => "LedgerKey",
            Schema::LedgerEntry => "LedgerEntry",
            Schema::ContractWasm => "ContractWasm",
        }
    }
}

impl DecodeErrorView {
    /// The message of the error: which artifact failed at which step, and
    /// what the decoder said.
    pub open spec fn message(self) -> Seq<char> {
        match self {
            DecodeErrorView::Base64Error { schema, detail } => "Failed to decode "@
                + schema.name_text() + " Base64: "@ + detail,
            DecodeErrorView::SchemaError { schema, detail } => "Failed to parse "@
                + schema.name_text() + " XDR: "@ + detail,
        }
    }
}

impl DecodeError {
    /// The message of the error, such as
    /// `Failed to parse LedgerKey XDR: xdr value invalid`.
    pub fn message(&self) -> (text: String)
        ensures
            text@ == self@.message(),
    {
        match self {
            DecodeError::Base64Error { schema, detail } => {
                let head = join("Failed to decode ", schema.name());
                head.concat(" Base64: ").concat(detail.as_str())
            },
            DecodeError::SchemaError { schema, detail } => {
                let head = join("Failed to parse ", schema.name());
                head.concat(" XDR: ").concat(detail.as_str())
            },
        }
    }
}

/// What reading `bytes` as an envelope gives under the decoder's limits:
/// nesting no deeper than [`XDR_DEPTH_LIMIT`], and no longer than the bytes
/// themselves.
pub open spec fn envelope_of_bytes(bytes: Seq<u8>) -> Result<EnvelopeReading, Seq<char>> {
    envelope_xdr(bytes, XDR_DEPTH_LIMIT, bytes.len() as usize)
}

/// The canonical bytes of the value that `bytes` are under the layout
/// `schema`, or the reason for which they do not follow it. A compiled
/// module is its bytes.
pub open spec fn schema_outcome(schema: Schema, bytes: Seq<u8>) -> Result<Seq<u8>, Seq<char>> {
    match schema {
        Schema::Envelope => match envelope_of_bytes(bytes) {
            Ok(reading) => Ok(reading.canonical),
            Err(why) => Err(why),
        },
        Schema::ResultMeta => result_meta_xdr(bytes, XDR_DEPTH_LIMIT, bytes.len() as usize),
        Schema::LedgerKey => ledger_key_xdr(bytes, XDR_DEPTH_LIMIT, bytes.len() as usize),
        Schema::LedgerEntry => ledger_entry_xdr(bytes, XDR_DEPTH_LIMIT, bytes.len() as usize),
        Schema::ContractWasm => Ok(bytes),
    }
}

/// The mathematical value of a [`BinaryRecord`].
pub struct RecordView {
    pub schema: Schema,
    pub bytes: Seq<u8>,
}

impl RecordView {
    /// The bytes are the canonical form of a value of the schema: read and
    /// written back, they stay as they are.
    pub open spec fn is_canonical(self) -> bool {
        schema_outcome(self.schema, self.bytes) == decoded_to(self.bytes)
    }
}

/// What decoding `text` against `schema` gives: the record in canonical
/// form, a base64 error where the text is not base64, a schema error where
/// the bytes do not follow the layout.
pub open spec fn decode_spec(text: Seq<char>, schema: Schema) -> Result<
    RecordView,
    DecodeErrorView,
> {
    match base64_outcome(text) {
        Err(detail) => Err(DecodeErrorView::Base64Error { schema, detail }),
        Ok(bytes) => match schema_outcome(schema, bytes) {
            Err(detail) => Err(DecodeErrorView::SchemaError { schema, detail }),
            Ok(canonical) => Ok(RecordView { schema, bytes: canonical }),
        },
    }
}

/// What decoding `text` as a transaction envelope gives.
pub open spec fn decode_envelope_spec(text: Seq<char>) -> Result<EnvelopeView, DecodeErrorView> {
    match base64_outcome(text) {
        Err(detail) => Err(DecodeErrorView::Base64Error { schema: Schema::Envelope, detail }),
        Ok(bytes) => match envelope_of_bytes(bytes) {
            Err(detail) => Err(DecodeErrorView::SchemaError { schema: Schema::Envelope, detail }),
            Ok(reading) => Ok(reading.envelope),
        },
    }
}

/// A binary record that has passed its schema, in canonical form.
#[derive(Debug)]
pub struct BinaryRecord {
    schema: Schema,
    bytes: Vec<u8>,
}

impl View for BinaryRecord {
    type V = RecordView;

    closed spec fn view(&self) -> RecordView {
        RecordView { schema: self.schema, bytes: self.bytes@ }
    }
}

/// The value of a decoding result.
pub open spec fn decoded_view(res: Result<BinaryRecord, DecodeError>) -> Result<
    RecordView,
    DecodeErrorView,
> {
    match res {
        Ok(record) => Ok(record@),
        Err(e) => Err(e@),
    }
}

/// The value of an envelope decoding result.
pub open spec fn decoded_envelope_view(res: Result<TransactionEnvelope, DecodeError>) -> Result<
    EnvelopeView,
    DecodeErrorView,
> {
    match res {
        Ok(envelope) => Ok(envelope@),
        Err(e) => Err(e@),
    }
}

impl BinaryRecord {
    #[verifier::type_invariant]
    spec fn follows_schema(self) -> bool {
        schema_outcome(self.schema, self.bytes@) == decoded_to(self.bytes@)
    }

    /// The layout that the record follows.
    pub fn schema(&self) -> (schema: Schema)
        ensures
            schema == self@.schema,
    {
        self.schema
    }

    /// The bytes of the record, in canonical form.
    pub fn bytes(&self) -> (bytes: &Vec<u8>)
        ensures
            bytes@ == self@.bytes,
            self@.is_canonical(),
    {
        proof {
            use_type_invariant(self);
        }
        &self.bytes
    }

    /// The record as base64 text. Decoding the text against the same schema
    /// gives the record back. The text, four characters for every three
    /// bytes, must not be longer than a string can be.
    pub fn encode(&self) -> (text: String)
        requires
            (self@.bytes.len() / 3) * 4 + 4 <= isize::MAX,
        ensures
            base64_outcome(text@) == decoded_to(self@.bytes),
            decode_spec(text@, self@.schema) == Ok::<RecordView, DecodeErrorView>(self@),
    {
        proof {
            use_type_invariant(self);
        }
        base64_encode(self.bytes.as_slice())
    }
}

/// Decodes base64 `text` and reads the bytes as a value of `schema`. Fails
/// with `Base64Error` exactly when the text is not base64, and with
/// `SchemaError` exactly when it is but the bytes do not follow the layout.
pub fn decode_b64_binary(text: &str, schema: Schema) -> (res: Result<BinaryRecord, DecodeError>)
    ensures
        decoded_view(res) == decode_spec(text@, schema),
        res matches Ok(record) ==> record@.is_canonical(),
{
    let bytes = match base64_decode(text) {
        Ok(bytes) => bytes,
        Err(detail) => {
            return Err(DecodeError::Base64Error { schema, detail });
        },
    };
    let len = bytes.len();
    let read = match schema {
        Schema::Envelope => match read_envelope(bytes.as_slice(), XDR_DEPTH_LIMIT, len) {
            Ok(read) => Ok(read.2),
            Err(why) => Err(why),
        },
        Schema::ResultMeta => read_result_meta(bytes.as_slice(), XDR_DEPTH_LIMIT, len),
        Schema::LedgerKey => read_ledger_key(bytes.as_slice(), XDR_DEPTH_LIMIT, len),
        Schema::LedgerEntry => read_ledger_entry(bytes.as_slice(), XDR_DEPTH_LIMIT, len),
        Schema::ContractWasm => Ok(bytes),
    };
    match read {
        Ok(canonical) => {
            let ghost again = canonical@.len() as usize;
            assert(again == canonical.len());
            Ok(BinaryRecord { schema, bytes: canonical })
        },
        Err(detail) => Err(DecodeError::SchemaError { schema, detail }),
    }
}

/// Decodes base64 `text` as a transaction envelope.
pub fn decode_envelope(text: &str) -> (res: Result<TransactionEnvelope, DecodeError>)
    ensures
        decoded_envelope_view(res) == decode_envelope_spec(text@),
{
    let bytes = match base64_decode(text) {
        Ok(bytes) => bytes,
        Err(detail) => {
            return Err(DecodeError::Base64Error { schema: Schema::Envelope, detail });
        },
    };
    let (kind, bodies, _) = match read_envelope(bytes.as_slice(), XDR_DEPTH_LIMIT, bytes.len()) {
        Ok(read) => read,
        Err(detail) => {
            return Err(DecodeError::SchemaError { schema: Schema::Envelope, detail });
        },
    };
    let ghost wanted = operations_of_bodies(bodies@);
    let mut operations: Vec<Operation> = Vec::new();
    let mut k: usize = 0;
    while k < bodies.len()
        invariant
            k <= bodies.len(),
            wanted == operations_of_bodies(bodies@),
            operation_views(operations@) =~= wanted.take(k as int),
        decreases bodies.len() - k,
    {
        let op = operation_of(&bodies[k]);
        proof {
            let before = operation_views(operations@);
            let after = operation_views(operations@.push(op));
            assert(wanted.len() == bodies@.len());
            assert(wanted[k as int] == operation_of_body(bodies@[k as int]));
            assert(before.len() == wanted.take(k as int).len());
            assert(operations@.len() == k);
            assert forall|i: int| 0 <= i < after.len() implies after[i] == wanted.take(k + 1)[i] by {
                assert(after[i] == operations@.push(op)[i]@);
                if i < k {
                    assert(operations@.push(op)[i] == operations@[i]);
                    assert(before[i] == operations@[i]@);
                    assert(before[i] == wanted.take(k as int)[i]);
                }
            }
            assert(after =~= wanted.take(k + 1));
        }
        operations.push(op);
        k += 1;
    }
    assert(wanted.take(k as int) =~= wanted);
    Ok(TransactionEnvelope::new(kind, operations))
}

/// Re-encoding a record and decoding it again gives the same record: a text
/// that encodes the bytes of a record in canonical form decodes to it.
pub proof fn lemma_decode_round_trip(record: RecordView, again: Seq<char>)
    requires
        record.is_canonical(),
        base64_outcome(again) == decoded_to(record.bytes),
    ensures
        decode_spec(again, record.schema) == Ok::<RecordView, DecodeErrorView>(record),
{
}

/// Decoding looks at a text only through the bytes it stands for: two texts
/// for the same bytes decode alike, as records and as envelopes.
pub proof fn lemma_decode_depends_on_bytes(text: Seq<char>, other: Seq<char>, schema: Schema)
    requires
        base64_outcome(text) is Ok,
        base64_outcome(other) == base64_outcome(text),
    ensures
        decode_spec(other, schema) == decode_spec(text, schema),
        decode_envelope_spec(other) == decode_envelope_spec(text),
{
}

/// Text that is not base64 is refused as such, whatever the schema.
pub proof fn lemma_malformed_base64_is_refused(text: Seq<char>, schema: Schema)
    requires
        base64_outcome(text) is Err,
    ensures
        decode_spec(text, schema) matches Err(DecodeErrorView::Base64Error { .. }),
        decode_envelope_spec(text) matches Err(DecodeErrorView::Base64Error { .. }),
{
}

} // verus!
