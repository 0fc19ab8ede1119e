use base64::Engine;
use simulator::codec::{decode_b64_binary, decode_envelope, DecodeError, Schema, XDR_DEPTH_LIMIT};
use simulator::envelope::{ContractInvocation, EnvelopeKind, Operation, TransactionEnvelope};
use soroban_env_host::xdr;
use soroban_env_host::xdr::WriteXdr;

fn codec_b64(bytes: &[u8]) -> String {
    base64::engine::general_purpose::STANDARD.encode(bytes)
}

fn codec_xdr<T: WriteXdr>(value: &T) -> Vec<u8> {
    value.to_xdr(xdr::Limits::none()).unwrap()
}

fn codec_invoke(function: &str, args: Vec<xdr::ScVal>) -> xdr::Operation {
    xdr::Operation {
        source_account: None,
        body: xdr::OperationBody::InvokeHostFunction(xdr::InvokeHostFunctionOp {
            host_function: xdr::HostFunction::InvokeContract(xdr::InvokeContractArgs {
                contract_address: xdr::ScAddress::Contract(xdr::ContractId(xdr::Hash([7u8; 32]))),
                function_name: xdr::ScSymbol(function.try_into().unwrap()),
                args: args.try_into().unwrap(),
            }),
            auth: xdr::VecM::default(),
        }),
    }
}

fn codec_signed(ops: Vec<xdr::Operation>) -> xdr::TransactionEnvelope {
    xdr::TransactionEnvelope::Tx(xdr::TransactionV1Envelope {
        tx: xdr::Transaction { operations: ops.try_into().unwrap(), ..Default::default() },
        signatures: xdr::VecM::default(),
    })
}

fn codec_expected_invocation(function: &str, args: &[xdr::ScVal]) -> Operation {
    Operation::InvokeContract(ContractInvocation {
        contract_address: format!(
            "{:?}",
            xdr::ScAddress::Contract(xdr::ContractId(xdr::Hash([7u8; 32])))
        ),
        function_name: format!("{:?}", xdr::ScSymbol(function.try_into().unwrap())),
        args: args.iter().map(|v| format!("{:?}", v)).collect(),
    })
}

#[test]
fn base64_is_decoded() {
    for (text, bytes) in [
        ("aGVsbG8=", b"hello".to_vec()),
        ("", Vec::new()),
        ("AAEC/w==", vec![0, 1, 2, 255]),
    ] {
        let module = decode_b64_binary(text, Schema::ContractWasm).unwrap();
        assert_eq!(module.schema(), Schema::ContractWasm);
        assert_eq!(module.bytes(), &bytes);
        assert_eq!(module.encode(), text);
    }
}

#[test]
fn base64_failure_carries_the_decoders_message() {
    for text in ["!!!", "aGVsbG8", "aGVsbG8=\n", "a", "aGV=bG8="] {
        let expected = base64::engine::general_purpose::STANDARD.decode(text).unwrap_err();
        let res = decode_b64_binary(text, Schema::ContractWasm);
        assert_eq!(
            res.unwrap_err(),
            DecodeError::Base64Error {
                schema: Schema::ContractWasm,
                detail: expected.to_string(),
            }
        );
    }
}

#[test]
fn malformed_base64_gives_base64_error_for_every_schema() {
    for schema in [
        Schema::Envelope,
        Schema::ResultMeta,
        Schema::LedgerKey,
        Schema::LedgerEntry,
        Schema::ContractWasm,
    ] {
        for text in ["%%%", "not base64", "AAA", "=AAA"] {
            match decode_b64_binary(text, schema) {
                Err(DecodeError::Base64Error { schema: s, detail }) => {
                    assert_eq!(s, schema);
                    assert!(!detail.is_empty());
                }
                other => panic!("expected a base64 error, got {:?}", other),
            }
        }
    }
    assert!(matches!(decode_envelope("%%%"), Err(DecodeError::Base64Error { .. })));
}

#[test]
fn bytes_off_the_layout_give_schema_error() {
    let garbage = codec_b64(&[0xff; 7]);
    for schema in [Schema::Envelope, Schema::ResultMeta, Schema::LedgerKey, Schema::LedgerEntry] {
        match decode_b64_binary(&garbage, schema) {
            Err(DecodeError::SchemaError { schema: s, detail }) => {
                assert_eq!(s, schema);
                assert!(!detail.is_empty());
            }
            other => panic!("expected a schema error, got {:?}", other),
        }
    }
    assert!(matches!(decode_envelope(&garbage), Err(DecodeError::SchemaError { .. })));
}

#[test]
fn empty_bytes_are_no_record() {
    for schema in [Schema::Envelope, Schema::ResultMeta, Schema::LedgerKey, Schema::LedgerEntry] {
        assert!(matches!(decode_b64_binary("", schema), Err(DecodeError::SchemaError { .. })));
    }
}

#[test]
fn schema_error_carries_the_decoders_message() {
    let mut bytes = codec_xdr(&xdr::LedgerKey::default());
    bytes.push(0);
    match decode_b64_binary(&codec_b64(&bytes), Schema::LedgerKey) {
        Err(e) => {
            assert_eq!(
                e,
                DecodeError::SchemaError {
                    schema: Schema::LedgerKey,
                    detail: xdr::Error::Invalid.to_string(),
                }
            );
            assert_eq!(e.message(), "Failed to parse LedgerKey XDR: xdr value invalid");
        }
        Ok(_) => panic!("trailing bytes must be refused"),
    }
}

#[test]
fn truncated_ledger_entry_is_refused() {
    let bytes = codec_xdr(&xdr::LedgerEntry::default());
    for cut in 0..bytes.len() {
        let res = decode_b64_binary(&codec_b64(&bytes[..cut]), Schema::LedgerEntry);
        assert!(matches!(res, Err(DecodeError::SchemaError { .. })), "cut at {}", cut);
    }
}

#[test]
fn records_of_each_schema_are_decoded() {
    let key = codec_xdr(&xdr::LedgerKey::default());
    let entry = codec_xdr(&xdr::LedgerEntry::default());
    let meta = codec_xdr(&xdr::TransactionResultMeta::default());
    let envelope = codec_xdr(&codec_signed(vec![]));
    for (schema, bytes) in [
        (Schema::LedgerKey, key),
        (Schema::LedgerEntry, entry),
        (Schema::ResultMeta, meta),
        (Schema::Envelope, envelope),
    ] {
        let record = decode_b64_binary(&codec_b64(&bytes), schema).unwrap();
        assert_eq!(record.schema(), schema);
        assert_eq!(record.bytes(), &bytes);
    }
}

#[test]
fn schemas_are_told_apart() {
    let key = codec_b64(&codec_xdr(&xdr::LedgerKey::default()));
    assert!(decode_b64_binary(&key, Schema::LedgerKey).is_ok());
    assert!(matches!(
        decode_b64_binary(&key, Schema::LedgerEntry),
        Err(DecodeError::SchemaError { schema: Schema::LedgerEntry, .. })
    ));
}

#[test]
fn decode_round_trips() {
    let entry = xdr::LedgerEntry { last_modified_ledger_seq: 77, ..Default::default() };
    let text = codec_b64(&codec_xdr(&entry));
    let record = decode_b64_binary(&text, Schema::LedgerEntry).unwrap();
    let again = record.encode();
    assert_eq!(again, text);
    let second = decode_b64_binary(&again, Schema::LedgerEntry).unwrap();
    assert_eq!(second.schema(), record.schema());
    assert_eq!(second.bytes(), record.bytes());
    // the bytes are the structure's own encoding
    assert_eq!(codec_xdr(&entry), *second.bytes());
}

fn codec_data_key(flag: bool) -> Vec<u8> {
    codec_xdr(&xdr::LedgerKey::ContractData(xdr::LedgerKeyContractData {
        contract: xdr::ScAddress::Contract(xdr::ContractId(xdr::Hash([3u8; 32]))),
        key: xdr::ScVal::Bool(flag),
        durability: xdr::ContractDataDurability::Persistent,
    }))
}

/// The bytes of the key with `false`, the flag spelled as `spelling`
/// instead of zero.
fn codec_respelled_key(spelling: u8) -> Vec<u8> {
    let plain = codec_data_key(false);
    let other = codec_data_key(true);
    let at = (0..plain.len()).find(|i| plain[*i] != other[*i]).unwrap();
    let mut bytes = plain;
    bytes[at] = spelling;
    bytes
}

#[test]
fn records_are_kept_in_canonical_form() {
    let canonical = codec_data_key(false);
    let respelled = codec_respelled_key(2);
    assert_ne!(respelled, canonical);
    let record = decode_b64_binary(&codec_b64(&respelled), Schema::LedgerKey).unwrap();
    assert_eq!(record.bytes(), &canonical);
    assert_eq!(record.encode(), codec_b64(&canonical));
    // the canonical form decodes to itself
    let again = decode_b64_binary(&record.encode(), Schema::LedgerKey).unwrap();
    assert_eq!(again.bytes(), record.bytes());
    // and differs from the key with the other flag
    let other = decode_b64_binary(&codec_b64(&codec_data_key(true)), Schema::LedgerKey).unwrap();
    assert_ne!(other.bytes(), record.bytes());
}

#[test]
fn envelope_record_is_canonical() {
    let args = vec![xdr::ScVal::Bool(false)];
    let canonical = codec_xdr(&codec_signed(vec![codec_invoke("f", args.clone())]));
    let with_true = codec_xdr(&codec_signed(vec![codec_invoke("f", vec![xdr::ScVal::Bool(true)])]));
    let at = (0..canonical.len()).find(|i| canonical[*i] != with_true[*i]).unwrap();
    let mut respelled = canonical.clone();
    respelled[at] = 9;
    let record = decode_b64_binary(&codec_b64(&respelled), Schema::Envelope).unwrap();
    assert_eq!(record.bytes(), &canonical);
    assert_eq!(
        decode_envelope(&codec_b64(&respelled)),
        decode_envelope(&codec_b64(&canonical))
    );
    assert_eq!(
        decode_envelope(&record.encode()).unwrap().operations(),
        &vec![codec_expected_invocation("f", &args)]
    );
}

#[test]
fn envelope_round_trips() {
    let args = vec![xdr::ScVal::U32(5), xdr::ScVal::Bool(true)];
    let text = codec_b64(&codec_xdr(&codec_signed(vec![codec_invoke("transfer", args)])));
    let first = decode_envelope(&text).unwrap();
    let record = decode_b64_binary(&text, Schema::Envelope).unwrap();
    let second = decode_envelope(&record.encode()).unwrap();
    assert_eq!(first, second);
}

#[test]
fn envelope_without_operations() {
    let text = codec_b64(&codec_xdr(&codec_signed(vec![])));
    let envelope = decode_envelope(&text).unwrap();
    assert_eq!(envelope.kind(), EnvelopeKind::Signed);
    assert!(envelope.operations().is_empty());
}

#[test]
fn envelope_with_invocation() {
    let args = vec![xdr::ScVal::U32(5), xdr::ScVal::Void, xdr::ScVal::I64(-3)];
    let text = codec_b64(&codec_xdr(&codec_signed(vec![codec_invoke("transfer", args.clone())])));
    let envelope = decode_envelope(&text).unwrap();
    assert_eq!(envelope.operations(), &vec![codec_expected_invocation("transfer", &args)]);
    match &envelope.operations()[0] {
        Operation::InvokeContract(call) => {
            assert_eq!(call.function_name, "ScSymbol(StringM(transfer))");
            assert_eq!(call.args.len(), 3);
            assert!(call.contract_address.starts_with("Contract("));
        }
        other => panic!("expected an invocation, got {:?}", other),
    }
}

#[test]
fn envelope_operations_keep_their_order_and_kind() {
    let upload = xdr::Operation {
        source_account: None,
        body: xdr::OperationBody::InvokeHostFunction(xdr::InvokeHostFunctionOp {
            host_function: xdr::HostFunction::UploadContractWasm(xdr::BytesM::default()),
            auth: xdr::VecM::default(),
        }),
    };
    let inflation = xdr::Operation { source_account: None, body: xdr::OperationBody::Inflation };
    let ops = vec![
        inflation,
        codec_invoke("first", vec![]),
        upload,
        codec_invoke("second", vec![xdr::ScVal::U32(1)]),
    ];
    let envelope = decode_envelope(&codec_b64(&codec_xdr(&codec_signed(ops)))).unwrap();
    assert_eq!(
        envelope.operations(),
        &vec![
            Operation::Other,
            codec_expected_invocation("first", &[]),
            Operation::OtherHostFunction,
            codec_expected_invocation("second", &[xdr::ScVal::U32(1)]),
        ]
    );
}

#[test]
fn unsigned_envelope_is_decoded() {
    let v0 = xdr::TransactionEnvelope::TxV0(xdr::TransactionV0Envelope {
        tx: xdr::TransactionV0 {
            operations: vec![codec_invoke("old", vec![])].try_into().unwrap(),
            ..Default::default()
        },
        signatures: xdr::VecM::default(),
    });
    let envelope = decode_envelope(&codec_b64(&codec_xdr(&v0))).unwrap();
    assert_eq!(envelope.kind(), EnvelopeKind::Unsigned);
    assert!(matches!(envelope, TransactionEnvelope::Unsigned(_)));
    assert_eq!(envelope.operations(), &vec![codec_expected_invocation("old", &[])]);
}

#[test]
fn fee_bump_is_unwrapped_one_level() {
    let inner = xdr::TransactionV1Envelope {
        tx: xdr::Transaction {
            operations: vec![codec_invoke("inner", vec![xdr::ScVal::U32(9)])]
                .try_into()
                .unwrap(),
            ..Default::default()
        },
        signatures: xdr::VecM::default(),
    };
    let bump = xdr::TransactionEnvelope::TxFeeBump(xdr::FeeBumpTransactionEnvelope {
        tx: xdr::FeeBumpTransaction {
            fee: 1000,
            inner_tx: xdr::FeeBumpTransactionInnerTx::Tx(inner),
            ..Default::default()
        },
        signatures: xdr::VecM::default(),
    });
    let envelope = decode_envelope(&codec_b64(&codec_xdr(&bump))).unwrap();
    assert_eq!(envelope.kind(), EnvelopeKind::FeeBumpWrapped);
    assert!(matches!(envelope, TransactionEnvelope::FeeBumpWrapped(_)));
    assert_eq!(
        envelope.operations(),
        &vec![codec_expected_invocation("inner", &[xdr::ScVal::U32(9)])]
    );
}

#[test]
fn nesting_beyond_the_depth_limit_is_refused() {
    let mut value = xdr::ScVal::U32(1);
    for _ in 0..(XDR_DEPTH_LIMIT + 10) {
        value = xdr::ScVal::Vec(Some(xdr::ScVec(vec![value].try_into().unwrap())));
    }
    let deep = codec_signed(vec![codec_invoke("deep", vec![value])]);
    let text = codec_b64(&codec_xdr(&deep));
    assert_eq!(
        decode_envelope(&text),
        Err(DecodeError::SchemaError {
            schema: Schema::Envelope,
            detail: xdr::Error::DepthLimitExceeded.to_string(),
        })
    );

    let mut shallow = xdr::ScVal::U32(1);
    for _ in 0..20 {
        shallow = xdr::ScVal::Vec(Some(xdr::ScVec(vec![shallow].try_into().unwrap())));
    }
    let fine = codec_signed(vec![codec_invoke("fine", vec![shallow])]);
    assert!(decode_envelope(&codec_b64(&codec_xdr(&fine))).is_ok());
}

#[test]
fn decode_error_messages() {
    let e = DecodeError::Base64Error { schema: Schema::Envelope, detail: "bad".to_string() };
    assert_eq!(e.message(), "Failed to decode Envelope Base64: bad");
    let e = DecodeError::SchemaError { schema: Schema::Envelope, detail: "bad".to_string() };
    assert_eq!(e.message(), "Failed to parse Envelope XDR: bad");
    let e = DecodeError::SchemaError { schema: Schema::ResultMeta, detail: String::new() };
    assert_eq!(e.message(), "Failed to parse ResultMeta XDR: ");
    let e = DecodeError::Base64Error { schema: Schema::LedgerKey, detail: "x".to_string() };
    assert_eq!(e.message(), "Failed to decode LedgerKey Base64: x");
    let e = DecodeError::Base64Error { schema: Schema::LedgerEntry, detail: "y".to_string() };
    assert_eq!(e.message(), "Failed to decode LedgerEntry Base64: y");
    let e = DecodeError::Base64Error { schema: Schema::ContractWasm, detail: "z".to_string() };
    assert_eq!(e.message(), "Failed to decode ContractWasm Base64: z");
    assert_eq!(Schema::ResultMeta.name(), "ResultMeta");
}

#[test]
fn envelope_model_is_built_by_hand() {
    let envelope = TransactionEnvelope::new(EnvelopeKind::FeeBumpWrapped, vec![Operation::Other]);
    assert_eq!(envelope.kind(), EnvelopeKind::FeeBumpWrapped);
    assert_eq!(envelope.operations(), &vec![Operation::Other]);
    let envelope = TransactionEnvelope::new(EnvelopeKind::Unsigned, vec![]);
    assert!(matches!(envelope, TransactionEnvelope::Unsigned(_)));
}
